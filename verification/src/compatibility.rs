//! Whether a local program is the one that its configuration expects. A verdict is
//! kept until the program cannot be reached.

use crate::endpoint::{opt_fields, Action, Endpoint, Offer};
use crate::handler_error::{fault, Fault, HandlerError};
use crate::json::{
    alike, as_fields, as_list, as_text, equal, field, fields, get, list_field, object_field, text_field, trees, Fields,
    Json, Object, Tree,
};
use crate::local_api::{extract, extracted, value_of};
use crate::text::{cat2, cat3, cat4, cat5, debug_text, opt_view, pieces, quoted, same};
use crate::wire::{carried, printed_json, write_json};
use vstd::prelude::*;

verus! {

/// What was found of an endpoint.
#[derive(Debug, PartialEq, Eq)]
pub enum CompatVerdict {
    Passed,
    Failed { code: String, message: String },
}

/// What a `CompatVerdict` says: nothing, or why calls are refused.
pub open spec fn refusal(v: CompatVerdict) -> Option<Fault> {
    match v {
        CompatVerdict::Passed => None,
        CompatVerdict::Failed { code, message } => Some(fault(code@, message@)),
    }
}

/// The last verdict on `name`.
pub open spec fn verdict_on(list: Seq<(String, CompatVerdict)>, name: Seq<char>) -> Option<Option<Fault>>
    decreases list.len(),
{
    if list.len() == 0 {
        None
    } else if list.last().0@ == name {
        Some(refusal(list.last().1))
    } else {
        verdict_on(list.drop_last(), name)
    }
}

/// The verdicts so far.
pub struct CompatCache {
    pub verdicts: Vec<(String, CompatVerdict)>,
}

impl CompatCache {
    /// The verdict on `name`, where there is one.
    pub open spec fn on(self, name: Seq<char>) -> Option<Option<Fault>> {
        verdict_on(self.verdicts@, name)
    }

    pub fn new() -> (r: Self)
        ensures
            forall|k: Seq<char>| #[trigger] r.on(k) is None,
    {
        CompatCache { verdicts: Vec::new() }
    }

    /// Drops the verdict on `name`.
    pub fn forget(&mut self, name: &str)
        ensures
            forall|k: Seq<char>|
                #[trigger] final(self).on(k) == if k == name@ {
                    None
                } else {
                    old(self).on(k)
                },
    {
        let ghost all = self.verdicts@;
        let total = self.verdicts.len();
        let mut rest: Vec<(String, CompatVerdict)> = Vec::new();
        std::mem::swap(&mut self.verdicts, &mut rest);
        let mut kept: Vec<(String, CompatVerdict)> = Vec::new();
        let mut j: usize = 0;
        while j < total
            invariant
                j <= total,
                total == all.len(),
                rest@.len() == total,
                forall|m: int| j <= m < total ==> rest@[m] == all[m],
                forall|k: Seq<char>|
                    #[trigger] verdict_on(kept@, k) == if k == name@ {
                        None
                    } else {
                        verdict_on(all.take(j as int), k)
                    },
            decreases total - j,
        {
            let mut entry = (String::new(), CompatVerdict::Passed);
            std::mem::swap(&mut rest[j], &mut entry);
            assert(entry == all[j as int]);
            assert(all.take(j + 1).drop_last() =~= all.take(j as int));
            assert(all.take(j + 1).last() == entry);
            let ghost before = kept@;
            if !same(&entry.0, name) {
                kept.push(entry);
                assert(kept@.drop_last() =~= before);
                assert(kept@.last() == all[j as int]);
            }
            assert forall|k: Seq<char>|
                #[trigger] verdict_on(kept@, k) == if k == name@ {
                    None
                } else {
                    verdict_on(all.take(j + 1), k)
                } by {
                assert(verdict_on(before, k) == if k == name@ {
                    None
                } else {
                    verdict_on(all.take(j as int), k)
                });
            }
            j = j + 1;
        }
        self.verdicts = kept;
        assert(all.take(total as int) =~= all);
    }

    /// Keeps a verdict on `name`.
    pub fn remember(&mut self, name: &str, verdict: CompatVerdict)
        ensures
            forall|k: Seq<char>|
                #[trigger] final(self).on(k) == if k == name@ {
                    Some(refusal(verdict))
                } else {
                    old(self).on(k)
                },
    {
        self.forget(name);
        let ghost emptied = *self;
        let ghost before = self.verdicts@;
        self.verdicts.push((name.to_owned(), verdict));
        assert(self.verdicts@.drop_last() =~= before);
        assert(self.verdicts@.last() == (self.verdicts@.last().0, verdict));
        assert forall|k: Seq<char>|
            #[trigger] self.on(k) == if k == name@ {
                Some(refusal(verdict))
            } else {
                old(self).on(k)
            } by {
            assert(emptied.on(k) == if k == name@ {
                None
            } else {
                old(self).on(k)
            });
        }
    }
}

/// What has to happen before an endpoint is called.
pub enum Admission {
    Proceed,
    Refuse(HandlerError),
    /// Ask the endpoint with this call, and judge what it answers.
    Probe(Action),
}

pub enum Admitted {
    Proceed,
    Refuse(Fault),
    Probe(Offer),
}

pub open spec fn admitted(a: Admission) -> Admitted {
    match a {
        Admission::Proceed => Admitted::Proceed,
        Admission::Refuse(e) => Admitted::Refuse(e@),
        Admission::Probe(action) => Admitted::Probe(action@),
    }
}

/// The call that asks an endpoint what it is.
pub open spec fn probe_offer(probe: Fields) -> Offer {
    Offer {
        request: as_text(get(probe, "request"@)),
        method: as_text(get(probe, "method"@)),
        select: Seq::empty(),
        description: None,
        params_schema: None,
    }
}

/// What has to happen before a call, by the rule and the verdict so far.
pub open spec fn admission_of(rule: Option<Fields>, known: Option<Option<Fault>>) -> Admitted {
    match rule {
        None => Admitted::Proceed,
        Some(rule) => if rule.len() == 0 {
            Admitted::Proceed
        } else {
            match known {
                Some(None) => Admitted::Proceed,
                Some(Some(f)) => Admitted::Refuse(f),
                None => if as_fields(get(rule, "probe"@)) is None {
                    Admitted::Refuse(fault("compatibility_unknown"@, "compatibility probe is malformed"@))
                } else if as_text(get(rule, "extract"@)) is None {
                    Admitted::Refuse(fault("compatibility_unknown"@, "compatibility extract is missing"@))
                } else if as_fields(get(rule, "accept"@)) is None {
                    Admitted::Refuse(fault("compatibility_unknown"@, "compatibility accept is missing"@))
                } else {
                    Admitted::Probe(probe_offer(as_fields(get(rule, "probe"@))->0))
                },
            }
        },
    }
}

fn owned(s: Option<&str>) -> (r: Option<String>)
    ensures
        opt_view(r) == match s {
            Some(t) => Some(t@),
            None => None,
        },
{
    match s {
        Some(t) => Some(t.to_owned()),
        None => None,
    }
}

fn known_verdict(cache: &CompatCache, name: &str) -> (r: Option<Option<HandlerError>>)
    ensures
        (match r {
            Some(Some(e)) => Some(Some(e@)),
            Some(None) => Some(None),
            None => None,
        }) == cache.on(name@),
{
    let list = &cache.verdicts;
    let mut n: usize = list.len();
    assert(list@.take(n as int) =~= list@);
    while n > 0
        invariant
            n <= list@.len(),
            list@ == cache.verdicts@,
            verdict_on(list@.take(n as int), name@) == cache.on(name@),
        decreases n,
    {
        assert(list@.take(n as int).drop_last() =~= list@.take(n - 1));
        assert(list@.take(n as int).last() == list@[n - 1]);
        if same(&list[n - 1].0, name) {
            return match &list[n - 1].1 {
                CompatVerdict::Passed => Some(None),
                CompatVerdict::Failed { code, message } => Some(Some(HandlerError::new(code, message))),
            };
        }
        n = n - 1;
    }
    None
}

/// What has to happen before `endpoint` is called.
pub fn admission(endpoint: &Endpoint, cache: &CompatCache) -> (r: Admission)
    ensures
        admitted(r) == admission_of(opt_fields(endpoint.compatibility), cache.on(endpoint.name@)),
{
    let rule = match &endpoint.compatibility {
        Some(rule) => rule,
        None => return Admission::Proceed,
    };
    assert(fields(rule@).len() == rule@.len());
    if rule.len() == 0 {
        return Admission::Proceed;
    }
    match known_verdict(cache, &endpoint.name) {
        Some(None) => return Admission::Proceed,
        Some(Some(e)) => return Admission::Refuse(e),
        None => {},
    }
    let probe = match object_field(rule, "probe") {
        Some(probe) => probe,
        None => return Admission::Refuse(
            HandlerError::new("compatibility_unknown", "compatibility probe is malformed"),
        ),
    };
    if text_field(rule, "extract").is_none() {
        return Admission::Refuse(HandlerError::new("compatibility_unknown", "compatibility extract is missing"));
    }
    if object_field(rule, "accept").is_none() {
        return Admission::Refuse(HandlerError::new("compatibility_unknown", "compatibility accept is missing"));
    }
    let action = Action {
        request: owned(text_field(probe, "request")),
        method: owned(text_field(probe, "method")),
        select: Vec::new(),
        description: None,
        params_schema: None,
    };
    assert(action@.select =~= Seq::empty());
    Admission::Probe(action)
}

/// One of the values is `found`.
pub open spec fn among(items: Seq<Tree>, found: Tree) -> bool {
    exists|i: int| 0 <= i < items.len() && alike(#[trigger] items[i], found)
}

/// Whether what an endpoint reports is accepted.
pub open spec fn accepted(accept: Fields, found: Tree) -> bool {
    match get(accept, "exact"@) {
        Some(exact) => alike(found, exact),
        None => match as_list(get(accept, "allowed"@)) {
            Some(items) => among(items, found),
            None => false,
        },
    }
}

fn is_accepted(accept: &Object, found: &Json) -> (r: bool)
    ensures
        r == accepted(fields(accept@), found@),
{
    if let Some(exact) = field(accept, "exact") {
        return equal(found, exact);
    }
    match list_field(accept, "allowed") {
        Some(items) => {
            let ghost known = trees(items@);
            let mut i: usize = 0;
            while i < items.len()
                invariant
                    i <= items@.len(),
                    known == trees(items@),
                    get(fields(accept@), "exact"@) is None,
                    as_list(get(fields(accept@), "allowed"@)) == Some(known),
                    forall|j: int| 0 <= j < i ==> !alike(#[trigger] known[j], found@),
                decreases items@.len() - i,
            {
                assert(known[i as int] == items@[i as int]@);
                if equal(&items[i], found) {
                    assert(known.len() == items@.len() && alike(known[i as int], found@));
                    assert(among(known, found@));
                    return true;
                }
                i = i + 1;
            }
            false
        },
        None => false,
    }
}

/// What an answer to the probe means: the failure where there is one, and whether
/// it is kept.
pub open spec fn judged(name: Seq<char>, path: Seq<char>, accept: Fields, answer: Result<Tree, Fault>) -> (Option<Fault>, bool) {
    match answer {
        Err(f) => if f.code == "endpoint_unreachable"@ || f.code == "timeout"@ || f.code == "run_as_not_permitted"@ {
            (Some(f), false)
        } else {
            (
                Some(
                    fault(
                        "compatibility_unknown"@,
                        ("could not read compatibility metadata "@ + debug_text(path) + " from "@ + debug_text(name)) + ": "@
                            + f.message,
                    ),
                ),
                true,
            )
        },
        Ok(response) => match extracted(response, pieces(path, '.')) {
            None => (
                Some(
                    fault(
                        "compatibility_unknown"@,
                        debug_text(name) + " did not report "@ + debug_text(path)
                            + ", so its compatibility cannot be established"@,
                    ),
                ),
                true,
            ),
            Some(found) => if accepted(accept, found) {
                (None, true)
            } else {
                (
                    Some(
                        fault(
                            "compatibility_mismatch"@,
                            (debug_text(name) + " reports "@ + path + "="@ + printed_json(carried(found)))
                                + ", which is not accepted by this profile"@,
                        ),
                    ),
                    true,
                )
            },
        },
    }
}

/// Judges what `endpoint` answered to its probe, and keeps the verdict unless the
/// endpoint could not be asked.
pub fn judge(endpoint: &Endpoint, answer: Result<Json, HandlerError>, cache: &mut CompatCache) -> (r: Result<(), HandlerError>)
    requires
        opt_fields(endpoint.compatibility) matches Some(rule) && as_text(get(rule, "extract"@)) is Some && as_fields(
            get(rule, "accept"@),
        ) is Some,
    ensures
        ({
            let rule = opt_fields(endpoint.compatibility)->0;
            let path = as_text(get(rule, "extract"@))->0;
            let (failure, kept) = judged(
                endpoint.name@,
                path,
                as_fields(get(rule, "accept"@))->0,
                value_of(answer),
            );
            &&& (match r {
                Ok(_) => None::<Fault>,
                Err(e) => Some(e@),
            }) == failure
            &&& forall|k: Seq<char>|
                #[trigger] final(cache).on(k) == if k == endpoint.name@ && kept {
                    Some(failure)
                } else {
                    old(cache).on(k)
                }
        }),
{
    let (path, accept) = match &endpoint.compatibility {
        Some(rule) => match (text_field(rule, "extract"), object_field(rule, "accept")) {
            (Some(path), Some(accept)) => (path, accept),
            _ => return Ok(()),
        },
        None => return Ok(()),
    };
    let response = match answer {
        Ok(response) => response,
        Err(e) => {
            if same(&e.code, "endpoint_unreachable") || same(&e.code, "timeout") || same(&e.code, "run_as_not_permitted") {
                return Err(e);
            }
            let head = cat4("could not read compatibility metadata ", &quoted(path), " from ", &quoted(&endpoint.name));
            let message = cat3(&head, ": ", &e.message);
            cache.remember(
                &endpoint.name,
                CompatVerdict::Failed { code: "compatibility_unknown".to_owned(), message: message.clone() },
            );
            return Err(HandlerError::new("compatibility_unknown", &message));
        },
    };
    let found = match extract(&response, path) {
        Some(found) => found,
        None => {
            let message = cat4(
                &quoted(&endpoint.name),
                " did not report ",
                &quoted(path),
                ", so its compatibility cannot be established",
            );
            cache.remember(
                &endpoint.name,
                CompatVerdict::Failed { code: "compatibility_unknown".to_owned(), message: message.clone() },
            );
            return Err(HandlerError::new("compatibility_unknown", &message));
        },
    };
    if is_accepted(accept, found) {
        cache.remember(&endpoint.name, CompatVerdict::Passed);
        return Ok(());
    }
    let head = cat5(&quoted(&endpoint.name), " reports ", path, "=", &write_json(found));
    let message = cat2(&head, ", which is not accepted by this profile");
    cache.remember(
        &endpoint.name,
        CompatVerdict::Failed { code: "compatibility_mismatch".to_owned(), message: message.clone() },
    );
    Err(HandlerError::new("compatibility_mismatch", &message))
}

/// A kept verdict decides the next call: the endpoint is not asked again.
pub proof fn kept_verdict_decides(rule: Fields, name: Seq<char>, path: Seq<char>, accept: Fields, answer: Result<Tree, Fault>)
    requires
        rule.len() > 0,
        judged(name, path, accept, answer).1,
    ensures
        admission_of(Some(rule), Some(judged(name, path, accept, answer).0)) == match judged(name, path, accept, answer).0 {
            None => Admitted::Proceed,
            Some(f) => Admitted::Refuse(f),
        },
{
}

/// An endpoint with a complete rule and no verdict is asked before it is called.
pub proof fn unknown_endpoint_is_probed(rule: Fields, protocol: Seq<char>)
    requires
        crate::endpoint::complete_rule(rule, protocol),
    ensures
        admission_of(Some(rule), None) is Probe,
{
    crate::json::lemma_position(rule, "probe"@);
}

/// An endpoint passes exactly where what it reports at the path is what the rule asks for;
/// otherwise it is a mismatch.
pub proof fn reported_values_decide(name: Seq<char>, path: Seq<char>, accept: Fields, response: Tree, found: Tree)
    requires
        extracted(response, pieces(path, '.')) == Some(found),
    ensures
        get(accept, "exact"@) matches Some(Tree::Text(wanted)) ==> (judged(name, path, accept, Ok(response)).0 is None <==> found
            == Tree::Text(wanted)),
        get(accept, "exact"@) is None ==> (get(accept, "allowed"@) matches Some(Tree::Array(items)) ==> (judged(
            name,
            path,
            accept,
            Ok(response),
        ).0 is None <==> exists|i: int| 0 <= i < items.len() && alike(#[trigger] items[i], found))),
        get(accept, "exact"@) is None && get(accept, "allowed"@) is None ==> judged(name, path, accept, Ok(response)).0 is Some,
        judged(name, path, accept, Ok(response)).0 matches Some(f) ==> f.code == "compatibility_mismatch"@,
        judged(name, path, accept, Ok(response)).1,
{
    if let Some(Tree::Text(wanted)) = get(accept, "exact"@) {
        assert(alike(found, Tree::Text(wanted)) <==> found == Tree::Text(wanted));
    }
}

/// What cannot be read does not pass; an endpoint that could not be reached is asked again.
pub proof fn unread_values_do_not_pass(name: Seq<char>, path: Seq<char>, accept: Fields, f: Fault)
    ensures
        judged(name, path, accept, Err(f)).0 is Some,
        judged(name, path, accept, Err(f)).1 <==> f.code != "endpoint_unreachable"@ && f.code != "timeout"@ && f.code
            != "run_as_not_permitted"@,
        !judged(name, path, accept, Err(f)).1 ==> judged(name, path, accept, Err(f)).0 == Some(f),
        forall|response: Tree|
            extracted(response, #[trigger] pieces(path, '.')) is None ==> (judged(name, path, accept, Ok(response)).0 matches Some(
                g,
            ) && g.code == "compatibility_unknown"@),
{
}

/// An endpoint without a rule may be called, and one that passed; one that failed may not.
pub proof fn verdicts_admit(rule: Option<Fields>, f: Fault)
    ensures
        rule is None ==> admission_of(rule, None) == Admitted::Proceed,
        admission_of(rule, Some(None)) == Admitted::Proceed,
        rule matches Some(r) && r.len() > 0 ==> admission_of(rule, Some(Some(f))) == Admitted::Refuse(f),
        rule matches Some(r) && r.len() > 0 ==> admission_of(rule, None) != Admitted::Proceed,
        admission_of(rule, None) matches Admitted::Probe(offer) ==> {
            &&& get(rule->0, "probe"@) matches Some(Tree::Object(probe))
            &&& get(probe, "request"@) matches Some(Tree::Text(t)) ==> offer.request == Some(t)
            &&& get(probe, "method"@) matches Some(Tree::Text(t)) ==> offer.method == Some(t)
        },
{
}

} // verus!
