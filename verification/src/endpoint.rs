//! Local programs that an agent may call, as its configuration describes them.

use crate::json::{
    as_fields, as_list, as_text, copy_object, fields, get, group_json_views, has_field, lemma_views_known, list_field,
    field, object_field, pick_texts, text_field, texts_among, trees, Fields, Json, Object, Tree,
};
use crate::order::{sort, sorted, sorting_keeps_the_names};
use crate::template::{placeholder_names, placeholders};
use crate::text::{is_blank, blank, opt_view, same, trim, trimmed, views};
use crate::time::{lemma_number_nanos_bounds, number_nanos, seconds_of, Duration};
use vstd::prelude::*;

verus! {

/// A call that an endpoint offers.
#[derive(Debug, PartialEq, Eq)]
pub struct Action {
    pub request: Option<String>,
    pub method: Option<String>,
    pub select: Vec<String>,
    pub description: Option<String>,
    pub params_schema: Option<Object>,
}

/// A program that answers on this machine.
#[derive(Debug, PartialEq, Eq)]
pub struct Endpoint {
    pub name: String,
    pub transport: String,
    pub protocol: String,
    pub path: String,
    pub timeout: Duration,
    pub run_as: Option<String>,
    pub actions: Vec<(String, Action)>,
    pub compatibility: Option<Object>,
}

/// What an `Action` says.
pub struct Offer {
    pub request: Option<Seq<char>>,
    pub method: Option<Seq<char>>,
    pub select: Seq<Seq<char>>,
    pub description: Option<Seq<char>>,
    pub params_schema: Option<Fields>,
}

/// What an `Endpoint` says.
pub struct Site {
    pub name: Seq<char>,
    pub transport: Seq<char>,
    pub protocol: Seq<char>,
    pub path: Seq<char>,
    pub timeout: int,
    pub run_as: Option<Seq<char>>,
    pub actions: Seq<(Seq<char>, Offer)>,
    pub compatibility: Option<Fields>,
}

pub open spec fn opt_fields(o: Option<Object>) -> Option<Fields> {
    match o {
        Some(f) => Some(fields(f@)),
        None => None,
    }
}

impl View for Action {
    type V = Offer;

    open spec fn view(&self) -> Offer {
        Offer {
            request: opt_view(self.request),
            method: opt_view(self.method),
            select: views(self.select@),
            description: opt_view(self.description),
            params_schema: opt_fields(self.params_schema),
        }
    }
}

pub open spec fn offers(actions: Seq<(String, Action)>) -> Seq<(Seq<char>, Offer)> {
    Seq::new(actions.len(), |i: int| (actions[i].0@, actions[i].1@))
}

impl View for Endpoint {
    type V = Site;

    open spec fn view(&self) -> Site {
        Site {
            name: self.name@,
            transport: self.transport@,
            protocol: self.protocol@,
            path: self.path@,
            timeout: self.timeout.nanos as int,
            run_as: opt_view(self.run_as),
            actions: offers(self.actions@),
            compatibility: opt_fields(self.compatibility),
        }
    }
}

fn owned(s: Option<&str>) -> (r: Option<String>)
    ensures
        opt_view(r) == match s {
            Some(t) => Some(t@),
            None => None,
        },
{
    match s {
        Some(t) => Some(t.to_owned()),
        None => None,
    }
}

/// A text that is there and not blank.
pub open spec fn filled_text(o: Fields, key: Seq<char>) -> bool {
    as_text(get(o, key)) matches Some(s) && !blank(s)
}

fn has_text(o: &Object, key: &str) -> (r: bool)
    ensures
        r == filled_text(fields(o@), key@),
{
    match text_field(o, key) {
        Some(s) => !is_blank(s),
        None => false,
    }
}

/// The key of a call under a protocol.
pub open spec fn call_key(protocol: Seq<char>) -> Seq<char> {
    if protocol == "http"@ {
        "request"@
    } else {
        "method"@
    }
}

pub open spec fn known_protocol(protocol: Seq<char>) -> bool {
    protocol == "http"@ || protocol == "jsonrpc"@
}

/// Whether a rule of compatibility is complete: it says what to ask, what to read
/// of the answer, and what to accept.
pub open spec fn complete_rule(rule: Fields, protocol: Seq<char>) -> bool {
    &&& known_protocol(protocol)
    &&& as_fields(get(rule, "probe"@)) matches Some(probe) && filled_text(probe, call_key(protocol))
    &&& filled_text(rule, "extract"@)
    &&& as_fields(get(rule, "accept"@)) matches Some(accept) && (get(accept, "exact"@) is Some || (as_list(
        get(accept, "allowed"@),
    ) matches Some(items) && items.len() > 0))
}

/// The rule of compatibility, where there is a complete one.
pub open spec fn rule_of(value: Option<Tree>, protocol: Seq<char>) -> Option<Fields> {
    match as_fields(value) {
        Some(rule) => if complete_rule(rule, protocol) {
            Some(rule)
        } else {
            None
        },
        None => None,
    }
}

fn accepts_something(accept: &Object) -> (r: bool)
    ensures
        r == (get(fields(accept@), "exact"@) is Some || (as_list(get(fields(accept@), "allowed"@)) matches Some(items)
            && items.len() > 0)),
{
    if has_field(accept, "exact") {
        return true;
    }
    match list_field(accept, "allowed") {
        Some(items) => {
            assert(trees(items@).len() == items@.len());
            items.len() > 0
        },
        None => false,
    }
}

/// The rule of compatibility under `compatibility`; one that lacks a part is
/// dropped.
pub fn valid_compatibility(map: &Object, protocol: &str) -> (r: Option<Object>)
    ensures
        opt_fields(r) == rule_of(get(fields(map@), "compatibility"@), protocol@),
{
    let rule = match object_field(map, "compatibility") {
        Some(rule) => rule,
        None => return None,
    };
    let key = if same(protocol, "http") {
        "request"
    } else if same(protocol, "jsonrpc") {
        "method"
    } else {
        return None;
    };
    let probe = match object_field(rule, "probe") {
        Some(probe) => probe,
        None => return None,
    };
    let accept = match object_field(rule, "accept") {
        Some(accept) => accept,
        None => return None,
    };
    if has_text(probe, key) && has_text(rule, "extract") && accepts_something(accept) {
        Some(copy_object(rule))
    } else {
        None
    }
}

/// A call as its configuration describes it.
pub open spec fn offer_of(raw: Fields) -> Offer {
    Offer {
        request: as_text(get(raw, "request"@)),
        method: as_text(get(raw, "method"@)),
        select: match as_list(get(raw, "select"@)) {
            Some(items) => texts_among(items),
            None => Seq::empty(),
        },
        description: as_text(get(raw, "description"@)),
        params_schema: as_fields(get(raw, "params"@)),
    }
}

fn action_from_raw(raw: &Object) -> (r: Action)
    ensures
        r@ == offer_of(fields(raw@)),
{
    let select = match list_field(raw, "select") {
        Some(items) => pick_texts(items),
        None => Vec::new(),
    };
    let params_schema = match object_field(raw, "params") {
        Some(o) => Some(copy_object(o)),
        None => None,
    };
    let r = Action {
        request: owned(text_field(raw, "request")),
        method: owned(text_field(raw, "method")),
        select,
        description: owned(text_field(raw, "description")),
        params_schema,
    };
    assert(r@.select =~= offer_of(fields(raw@)).select);
    r
}

/// The first `n` calls that can be made under a protocol; nothing where one of
/// them is no object.
pub open spec fn offers_of(raw: Fields, protocol: Seq<char>, n: int) -> Option<Seq<(Seq<char>, Offer)>>
    decreases n,
{
    if n <= 0 || n > raw.len() {
        Some(Seq::empty())
    } else {
        match offers_of(raw, protocol, n - 1) {
            None => None,
            Some(list) => match raw[n - 1].1 {
                Tree::Object(o) => {
                    let offer = offer_of(o);
                    if (protocol == "http"@ && offer.request is None) || (protocol == "jsonrpc"@ && offer.method is None) {
                        Some(list)
                    } else {
                        Some(list.push((raw[n - 1].0, offer)))
                    }
                },
                _ => None,
            },
        }
    }
}

fn actions_from_raw(raw: &Object, protocol: &str) -> (r: Option<Vec<(String, Action)>>)
    ensures
        match r {
            Some(list) => offers_of(fields(raw@), protocol@, raw@.len() as int) == Some(offers(list@)),
            None => offers_of(fields(raw@), protocol@, raw@.len() as int) is None,
        },
{
    let ghost all = fields(raw@);
    let mut list: Vec<(String, Action)> = Vec::new();
    let mut i: usize = 0;
    assert(offers(list@) =~= Seq::empty());
    while i < raw.len()
        invariant
            i <= raw@.len(),
            all == fields(raw@),
            offers_of(all, protocol@, i as int) == Some(offers(list@)),
        decreases raw@.len() - i,
    {
        proof {
            lemma_views_known(raw@[i as int].1);
        }
        assert(all[i as int] == (raw@[i as int].0@, raw@[i as int].1@));
        let entry = match &raw[i].1 {
            Json::Object(o) => o,
            _ => {
                proof {
                    lemma_none_stays(all, protocol@, i + 1, raw@.len() as int);
                }
                return None;
            },
        };
        let action = action_from_raw(entry);
        let skip = (same(protocol, "http") && action.request.is_none()) || (same(protocol, "jsonrpc")
            && action.method.is_none());
        if !skip {
            let ghost before = offers(list@);
            let ghost offer = action@;
            list.push((raw[i].0.clone(), action));
            assert(offers(list@) =~= before.push((all[i as int].0, offer)));
        }
        i = i + 1;
    }
    Some(list)
}

proof fn lemma_none_stays(raw: Fields, protocol: Seq<char>, k: int, n: int)
    requires
        0 <= k <= n <= raw.len(),
        offers_of(raw, protocol, k) is None,
    ensures
        offers_of(raw, protocol, n) is None,
    decreases n,
{
    if k < n {
        lemma_none_stays(raw, protocol, k, n - 1);
    }
}

/// An endpoint as its configuration describes it, where it can be used at all.
pub open spec fn site_of(name: Seq<char>, raw: Option<Tree>) -> Option<Site> {
    match as_fields(raw) {
        None => None,
        Some(map) => match (
            as_text(get(map, "transport"@)),
            as_text(get(map, "protocol"@)),
            as_text(get(map, "path"@)),
            as_fields(get(map, "actions"@)),
        ) {
            (Some(transport), Some(protocol), Some(path), Some(raw_actions)) => {
                let protocol = trimmed(protocol);
                let actions = offers_of(raw_actions, protocol, raw_actions.len() as int);
                if (trimmed(transport) == "unix"@ || trimmed(transport) == "stdio"@) && known_protocol(protocol) && trimmed(
                    path,
                ).len() > 0 && (actions matches Some(list) && list.len() > 0) {
                    Some(
                        Site {
                            name,
                            transport: trimmed(transport),
                            protocol,
                            path: trimmed(path),
                            timeout: number_nanos(
                                get(map, "timeout_s"@),
                                30_000_000_000,
                                100_000_000,
                                300_000_000_000,
                            ),
                            run_as: as_text(get(map, "run_as"@)),
                            actions: actions->0,
                            compatibility: rule_of(get(map, "compatibility"@), protocol),
                        },
                    )
                } else {
                    None
                }
            },
            _ => None,
        },
    }
}

/// An endpoint from its configuration; nothing where it cannot be used.
pub fn endpoint_from_raw(name: &str, raw: Option<&Json>) -> (r: Option<Endpoint>)
    ensures
        (match r {
            Some(e) => Some(e@),
            None => None,
        }) == site_of(
            name@,
            match raw {
                Some(v) => Some(v@),
                None => None,
            },
        ),
{
    broadcast use group_json_views;

    let map = match raw {
        Some(Json::Object(map)) => map,
        _ => return None,
    };
    let transport = match text_field(map, "transport") {
        Some(s) => trim(s),
        None => return None,
    };
    let protocol = match text_field(map, "protocol") {
        Some(s) => trim(s),
        None => return None,
    };
    let path = match text_field(map, "path") {
        Some(s) => trim(s),
        None => return None,
    };
    let raw_actions = match object_field(map, "actions") {
        Some(o) => o,
        None => return None,
    };
    if !(same(&transport, "unix") || same(&transport, "stdio")) || !(same(&protocol, "http") || same(&protocol, "jsonrpc"))
        || path.as_str().is_empty() {
        return None;
    }
    assert(fields(raw_actions@).len() == raw_actions@.len());
    let actions = match actions_from_raw(raw_actions, &protocol) {
        Some(list) => list,
        None => return None,
    };
    assert(offers(actions@).len() == actions@.len());
    if actions.len() == 0 {
        return None;
    }
    let timeout = seconds_of(field(map, "timeout_s"), 30_000_000_000, 100_000_000, 300_000_000_000);
    let compatibility = valid_compatibility(map, &protocol);
    let run_as = owned(text_field(map, "run_as"));
    Some(Endpoint { name: name.to_owned(), transport, protocol, path, timeout, run_as, actions, compatibility })
}

/// The endpoints among the first `n` pieces of configuration that can be used.
pub open spec fn sites_of(named: Seq<(String, Option<Json>)>, n: int) -> Seq<Site>
    decreases n,
{
    if n <= 0 || n > named.len() {
        Seq::empty()
    } else {
        let rest = sites_of(named, n - 1);
        match site_of(
            named[n - 1].0@,
            match named[n - 1].1 {
                Some(v) => Some(v@),
                None => None,
            },
        ) {
            Some(site) => rest.push(site),
            None => rest,
        }
    }
}

pub open spec fn sites(endpoints: Seq<Endpoint>) -> Seq<Site> {
    Seq::new(endpoints.len(), |i: int| endpoints[i]@)
}

/// The endpoints that can be used.
pub fn endpoints(named: &Vec<(String, Option<Json>)>) -> (r: Vec<Endpoint>)
    ensures
        sites(r@) == sites_of(named@, named@.len() as int),
{
    let mut out: Vec<Endpoint> = Vec::new();
    let mut i: usize = 0;
    assert(sites(out@) =~= Seq::empty());
    while i < named.len()
        invariant
            i <= named@.len(),
            sites(out@) == sites_of(named@, i as int),
        decreases named@.len() - i,
    {
        let raw = match &named[i].1 {
            Some(v) => Some(v),
            None => None,
        };
        let ghost before = sites(out@);
        if let Some(e) = endpoint_from_raw(&named[i].0, raw) {
            let ghost site = e@;
            out.push(e);
            assert(sites(out@) =~= before.push(site));
        }
        i = i + 1;
    }
    out
}

/// Names of fields.
pub open spec fn keys_of(o: Fields) -> Seq<Seq<char>> {
    Seq::new(o.len(), |i: int| o[i].0)
}

/// The names among `names` that `keep` holds, or does not.
pub open spec fn chosen(names: Seq<Seq<char>>, keep: Seq<Seq<char>>, held: bool) -> Seq<Seq<char>>
    decreases names.len(),
{
    if names.len() == 0 {
        Seq::empty()
    } else {
        let rest = chosen(names.drop_last(), keep, held);
        if keep.contains(names.last()) == held {
            rest.push(names.last())
        } else {
            rest
        }
    }
}

/// The names of a call's parameters: those of its schema, the required ones first,
/// the others in ascending order; without a schema, those in its request.
pub open spec fn params_of(offer: Offer) -> Seq<Seq<char>> {
    match offer.params_schema {
        Some(schema) if as_fields(get(schema, "properties"@)) is Some => {
            let names = keys_of(as_fields(get(schema, "properties"@))->0);
            let required = match as_list(get(schema, "required"@)) {
                Some(items) => chosen(texts_among(items), names, true),
                None => Seq::empty(),
            };
            required + sorted(chosen(names, required, false))
        },
        _ => match offer.request {
            Some(request) => sorted(placeholders(request, 0, Seq::empty())),
            None => Seq::empty(),
        },
    }
}

fn names_in(o: &Object) -> (r: Vec<String>)
    ensures
        views(r@) == keys_of(fields(o@)),
{
    let mut names: Vec<String> = Vec::new();
    let mut i: usize = 0;
    while i < o.len()
        invariant
            i <= o@.len(),
            names@.len() == i,
            forall|j: int| 0 <= j < i ==> (#[trigger] names@[j])@ == o@[j].0@,
        decreases o@.len() - i,
    {
        names.push(o[i].0.clone());
        i = i + 1;
    }
    assert(views(names@) =~= keys_of(fields(o@)));
    names
}

fn choose_names(names: &Vec<String>, keep: &Vec<String>, held: bool) -> (r: Vec<String>)
    ensures
        views(r@) == chosen(views(names@), views(keep@), held),
{
    let ghost all = views(names@);
    let mut out: Vec<String> = Vec::new();
    let mut i: usize = 0;
    assert(views(out@) =~= chosen(all.take(0), views(keep@), held));
    while i < names.len()
        invariant
            i <= names@.len(),
            all == views(names@),
            views(out@) == chosen(all.take(i as int), views(keep@), held),
        decreases names@.len() - i,
    {
        assert(all.take(i + 1).drop_last() =~= all.take(i as int));
        assert(all.take(i + 1).last() == names@[i as int]@);
        let ghost before = views(out@);
        if crate::order::has(keep, &names[i]) == held {
            out.push(names[i].clone());
            assert(views(out@) =~= before.push(all[i as int]));
        }
        i = i + 1;
    }
    assert(all.take(i as int) =~= all);
    out
}

/// The names of an action's parameters.
pub fn param_names(action: &Action) -> (r: Vec<String>)
    ensures
        views(r@) == params_of(action@),
{
    if let Some(schema) = &action.params_schema {
        if let Some(properties) = object_field(schema, "properties") {
            let names = names_in(properties);
            let mut required: Vec<String> = match list_field(schema, "required") {
                Some(items) => choose_names(&pick_texts(items), &names, true),
                None => Vec::new(),
            };
            let ghost first = views(required@);
            assert(as_list(get(fields(schema@), "required"@)) is None ==> first =~= Seq::empty());
            let mut rest = sort(choose_names(&names, &required, false));
            let ghost second = views(rest@);
            required.append(&mut rest);
            assert(views(required@) =~= first + second);
            return required;
        }
    }
    match &action.request {
        Some(request) => placeholder_names(request),
        None => {
            let none: Vec<String> = Vec::new();
            assert(views(none@) =~= Seq::empty());
            none
        },
    }
}

/// An endpoint is what the configuration says of it, and answers within bounds.
pub proof fn endpoints_are_as_configured(name: Seq<char>, map: Fields)
    ensures
        site_of(name, Some(Tree::Object(map))) matches Some(site) ==> {
            &&& site.name == name
            &&& get(map, "transport"@) matches Some(Tree::Text(t)) && trimmed(t) == site.transport
            &&& get(map, "protocol"@) matches Some(Tree::Text(t)) && trimmed(t) == site.protocol
            &&& get(map, "path"@) matches Some(Tree::Text(t)) && trimmed(t) == site.path
            &&& site.transport == "unix"@ || site.transport == "stdio"@
            &&& site.protocol == "http"@ || site.protocol == "jsonrpc"@
            &&& site.path.len() > 0
            &&& site.actions.len() > 0
            &&& get(map, "run_as"@) matches Some(Tree::Text(user)) ==> site.run_as == Some(user)
            &&& get(map, "run_as"@) is None ==> site.run_as is None
            &&& 100_000_000 <= site.timeout <= 300_000_000_000
        },
        get(map, "path"@) is None || get(map, "actions"@) is None || get(map, "protocol"@) is None || get(map, "transport"@) is None
            ==> site_of(name, Some(Tree::Object(map))) is None,
        site_of(name, None) is None,
{
    lemma_number_nanos_bounds(get(map, "timeout_s"@), 30_000_000_000, 100_000_000, 300_000_000_000);
}

/// An action is what the configuration says of it; one that says not how it is called is
/// left out.
pub proof fn actions_are_as_configured(raw: Fields, protocol: Seq<char>, n: int, name: Seq<char>, offer: Offer)
    requires
        offers_of(raw, protocol, n) matches Some(list) && list.contains((name, offer)),
    ensures
        exists|i: int|
            0 <= i < n && i < raw.len() && (#[trigger] raw[i]).0 == name && (raw[i].1 matches Tree::Object(o) && {
                &&& get(o, "request"@) matches Some(Tree::Text(t)) ==> offer.request == Some(t)
                &&& get(o, "request"@) is None ==> offer.request is None
                &&& get(o, "method"@) matches Some(Tree::Text(t)) ==> offer.method == Some(t)
                &&& get(o, "method"@) is None ==> offer.method is None
                &&& get(o, "description"@) matches Some(Tree::Text(t)) ==> offer.description == Some(t)
                &&& get(o, "params"@) matches Some(Tree::Object(p)) ==> offer.params_schema == Some(p)
                &&& get(o, "select"@) is None ==> offer.select.len() == 0
            }),
        protocol == "http"@ ==> offer.request is Some,
        protocol == "jsonrpc"@ ==> offer.method is Some,
    decreases n,
{
    reveal_strlit("http");
    reveal_strlit("jsonrpc");
    assert("http"@.len() != "jsonrpc"@.len());
    if n <= 0 || n > raw.len() {
    } else {
        let list = offers_of(raw, protocol, n)->0;
        let front = offers_of(raw, protocol, n - 1)->0;
        let k = choose|k: int| 0 <= k < list.len() && list[k] == (name, offer);
        if k < front.len() {
            assert(front[k] == (name, offer));
            assert(front.contains((name, offer)));
            actions_are_as_configured(raw, protocol, n - 1, name, offer);
        } else {
            assert(raw[n - 1].0 == name);
        }
    }
}

/// The parameters of an action are the properties of its schema, those that are required
/// first.
pub proof fn parameters_are_told(offer: Offer, schema: Fields, properties: Fields, name: Seq<char>)
    requires
        offer.params_schema == Some(schema),
        get(schema, "properties"@) == Some(Tree::Object(properties)),
    ensures
        params_of(offer).contains(name) ==> keys_of(properties).contains(name),
        get(schema, "required"@) is None ==> params_of(offer) == sorted(keys_of(properties)),
{
    let names = keys_of(properties);
    let required = match as_list(get(schema, "required"@)) {
        Some(items) => chosen(texts_among(items), names, true),
        None => Seq::empty(),
    };
    let others = chosen(names, required, false);
    if params_of(offer).contains(name) {
        let i = choose|i: int| 0 <= i < params_of(offer).len() && params_of(offer)[i] == name;
        if i < required.len() {
            let items = as_list(get(schema, "required"@))->0;
            assert(required[i] == name);
            chosen_names(texts_among(items), names, true, name);
        } else {
            assert(sorted(others)[i - required.len()] == name);
            sorting_keeps_the_names(others, name);
            chosen_names(names, required, false, name);
        }
    }
    if get(schema, "required"@) is None {
        lemma_all_chosen(names, required);
        assert(required + sorted(names) =~= sorted(names));
    }
}

/// Of names those are chosen that are among the kept ones, or those that are not.
pub proof fn chosen_names(names: Seq<Seq<char>>, keep: Seq<Seq<char>>, held: bool, name: Seq<char>)
    ensures
        chosen(names, keep, held).contains(name) <==> names.contains(name) && keep.contains(name) == held,
    decreases names.len(),
{
    if names.len() > 0 {
        let front = names.drop_last();
        chosen_names(front, keep, held, name);
        let all = chosen(names, keep, held);
        let some = chosen(front, keep, held);
        if all.contains(name) {
            let i = choose|i: int| 0 <= i < all.len() && all[i] == name;
            if i < some.len() {
                assert(some[i] == name);
                let j = choose|j: int| 0 <= j < front.len() && front[j] == name;
                assert(names[j] == name);
            } else {
                assert(names[names.len() - 1] == name);
            }
        }
        if names.contains(name) && keep.contains(name) == held {
            let j = choose|j: int| 0 <= j < names.len() && names[j] == name;
            if j < front.len() {
                assert(front[j] == name);
                let i = choose|i: int| 0 <= i < some.len() && some[i] == name;
                assert(all[i] == name);
            } else {
                assert(all[all.len() - 1] == name);
            }
        }
    }
}

proof fn lemma_all_chosen(names: Seq<Seq<char>>, none: Seq<Seq<char>>)
    requires
        none.len() == 0,
    ensures
        chosen(names, none, false) == names,
    decreases names.len(),
{
    if names.len() > 0 {
        lemma_all_chosen(names.drop_last(), none);
        assert(names.drop_last().push(names.last()) =~= names);
    }
}

/// A rule on what an endpoint must report is used only where it is complete.
pub proof fn incomplete_rules_are_dropped(rule: Fields, protocol: Seq<char>)
    ensures
        rule_of(Some(Tree::Object(rule)), protocol) matches Some(r) ==> r == rule && get(rule, "probe"@) is Some && get(
            rule,
            "extract"@,
        ) is Some && (get(rule, "accept"@) matches Some(Tree::Object(accept)) && (get(accept, "exact"@) is Some || get(
            accept,
            "allowed"@,
        ) is Some)),
        rule_of(None, protocol) is None,
        protocol != "http"@ && protocol != "jsonrpc"@ ==> rule_of(Some(Tree::Object(rule)), protocol) is None,
{
}

/// The endpoints are those of the configuration that can be used, in its order.
pub proof fn usable_endpoints_are_kept(named: Seq<(String, Option<Json>)>, n: int)
    requires
        0 < n <= named.len(),
    ensures
        match named[n - 1].1 {
            Some(v) => match site_of(named[n - 1].0@, Some(v@)) {
                Some(site) => sites_of(named, n) == sites_of(named, n - 1).push(site),
                None => sites_of(named, n) == sites_of(named, n - 1),
            },
            None => sites_of(named, n) == sites_of(named, n - 1),
        },
{
}

} // verus!
