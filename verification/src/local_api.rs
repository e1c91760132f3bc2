//! Calls of local programs: what may be called, what is sent, what an answer
//! gives, and whether the program is the one that its configuration expects.

use crate::agent::random_number;
use crate::compatibility::CompatCache;
use crate::ascii::{clipped, lowered, take_chars, to_lower, to_upper, uppered};
use crate::digits::{padded, padded_text, signed_decimal, signed_text};
use crate::endpoint::{endpoints, offers, param_names, params_of, sites, sites_of, Action, Endpoint, Offer, Site};
use crate::handler_error::{fault, outcome, Fault, HandlerError, HandlerResult};
use crate::http_reply::MAX_RESPONSE_BYTES;
use crate::json::{
    as_text, copy, copy_object, count, field, fields, get, group_json_views, lemma_array_view, lemma_get_put,
    lemma_object_view, lemma_views_known, no_fields, no_object, optional, set_field, string, strings, text_field,
    text_list, text_or_null, trees, Entries, Fields, Json, Num, Object, Tree,
};
use crate::order::{join, joined};
use crate::policy::Policy;
use crate::template::{render, rendered};
use crate::text::{
    cat2, cat3, cat4, cat5, contained, contains, debug_text, from_utf8_lossy, lemma_first_index, lemma_first_index_is,
    lemma_first_match, lemma_pieces_joined, lossy_text, once, pieces, quoted, same, split, split_once, trim, trimmed,
    views, white,
};
use crate::time::{seconds_number, seconds_number_text};
use crate::wire::{carried, parsed_json, printed_json, read_json, write_json};
use vstd::prelude::*;

verus! {

/// Texts in quotes.
pub open spec fn quoted_texts(names: Seq<Seq<char>>) -> Seq<Seq<char>> {
    Seq::new(names.len(), |i: int| debug_text(names[i]))
}

/// A list of texts in quotes, in brackets.
pub open spec fn quoted_list(names: Seq<Seq<char>>) -> Seq<char> {
    "["@ + joined(quoted_texts(names), ", "@) + "]"@
}

pub fn quote_list(names: &Vec<String>) -> (r: String)
    ensures
        r@ == quoted_list(views(names@)),
{
    let mut out: Vec<String> = Vec::new();
    let mut i: usize = 0;
    while i < names.len()
        invariant
            i <= names@.len(),
            out@.len() == i,
            forall|j: int| 0 <= j < i ==> (#[trigger] out@[j])@ == debug_text(names@[j]@),
        decreases names@.len() - i,
    {
        out.push(quoted(&names[i]));
        i = i + 1;
    }
    assert(views(out@) =~= quoted_texts(views(names@)));
    cat3("[", &join(&out, ", "), "]")
}

/// Whether an endpoint is there that this agent can reach.
pub fn has_usable_endpoints(policy: &Policy) -> (r: bool)
    ensures
        r == exists|i: int|
            0 <= i < sites_of(policy.local_apis@, policy.local_apis@.len() as int).len() && (#[trigger] sites_of(
                policy.local_apis@,
                policy.local_apis@.len() as int,
            )[i]).transport == "unix"@,
{
    let all = endpoints(&policy.local_apis);
    let ghost known = sites_of(policy.local_apis@, policy.local_apis@.len() as int);
    let mut i: usize = 0;
    while i < all.len()
        invariant
            i <= all@.len(),
            known == sites(all@),
            known == sites_of(policy.local_apis@, policy.local_apis@.len() as int),
            forall|j: int| 0 <= j < i ==> (#[trigger] known[j]).transport != "unix"@,
        decreases all@.len() - i,
    {
        assert(known[i as int] == all@[i as int]@);
        if same(&all[i].transport, "unix") {
            return true;
        }
        i = i + 1;
    }
    false
}

/// What stands at a dotted path.
pub open spec fn extracted(t: Tree, parts: Seq<Seq<char>>) -> Option<Tree>
    decreases parts.len(),
{
    if parts.len() == 0 {
        Some(t)
    } else {
        match t {
            Tree::Object(o) => match get(o, parts[0]) {
                Some(next) => extracted(next, parts.drop_first()),
                None => None,
            },
            _ => None,
        }
    }
}

/// What stands at the dotted `path` in `data`.
pub fn extract<'a>(data: &'a Json, path: &str) -> (r: Option<&'a Json>)
    ensures
        (match r {
            Some(v) => Some(v@),
            None => None,
        }) == extracted(data@, pieces(path@, '.')),
{
    let parts = split(path, '.');
    let ghost names = pieces(path@, '.');
    let mut current = data;
    let mut i: usize = 0;
    assert(names.skip(0) =~= names);
    while i < parts.len()
        invariant
            i <= parts@.len(),
            names == views(parts@),
            names == pieces(path@, '.'),
            extracted(current@, names.skip(i as int)) == extracted(data@, names),
        decreases parts@.len() - i,
    {
        proof {
            lemma_views_known(*current);
        }
        assert(names.skip(i as int)[0] == parts@[i as int]@);
        assert(names.skip(i as int).drop_first() =~= names.skip(i + 1));
        match current {
            Json::Object(o) => match field(o, &parts[i]) {
                Some(next) => {
                    current = next;
                },
                None => return None,
            },
            _ => return None,
        }
        i = i + 1;
    }
    assert(names.skip(i as int).len() == 0);
    Some(current)
}

/// The fields of `o` at the first `n` dotted paths that have a value, each under
/// its path.
pub open spec fn picked(o: Fields, select: Seq<Seq<char>>, n: int) -> Fields
    decreases n,
{
    if n <= 0 || n > select.len() {
        no_fields()
    } else {
        let rest = picked(o, select, n - 1);
        match extracted(Tree::Object(o), pieces(select[n - 1], '.')) {
            Some(v) if v != Tree::Null => rest.with(select[n - 1], v),
            _ => rest,
        }
    }
}

/// A value cut down to the selected paths, in each of its items where it is a
/// list.
pub open spec fn projected(t: Tree, select: Seq<Seq<char>>) -> Tree
    decreases t,
{
    if select.len() == 0 {
        t
    } else {
        match t {
            Tree::Array(items) => Tree::Array(
                Seq::new(
                    items.len(),
                    |i: int|
                        if 0 <= i < items.len() {
                            projected(items[i], select)
                        } else {
                            Tree::Null
                        },
                ),
            ),
            Tree::Object(o) => Tree::Object(picked(o, select, select.len() as int)),
            other => other,
        }
    }
}

/// `data` cut down to the selected paths.
pub fn project(data: Json, select: &Vec<String>) -> (r: Json)
    ensures
        r@ == projected(data@, views(select@)),
    decreases data,
{
    broadcast use group_json_views;

    if select.len() == 0 {
        return data;
    }
    match data {
        Json::Array(items) => {
            let mut rest = items;
            let total = rest.len();
            let mut out: Vec<Json> = Vec::new();
            let mut i: usize = 0;
            while i < total
                invariant
                    i <= total,
                    total == items@.len(),
                    data == Json::Array(items),
                    rest@.len() == total,
                    out@.len() == i,
                    forall|j: int| i <= j < total ==> rest@[j] == items@[j],
                    forall|j: int| 0 <= j < i ==> (#[trigger] out@[j])@ == projected(items@[j]@, views(select@)),
                decreases total - i,
            {
                let mut item = Json::Null;
                std::mem::swap(&mut rest[i], &mut item);
                assert(item == items@[i as int]);
                assert(decreases_to!(data => data->Array_0));
                assert(decreases_to!(data->Array_0 => data->Array_0@));
                assert(decreases_to!(data->Array_0@ => data->Array_0@[i as int]));
                out.push(project(item, select));
                i = i + 1;
            }
            proof {
                lemma_array_view(items);
                lemma_array_view(out);
                assert(projected(data@, views(select@))->Array_0 =~= trees(out@));
            }
            Json::Array(out)
        },
        Json::Object(o) => {
            let whole = Json::Object(o);
            let ghost known = whole@->Object_0;
            let ghost paths = views(select@);
            let mut out = no_object();
            let mut i: usize = 0;
            while i < select.len()
                invariant
                    i <= select@.len(),
                    paths == views(select@),
                    whole@ == Tree::Object(known),
                    fields(out@) == picked(known, paths, i as int),
                decreases select@.len() - i,
            {
                assert(paths[i as int] == select@[i as int]@);
                match extract(&whole, &select[i]) {
                    Some(v) => {
                        proof {
                            lemma_views_known(*v);
                        }
                        match v {
                            Json::Null => {},
                            _ => set_field(&mut out, &select[i], copy(v)),
                        }
                    },
                    None => {},
                }
                i = i + 1;
            }
            Json::Object(out)
        },
        other => other,
    }
}

/// What is sent to an HTTP endpoint.
pub open spec fn http_wire(offer: Offer, params: Fields) -> Result<Seq<char>, Fault> {
    let request = match offer.request {
        Some(r) => trimmed(r),
        None => trimmed(""@),
    };
    match once(request, ' ') {
        None => Err(fault("bad_action"@, "request must look like 'GET /path', got "@ + debug_text(request))),
        Some((method, target)) => match rendered(trimmed(target), params) {
            Err(f) => Err(f),
            Ok(target) => Ok(
                uppered(method) + " "@ + target
                    + " HTTP/1.1\r\nHost: localhost\r\nAccept: application/json\r\nConnection: close\r\n\r\n"@,
            ),
        },
    }
}

/// The request for an HTTP endpoint.
pub fn http_request(action: &Action, params: &Object) -> (r: Result<String, HandlerError>)
    ensures
        match r {
            Ok(s) => http_wire(action@, fields(params@)) == Ok::<Seq<char>, Fault>(s@),
            Err(e) => http_wire(action@, fields(params@)) == Err::<Seq<char>, Fault>(e@),
        },
{
    let request = match &action.request {
        Some(r) => trim(r),
        None => trim(""),
    };
    let (method, target) = match split_once(&request, ' ') {
        Some(pair) => pair,
        None => return Err(
            HandlerError::new(
                "bad_action",
                &cat2("request must look like 'GET /path', got ", &quoted(&request)),
            ),
        ),
    };
    let target = match render(&trim(&target), params) {
        Ok(s) => s,
        Err(e) => return Err(e),
    };
    Ok(
        cat4(
            &to_upper(&method),
            " ",
            &target,
            " HTTP/1.1\r\nHost: localhost\r\nAccept: application/json\r\nConnection: close\r\n\r\n",
        ),
    )
}

/// A JSON-RPC call with a random number in its identifier.
pub open spec fn jsonrpc_call(offer: Offer, params: Fields, random: u32) -> Tree {
    Tree::Object(
        no_fields().with("jsonrpc"@, Tree::Text("2.0"@)).with(
            "id"@,
            Tree::Text("sentinel-local-api-"@ + padded(random as nat, 16, 8)),
        ).with("method"@, text_or_null(offer.method)).with("params"@, Tree::Object(params)),
    )
}

/// The line for a JSON-RPC endpoint.
pub fn jsonrpc_request(action: &Action, params: &Object, random: u32) -> (r: String)
    ensures
        r@ == printed_json(carried(jsonrpc_call(action@, fields(params@), random))) + "\n"@,
{
    broadcast use group_json_views;

    let method = match &action.method {
        Some(m) => string(m),
        None => Json::Null,
    };
    let mut o = no_object();
    set_field(&mut o, "jsonrpc", string("2.0"));
    set_field(&mut o, "id", string(&cat2("sentinel-local-api-", &padded_text(random as u64, 16, 8))));
    set_field(&mut o, "method", method);
    set_field(&mut o, "params", Json::Object(copy_object(params)));
    cat2(&write_json(&Json::Object(o)), "\n")
}

/// What to send to an endpoint for a call.
pub fn request_for(endpoint: &Endpoint, action: &Action, params: &Object) -> (r: Result<String, HandlerError>)
    ensures
        endpoint.protocol@ == "http"@ ==> match r {
            Ok(s) => http_wire(action@, fields(params@)) == Ok::<Seq<char>, Fault>(s@),
            Err(e) => http_wire(action@, fields(params@)) == Err::<Seq<char>, Fault>(e@),
        },
        endpoint.protocol@ != "http"@ ==> (r matches Ok(s) && exists|random: u32|
            s@ == #[trigger] printed_json(carried(jsonrpc_call(action@, fields(params@), random))) + "\n"@),
{
    if same(&endpoint.protocol, "http") {
        http_request(action, params)
    } else {
        let random = (random_number() % 4_294_967_296) as u32;
        Ok(jsonrpc_request(action, params, random))
    }
}

/// What the answer of a JSON-RPC endpoint gives.
pub open spec fn jsonrpc_answer(line: Seq<u8>) -> Result<Tree, Fault> {
    if line.len() > MAX_RESPONSE_BYTES {
        Err(fault("too_large"@, "endpoint response exceeded the cap"@))
    } else if line.len() == 0 {
        Err(fault("bad_response"@, "endpoint closed without answering"@))
    } else {
        match parsed_json(line) {
            Err(_) => Err(fault("bad_response"@, "endpoint did not return JSON"@)),
            Ok(t) => rpc_result(t),
        }
    }
}

/// What a JSON-RPC response gives: its error, its result, or itself.
pub open spec fn rpc_result(t: Tree) -> Result<Tree, Fault> {
    match t {
        Tree::Object(o) => match get(o, "error"@) {
            Some(e) if e != Tree::Null => Err(fault("endpoint_error"@, printed_json(carried(e)))),
            _ => match get(o, "result"@) {
                Some(v) => Ok(v),
                None => Ok(t),
            },
        },
        _ => Ok(t),
    }
}

pub open spec fn value_of(r: Result<Json, HandlerError>) -> Result<Tree, Fault> {
    match r {
        Ok(v) => Ok(v@),
        Err(e) => Err(e@),
    }
}

/// Reads a JSON-RPC response.
pub fn jsonrpc_result(response: Json) -> (r: Result<Json, HandlerError>)
    ensures
        value_of(r) == rpc_result(response@),
{
    broadcast use group_json_views;

    if let Json::Object(o) = &response {
        match field(o, "error") {
            Some(Json::Null) | None => {},
            Some(e) => return Err(HandlerError::new("endpoint_error", &write_json(e))),
        }
        if let Some(v) = field(o, "result") {
            return Ok(copy(v));
        }
    }
    Ok(response)
}

/// Reads the line that a JSON-RPC endpoint answered.
pub fn jsonrpc_response(line: &[u8]) -> (r: Result<Json, HandlerError>)
    ensures
        value_of(r) == jsonrpc_answer(line@),
{
    if line.len() > MAX_RESPONSE_BYTES {
        return Err(HandlerError::new("too_large", "endpoint response exceeded the cap"));
    }
    if line.len() == 0 {
        return Err(HandlerError::new("bad_response", "endpoint closed without answering"));
    }
    match read_json(line) {
        Ok(v) => jsonrpc_result(v),
        Err(_) => Err(HandlerError::new("bad_response", "endpoint did not return JSON")),
    }
}

/// What can go wrong between an agent and an endpoint.
pub enum Trouble {
    OpenTimeout,
    Open(String),
    WriteTimeout,
    Write(String),
    AnswerTimeout,
    Read(String),
}

/// How a trouble with the endpoint at `path` is told.
pub open spec fn trouble_fault(t: Trouble, path: Seq<char>) -> Fault {
    match t {
        Trouble::OpenTimeout => fault("timeout"@, "timed out opening "@ + path),
        Trouble::Open(e) => fault("endpoint_unreachable"@, "cannot open "@ + path + ": "@ + e@),
        Trouble::WriteTimeout => fault("timeout"@, "timed out writing request"@),
        Trouble::Write(e) => fault("endpoint_unreachable"@, e@),
        Trouble::AnswerTimeout => fault("timeout"@, "endpoint did not answer in time"@),
        Trouble::Read(e) => fault("bad_response"@, e@),
    }
}

pub fn trouble(endpoint: &Endpoint, t: Trouble) -> (r: HandlerError)
    ensures
        r@ == trouble_fault(t, endpoint.path@),
{
    match t {
        Trouble::OpenTimeout => HandlerError::new("timeout", &cat2("timed out opening ", &endpoint.path)),
        Trouble::Open(e) => HandlerError::new("endpoint_unreachable", &cat4("cannot open ", &endpoint.path, ": ", &e)),
        Trouble::WriteTimeout => HandlerError::new("timeout", "timed out writing request"),
        Trouble::Write(e) => HandlerError::new("endpoint_unreachable", &e),
        Trouble::AnswerTimeout => HandlerError::new("timeout", "endpoint did not answer in time"),
        Trouble::Read(e) => HandlerError::new("bad_response", &e),
    }
}

/// Why an endpoint's transport cannot be opened, where it cannot.
pub fn connect_refusal(endpoint: &Endpoint) -> (r: Option<HandlerError>)
    ensures
        match r {
            Some(e) => endpoint.transport@ != "unix"@ && e@ == fault(
                "endpoint_unreachable"@,
                "transport "@ + debug_text(endpoint.transport@) + " is not available in the Rust compatibility agent"@,
            ),
            None => endpoint.transport@ == "unix"@,
        },
{
    if same(&endpoint.transport, "unix") {
        None
    } else {
        Some(
            HandlerError::new(
                "endpoint_unreachable",
                &cat3("transport ", &quoted(&endpoint.transport), " is not available in the Rust compatibility agent"),
            ),
        )
    }
}

/// The command that relays a call as another user.
pub open spec fn relay_argv(user: Seq<char>, executable: Seq<char>, path: Seq<char>, timeout: u64) -> Seq<Seq<char>> {
    seq![
        "sudo"@,
        "-n"@,
        "-u"@,
        user,
        executable,
        "--local-api-relay"@,
        path,
        "--relay-timeout"@,
        seconds_number(timeout),
    ]
}

/// The command that relays a call as the user that `endpoint` names.
pub fn relay_command(endpoint: &Endpoint, executable: &str) -> (r: Result<Vec<String>, HandlerError>)
    requires
        endpoint.timeout.nanos <= u64::MAX,
    ensures
        match (r, endpoint.run_as) {
            (Ok(argv), Some(user)) => views(argv@) == relay_argv(
                user@,
                executable@,
                endpoint.path@,
                endpoint.timeout.nanos as u64,
            ),
            (Err(e), None) => e@ == fault("internal_error"@, "relay requested without run_as user"@),
            _ => false,
        },
{
    let user = match &endpoint.run_as {
        Some(user) => user.clone(),
        None => return Err(HandlerError::new("internal_error", "relay requested without run_as user")),
    };
    let argv: Vec<String> = vec![
        "sudo".to_owned(),
        "-n".to_owned(),
        "-u".to_owned(),
        user,
        executable.to_owned(),
        "--local-api-relay".to_owned(),
        endpoint.path.clone(),
        "--relay-timeout".to_owned(),
        seconds_number_text(endpoint.timeout.nanos as u64),
    ];
    assert(views(argv@) =~= relay_argv(user@, executable@, endpoint.path@, endpoint.timeout.nanos as u64));
    Ok(argv)
}

/// What a relay's failure says.
pub open spec fn relay_fault(site: Site, executable: Seq<char>, code: int, stderr: Seq<u8>) -> Fault {
    let detail = trimmed(lossy_text(stderr));
    let user = match site.run_as {
        Some(u) => u,
        None => "<unknown>"@,
    };
    if contained(detail, "a password is required"@) || contained(detail, "not allowed to execute"@) || (code == 1
        && contained(lowered(detail), "sudo"@)) {
        fault(
            "run_as_not_permitted"@,
            (debug_text(site.name) + " declares run_as="@ + debug_text(user)
                + ", but this agent may not become that user. The host owner can allow only this relay with a sudoers rule such as: sentinelx ALL=("@
                + user) + ") NOPASSWD: "@ + executable + " --local-api-relay * ("@ + (clipped(detail, 120) + ")"@),
        )
    } else if code == 3 {
        fault(
            "endpoint_unreachable"@,
            ("cannot open "@ + site.path + " as "@ + user) + ": "@ + clipped(detail, 160),
        )
    } else {
        fault("bad_response"@, "relay failed (rc="@ + signed_decimal(code) + "): "@ + clipped(detail, 160))
    }
}

/// What a relay that has ended gave: the reply that it printed, or why there is
/// none. `code` is its exit code, where it has one.
pub fn relay_result(endpoint: &Endpoint, executable: &str, code: Option<i32>, stdout: Vec<u8>, stderr: &[u8]) -> (r: Result<
    Vec<u8>,
    HandlerError,
>)
    ensures
        match r {
            Ok(reply) => code == Some(0i32) && stdout@.len() > 0 && reply@ == stdout@,
            Err(e) => !(code == Some(0i32) && stdout@.len() > 0) && e@ == relay_fault(
                endpoint@,
                executable@,
                match code {
                    Some(c) => c as int,
                    None => -1,
                },
                stderr@,
            ),
        },
{
    let rc: i64 = match code {
        Some(c) => c as i64,
        None => -1,
    };
    if rc == 0 && stdout.len() > 0 {
        return Ok(stdout);
    }
    let detail = trim(&from_utf8_lossy(stderr));
    let user = match &endpoint.run_as {
        Some(u) => u.clone(),
        None => "<unknown>".to_owned(),
    };
    if contains(&detail, "a password is required") || contains(&detail, "not allowed to execute") || (rc == 1 && contains(
        &to_lower(&detail),
        "sudo",
    )) {
        let head = cat5(
            &quoted(&endpoint.name),
            " declares run_as=",
            &quoted(&user),
            ", but this agent may not become that user. The host owner can allow only this relay with a sudoers rule such as: sentinelx ALL=(",
            &user,
        );
        let tail = cat2(&take_chars(&detail, 120), ")");
        return Err(
            HandlerError::new(
                "run_as_not_permitted",
                &cat5(&head, ") NOPASSWD: ", executable, " --local-api-relay * (", &tail),
            ),
        );
    }
    if rc == 3 {
        let head = cat4("cannot open ", &endpoint.path, " as ", &user);
        return Err(HandlerError::new("endpoint_unreachable", &cat3(&head, ": ", &take_chars(&detail, 160))));
    }
    Err(
        HandlerError::new(
            "bad_response",
            &cat4("relay failed (rc=", &signed_text(rc), "): ", &take_chars(&detail, 160)),
        ),
    )
}

/// A relay that does not answer in time.
pub fn relay_timeout(endpoint: &Endpoint) -> (r: HandlerError)
    ensures
        r@ == fault("timeout"@, endpoint.name@ + " did not answer in time"@),
{
    HandlerError::new("timeout", &cat2(&endpoint.name, " did not answer in time"))
}

/// A relay that could not be started.
pub fn relay_not_started(error: &str) -> (r: HandlerError)
    ensures
        r@ == fault("run_as_not_permitted"@, "could not start run_as relay: "@ + error@),
{
    HandlerError::new("run_as_not_permitted", &cat2("could not start run_as relay: ", error))
}

/// What a relay does with the request that it was given: its exit code and what
/// it prints, where it does not send the request.
pub fn relay_refusal(request: &Vec<u8>) -> (r: Option<(i32, &'static str)>)
    ensures
        match r {
            Some((code, text)) => (request@.len() == 0 && code == 2 && text@ == "nothing to send"@) || (request@.len()
                > MAX_RESPONSE_BYTES && code == 4 && text@ == "request exceeded the cap"@),
            None => 0 < request@.len() <= MAX_RESPONSE_BYTES,
        },
{
    if request.len() == 0 {
        Some((2, "nothing to send"))
    } else if request.len() > MAX_RESPONSE_BYTES {
        Some((4, "request exceeded the cap"))
    } else {
        None
    }
}

/// What a relay does with the reply as far as it came.
#[derive(Debug, Clone, Copy, PartialEq, Eq, Structural)]
pub enum RelayStep {
    More,
    Done,
    TooLarge,
}

/// A reply ends with a line break, and is given up beyond the cap.
pub fn relay_step(reply: &Vec<u8>) -> (r: RelayStep)
    ensures
        r == if reply@.len() > MAX_RESPONSE_BYTES {
            RelayStep::TooLarge
        } else if reply@.len() > 0 && reply@.last() == 10 {
            RelayStep::Done
        } else {
            RelayStep::More
        },
{
    if reply.len() > MAX_RESPONSE_BYTES {
        RelayStep::TooLarge
    } else if reply.len() > 0 && reply[reply.len() - 1] == 10 {
        RelayStep::Done
    } else {
        RelayStep::More
    }
}

/// An endpoint in the list of endpoints.
pub open spec fn listed_tree(site: Site) -> Tree {
    Tree::Object(
        no_fields().with("name"@, Tree::Text(site.name)).with("protocol"@, Tree::Text(site.protocol)).with(
            "transport"@,
            Tree::Text(site.transport),
        ).with("action_count"@, Tree::Number(Num::Pos(site.actions.len() as u64))),
    )
}

/// The endpoints that can be reached, as they are listed.
pub open spec fn listed(known: Seq<Site>) -> Seq<Tree>
    decreases known.len(),
{
    if known.len() == 0 {
        Seq::empty()
    } else if known.last().transport == "unix"@ {
        listed(known.drop_last()).push(listed_tree(known.last()))
    } else {
        listed(known.drop_last())
    }
}

fn list_endpoints(all: &Vec<Endpoint>) -> (r: Vec<Json>)
    ensures
        trees(r@) == listed(sites(all@)),
{
    let ghost known = sites(all@);
    let mut out: Vec<Json> = Vec::new();
    let mut i: usize = 0;
    assert(trees(out@) =~= listed(known.take(0)));
    while i < all.len()
        invariant
            i <= all@.len(),
            known == sites(all@),
            trees(out@) == listed(known.take(i as int)),
        decreases all@.len() - i,
    {
        assert(known.take(i + 1).drop_last() =~= known.take(i as int));
        assert(known.take(i + 1).last() == all@[i as int]@);
        if same(&all[i].transport, "unix") {
            assert(offers(all@[i as int].actions@).len() == all@[i as int].actions@.len());
            let mut o = no_object();
            set_field(&mut o, "name", string(&all[i].name));
            set_field(&mut o, "protocol", string(&all[i].protocol));
            set_field(&mut o, "transport", string(&all[i].transport));
            set_field(&mut o, "action_count", count(all[i].actions.len() as u64));
            let ghost before = trees(out@);
            proof {
                lemma_object_view(o);
            }
            out.push(Json::Object(o));
            assert(trees(out@) =~= before.push(listed_tree(known[i as int])));
        }
        i = i + 1;
    }
    assert(known.take(i as int) =~= known);
    out
}

/// An action as it is described.
pub open spec fn offer_tree(offer: Offer) -> Tree {
    let o = no_fields().with("request"@, text_or_null(offer.request)).with("method"@, text_or_null(offer.method)).with(
        "returns"@,
        if offer.select.len() == 0 {
            Tree::Text("the endpoint's own shape"@)
        } else {
            text_list(offer.select)
        },
    ).with("description"@, text_or_null(offer.description)).with("params"@, text_list(params_of(offer)));
    Tree::Object(
        match offer.params_schema {
            Some(schema) => o.with("params_schema"@, Tree::Object(schema)),
            None => o,
        },
    )
}

fn describe_action(action: &Action) -> (r: Json)
    ensures
        r@ == offer_tree(action@),
{
    broadcast use group_json_views;

    assert(views(action.select@).len() == action.select@.len());
    let shape = if action.select.len() == 0 {
        string("the endpoint's own shape")
    } else {
        strings(&action.select)
    };
    let mut o = no_object();
    set_field(&mut o, "request", optional(&action.request));
    set_field(&mut o, "method", optional(&action.method));
    set_field(&mut o, "returns", shape);
    set_field(&mut o, "description", optional(&action.description));
    set_field(&mut o, "params", strings(&param_names(action)));
    if let Some(schema) = &action.params_schema {
        set_field(&mut o, "params_schema", Json::Object(copy_object(schema)));
    }
    Json::Object(o)
}

/// The first `n` actions, each under its name.
pub open spec fn described(actions: Seq<(Seq<char>, Offer)>, n: int) -> Fields
    decreases n,
{
    if n <= 0 || n > actions.len() {
        no_fields()
    } else {
        described(actions, n - 1).with(actions[n - 1].0, offer_tree(actions[n - 1].1))
    }
}

fn describe_actions(actions: &Vec<(String, Action)>) -> (r: Object)
    ensures
        fields(r@) == described(offers(actions@), actions@.len() as int),
{
    let ghost known = offers(actions@);
    let mut out = no_object();
    let mut i: usize = 0;
    while i < actions.len()
        invariant
            i <= actions@.len(),
            known == offers(actions@),
            fields(out@) == described(known, i as int),
        decreases actions@.len() - i,
    {
        assert(known[i as int] == (actions@[i as int].0@, actions@[i as int].1@));
        set_field(&mut out, &actions[i].0, describe_action(&actions[i].1));
        i = i + 1;
    }
    out
}

/// What a request about local programs asks for.
pub enum LocalApiStep {
    Answer(HandlerResult),
    /// A call to make.
    Call { endpoint: Endpoint, action: String, params: Object },
}

pub enum Asked {
    Answer(Result<Fields, Fault>),
    Call { site: Site, action: Seq<char>, params: Fields },
}

pub open spec fn asked(s: LocalApiStep) -> Asked {
    match s {
        LocalApiStep::Answer(r) => Asked::Answer(outcome(r)),
        LocalApiStep::Call { endpoint, action, params } => Asked::Call {
            site: endpoint@,
            action: action@,
            params: fields(params@),
        },
    }
}

/// Where the endpoint of this name stands, or the number of endpoints.
pub open spec fn site_at(known: Seq<Site>, name: Seq<char>) -> int
    decreases known.len(),
{
    if known.len() == 0 || known[0].name == name {
        0
    } else {
        1 + site_at(known.drop_first(), name)
    }
}

/// Where the action of this name stands, or the number of actions.
pub open spec fn offer_at(actions: Seq<(Seq<char>, Offer)>, name: Seq<char>) -> int
    decreases actions.len(),
{
    if actions.len() == 0 || actions[0].0 == name {
        0
    } else {
        1 + offer_at(actions.drop_first(), name)
    }
}

pub open spec fn site_names(known: Seq<Site>) -> Seq<Seq<char>> {
    Seq::new(known.len(), |i: int| known[i].name)
}

pub open spec fn offer_names(actions: Seq<(Seq<char>, Offer)>) -> Seq<Seq<char>> {
    Seq::new(actions.len(), |i: int| actions[i].0)
}

pub open spec fn trimmed_field(payload: Fields, key: Seq<char>) -> Seq<char> {
    match as_text(get(payload, key)) {
        Some(s) => trimmed(s),
        None => trimmed(""@),
    }
}

/// What a request asks of the known endpoints.
pub open spec fn asked_of(known: Seq<Site>, payload: Fields) -> Asked {
    let operation = trimmed_field(payload, "operation"@);
    let name = trimmed_field(payload, "endpoint"@);
    let at = site_at(known, name);
    if operation == "list"@ {
        Asked::Answer(
            Ok(
                no_fields().with("ok"@, Tree::Bool(true)).with("operation"@, Tree::Text("list"@)).with(
                    "endpoints"@,
                    Tree::Array(listed(known)),
                ),
            ),
        )
    } else if !(0 <= at < known.len()) {
        Asked::Answer(
            Err(
                fault(
                    "endpoint_not_configured"@,
                    "no local endpoint named "@ + debug_text(name) + "; configured: "@ + quoted_list(site_names(known)),
                ),
            ),
        )
    } else if operation == "describe"@ {
        Asked::Answer(
            Ok(
                no_fields().with("ok"@, Tree::Bool(true)).with("operation"@, Tree::Text("describe"@)).with(
                    "endpoint"@,
                    Tree::Text(known[at].name),
                ).with("protocol"@, Tree::Text(known[at].protocol)).with(
                    "actions"@,
                    Tree::Object(described(known[at].actions, known[at].actions.len() as int)),
                ),
            ),
        )
    } else if operation == "call"@ {
        match get(payload, "params"@) {
            Some(Tree::Object(params)) => called(known[at], trimmed_field(payload, "action"@), params),
            None | Some(Tree::Null) => called(known[at], trimmed_field(payload, "action"@), no_fields()),
            _ => Asked::Answer(Err(fault("invalid_payload"@, "params must be an object"@))),
        }
    } else {
        Asked::Answer(
            Err(
                fault(
                    "invalid_payload"@,
                    "unknown operation "@ + debug_text(operation) + "; expected list, describe or call"@,
                ),
            ),
        )
    }
}

/// A call of an action, where the endpoint has it.
pub open spec fn called(site: Site, action: Seq<char>, params: Fields) -> Asked {
    let at = offer_at(site.actions, action);
    if 0 <= at < site.actions.len() {
        Asked::Call { site, action, params }
    } else {
        Asked::Answer(
            Err(
                fault(
                    "action_not_allowed"@,
                    debug_text(action) + " is not an allowed action; allowed: "@ + quoted_list(offer_names(site.actions)),
                ),
            ),
        )
    }
}

proof fn lemma_site_at(known: Seq<Site>, name: Seq<char>, p: int)
    requires
        0 <= p <= known.len(),
        p < known.len() ==> known[p].name == name,
        forall|i: int| 0 <= i < p ==> (#[trigger] known[i]).name != name,
    ensures
        site_at(known, name) == p,
    decreases known.len(),
{
    if known.len() > 0 && p > 0 {
        assert(known[0].name != name);
        assert forall|i: int| 0 <= i < p - 1 implies (#[trigger] known.drop_first()[i]).name != name by {
            assert(known[i + 1].name != name);
        }
        lemma_site_at(known.drop_first(), name, p - 1);
    }
}

proof fn lemma_offer_at(actions: Seq<(Seq<char>, Offer)>, name: Seq<char>, p: int)
    requires
        0 <= p <= actions.len(),
        p < actions.len() ==> actions[p].0 == name,
        forall|i: int| 0 <= i < p ==> (#[trigger] actions[i]).0 != name,
    ensures
        offer_at(actions, name) == p,
    decreases actions.len(),
{
    if actions.len() > 0 && p > 0 {
        assert(actions[0].0 != name);
        assert forall|i: int| 0 <= i < p - 1 implies (#[trigger] actions.drop_first()[i]).0 != name by {
            assert(actions[i + 1].0 != name);
        }
        lemma_offer_at(actions.drop_first(), name, p - 1);
    }
}

fn find_site(all: &Vec<Endpoint>, name: &str) -> (r: usize)
    ensures
        r == site_at(sites(all@), name@),
        r <= all@.len(),
{
    let ghost known = sites(all@);
    let mut i: usize = 0;
    while i < all.len()
        invariant
            i <= all@.len(),
            known == sites(all@),
            forall|j: int| 0 <= j < i ==> (#[trigger] known[j]).name != name@,
        decreases all@.len() - i,
    {
        assert(known[i as int] == all@[i as int]@);
        if same(&all[i].name, name) {
            proof {
                lemma_site_at(known, name@, i as int);
            }
            return i;
        }
        i = i + 1;
    }
    proof {
        lemma_site_at(known, name@, i as int);
    }
    i
}

/// Where the action of this name stands, or the number of actions.
pub fn find_action(actions: &Vec<(String, Action)>, name: &str) -> (r: usize)
    ensures
        r == offer_at(offers(actions@), name@),
        r <= actions@.len(),
{
    let ghost known = offers(actions@);
    let mut i: usize = 0;
    while i < actions.len()
        invariant
            i <= actions@.len(),
            known == offers(actions@),
            forall|j: int| 0 <= j < i ==> (#[trigger] known[j]).0 != name@,
        decreases actions@.len() - i,
    {
        assert(known[i as int] == (actions@[i as int].0@, actions@[i as int].1@));
        if same(&actions[i].0, name) {
            proof {
                lemma_offer_at(known, name@, i as int);
            }
            return i;
        }
        i = i + 1;
    }
    proof {
        lemma_offer_at(known, name@, i as int);
    }
    i
}

fn names_of(all: &Vec<Endpoint>) -> (r: Vec<String>)
    ensures
        views(r@) == site_names(sites(all@)),
{
    let mut names: Vec<String> = Vec::new();
    let mut i: usize = 0;
    while i < all.len()
        invariant
            i <= all@.len(),
            names@.len() == i,
            forall|j: int| 0 <= j < i ==> (#[trigger] names@[j])@ == all@[j].name@,
        decreases all@.len() - i,
    {
        names.push(all[i].name.clone());
        i = i + 1;
    }
    assert(views(names@) =~= site_names(sites(all@)));
    names
}

fn action_names(actions: &Vec<(String, Action)>) -> (r: Vec<String>)
    ensures
        views(r@) == offer_names(offers(actions@)),
{
    let mut names: Vec<String> = Vec::new();
    let mut i: usize = 0;
    while i < actions.len()
        invariant
            i <= actions@.len(),
            names@.len() == i,
            forall|j: int| 0 <= j < i ==> (#[trigger] names@[j])@ == actions@[j].0@,
        decreases actions@.len() - i,
    {
        names.push(actions[i].0.clone());
        i = i + 1;
    }
    assert(views(names@) =~= offer_names(offers(actions@)));
    names
}

fn trim_field(payload: &Object, key: &str) -> (r: String)
    ensures
        r@ == trimmed_field(fields(payload@), key@),
{
    match text_field(payload, key) {
        Some(s) => trim(s),
        None => trim(""),
    }
}

fn refuse(code: &str, message: &str) -> (r: LocalApiStep)
    ensures
        asked(r) == Asked::Answer(Err(fault(code@, message@))),
{
    LocalApiStep::Answer(Err(HandlerError::new(code, message)))
}

fn describe(endpoint: &Endpoint) -> (r: Object)
    ensures
        fields(r@) == no_fields().with("ok"@, Tree::Bool(true)).with("operation"@, Tree::Text("describe"@)).with(
            "endpoint"@,
            Tree::Text(endpoint@.name),
        ).with("protocol"@, Tree::Text(endpoint@.protocol)).with(
            "actions"@,
            Tree::Object(described(endpoint@.actions, endpoint@.actions.len() as int)),
        ),
{
    broadcast use group_json_views;

    let mut o = no_object();
    set_field(&mut o, "ok", Json::Bool(true));
    set_field(&mut o, "operation", string("describe"));
    set_field(&mut o, "endpoint", string(&endpoint.name));
    set_field(&mut o, "protocol", string(&endpoint.protocol));
    set_field(&mut o, "actions", Json::Object(describe_actions(&endpoint.actions)));
    o
}

/// Answers a request about local programs, or says which call to make.
pub fn handle(policy: &Policy, payload: &Object) -> (r: LocalApiStep)
    ensures
        asked(r) == asked_of(sites_of(policy.local_apis@, policy.local_apis@.len() as int), fields(payload@)),
{
    broadcast use group_json_views;

    let mut all = endpoints(&policy.local_apis);
    let ghost known = sites(all@);
    let operation = trim_field(payload, "operation");
    if same(&operation, "list") {
        let mut o = no_object();
        set_field(&mut o, "ok", Json::Bool(true));
        set_field(&mut o, "operation", string("list"));
        set_field(&mut o, "endpoints", Json::Array(list_endpoints(&all)));
        return LocalApiStep::Answer(Ok(o));
    }
    let name = trim_field(payload, "endpoint");
    let at = find_site(&all, &name);
    if at >= all.len() {
        return refuse(
            "endpoint_not_configured",
            &cat4("no local endpoint named ", &quoted(&name), "; configured: ", &quote_list(&names_of(&all))),
        );
    }
    assert(known[at as int] == all@[at as int]@);
    if same(&operation, "describe") {
        return LocalApiStep::Answer(Ok(describe(&all[at])));
    }
    if same(&operation, "call") {
        let action = trim_field(payload, "action");
        let params = match field(payload, "params") {
            None | Some(Json::Null) => no_object(),
            Some(Json::Object(params)) => copy_object(params),
            _ => return refuse("invalid_payload", "params must be an object"),
        };
        let place = find_action(&all[at].actions, &action);
        if place >= all[at].actions.len() {
            return refuse(
                "action_not_allowed",
                &cat3(
                    &quoted(&action),
                    " is not an allowed action; allowed: ",
                    &quote_list(&action_names(&all[at].actions)),
                ),
            );
        }
        let endpoint = all.swap_remove(at);
        return LocalApiStep::Call { endpoint, action, params };
    }
    refuse(
        "invalid_payload",
        &cat3("unknown operation ", &quoted(&operation), "; expected list, describe or call"),
    )
}

/// What a call gave.
pub open spec fn call_outcome(site: Site, action: Seq<char>, answer: Result<Tree, Fault>) -> Result<Fields, Fault> {
    match answer {
        Err(f) => Err(f),
        Ok(raw) => Ok(
            no_fields().with("ok"@, Tree::Bool(true)).with("operation"@, Tree::Text("call"@)).with(
                "endpoint"@,
                Tree::Text(site.name),
            ).with("action"@, Tree::Text(action)).with(
                "result"@,
                projected(raw, site.actions[offer_at(site.actions, action)].1.select),
            ),
        ),
    }
}

/// Whether a failed call makes the verdict on its endpoint void.
pub open spec fn voids_verdict(answer: Result<Tree, Fault>) -> bool {
    answer matches Err(f) && (f.code == "endpoint_unreachable"@ || f.code == "timeout"@)
}

/// What a call gave. The verdict on an endpoint that could not be reached, or did
/// not answer in time, is dropped.
pub fn finish_call(endpoint: &Endpoint, action: &str, answer: Result<Json, HandlerError>, cache: &mut CompatCache) -> (r: HandlerResult)
    requires
        0 <= offer_at(endpoint@.actions, action@) < endpoint@.actions.len(),
    ensures
        outcome(r) == call_outcome(endpoint@, action@, value_of(answer)),
        forall|k: Seq<char>|
            #[trigger] final(cache).on(k) == if k == endpoint.name@ && voids_verdict(value_of(answer)) {
                None
            } else {
                old(cache).on(k)
            },
{
    broadcast use group_json_views;

    let raw = match answer {
        Ok(raw) => raw,
        Err(e) => {
            if same(&e.code, "endpoint_unreachable") || same(&e.code, "timeout") {
                cache.forget(&endpoint.name);
            }
            return Err(e);
        },
    };
    let at = find_action(&endpoint.actions, action);
    assert(offers(endpoint.actions@)[at as int].1 == endpoint.actions@[at as int].1@);
    let mut o = no_object();
    set_field(&mut o, "ok", Json::Bool(true));
    set_field(&mut o, "operation", string("call"));
    set_field(&mut o, "endpoint", string(&endpoint.name));
    set_field(&mut o, "action", string(action));
    set_field(&mut o, "result", project(raw, &endpoint.actions[at].1.select));
    Ok(o)
}

/// A call is only made of an endpoint that is configured and of an action that it
/// has.
pub proof fn calls_are_configured(known: Seq<Site>, payload: Fields)
    ensures
        asked_of(known, payload) matches Asked::Call { site, action, .. } ==> known.contains(site) && 0 <= offer_at(
            site.actions,
            action,
        ) < site.actions.len(),
{
    let at = site_at(known, trimmed_field(payload, "endpoint"@));
    if 0 <= at < known.len() {
        assert(known.contains(known[at]));
    }
}

/// An endpoint that answers too late, or cannot be reached, is asked anew what it
/// is before the next call.
pub proof fn lost_endpoint_is_probed_again(site: Site, answer: Result<Tree, Fault>, before: CompatCache, after: CompatCache)
    requires
        site.compatibility matches Some(rule) && crate::endpoint::complete_rule(rule, site.protocol),
        voids_verdict(answer),
        forall|k: Seq<char>|
            #[trigger] after.on(k) == if k == site.name && voids_verdict(answer) {
                None
            } else {
                before.on(k)
            },
    ensures
        crate::compatibility::admission_of(site.compatibility, after.on(site.name)) is Probe,
{
    crate::compatibility::unknown_endpoint_is_probed(site.compatibility->0, site.protocol);
}

/// A value is found along a path of keys with dots between them.
pub proof fn values_are_found_along_paths(o: Fields, key: Seq<char>, rest: Seq<char>)
    requires
        !key.contains('.'),
    ensures
        extracted(Tree::Object(o), pieces(key, '.')) == get(o, key),
        extracted(Tree::Object(o), pieces(key + seq!['.'] + rest, '.')) == match get(o, key) {
            Some(next) => extracted(next, pieces(rest, '.')),
            None => None,
        },
{
    lemma_first_index(key, '.');
    assert(pieces(key, '.') =~= seq![key]);
    assert(seq![key].drop_first() =~= Seq::<Seq<char>>::empty());
    reveal_with_fuel(extracted, 2);
    lemma_pieces_joined(key, rest, '.');
    let p = pieces(key + seq!['.'] + rest, '.');
    assert(p[0] == key);
    assert(p.drop_first() =~= pieces(rest, '.'));
}

/// Of an answer the selected values are kept, under their paths, and nothing else; of a list
/// those of each entry.
pub proof fn selected_values_are_kept(o: Fields, select: Seq<Seq<char>>, n: int, key: Seq<char>)
    requires
        0 <= n <= select.len(),
    ensures
        get(picked(o, select, n), key) == if select.take(n).contains(key) {
            match extracted(Tree::Object(o), pieces(key, '.')) {
                Some(v) if v != Tree::Null => Some(v),
                _ => None,
            }
        } else {
            None
        },
    decreases n,
{
    broadcast use lemma_get_put;

    if n > 0 {
        selected_values_are_kept(o, select, n - 1, key);
        let all = select.take(n);
        let some = select.take(n - 1);
        assert(all =~= some.push(select[n - 1]));
        assert(all.contains(key) <==> some.contains(key) || key == select[n - 1]) by {
            if all.contains(key) {
                let i = choose|i: int| 0 <= i < all.len() && all[i] == key;
                if i < some.len() {
                    assert(some[i] == key);
                }
            }
            if some.contains(key) {
                let i = choose|i: int| 0 <= i < some.len() && some[i] == key;
                assert(all[i] == key);
            }
            assert(all[n - 1] == select[n - 1]);
        }
    } else {
        assert(select.take(0).len() == 0);
    }
}

/// Without a selection an answer stays as it is; a list is projected entry by entry.
pub proof fn lists_are_projected_by_entry(t: Tree, items: Seq<Tree>, select: Seq<Seq<char>>, i: int)
    requires
        0 <= i < items.len(),
    ensures
        projected(t, Seq::empty()) == t,
        projected(Tree::Array(items), select) matches Tree::Array(r) && r.len() == items.len() && r[i] == projected(
            items[i],
            select,
        ),
{
    if select.len() == 0 {
        assert(projected(items[i], select) == items[i]);
    }
}

/// An error in the answer is an error; otherwise the result in it is the answer.
pub proof fn errors_come_before_results(o: Fields)
    ensures
        get(o, "error"@) matches Some(e) && e != Tree::Null ==> (rpc_result(Tree::Object(o)) matches Err(f) && f.code
            == "endpoint_error"@),
        get(o, "error"@) is None || get(o, "error"@) == Some(Tree::Null) ==> (get(o, "result"@) matches Some(v) ==> rpc_result(
            Tree::Object(o),
        ) == Ok::<Tree, Fault>(v)),
{
}

/// A call tells the method, and carries the parameters.
pub proof fn calls_carry_their_parameters(offer: Offer, method: Seq<char>, params: Fields, random: u32)
    requires
        offer.method == Some(method),
    ensures
        jsonrpc_call(offer, params, random) matches Tree::Object(o) && get(o, "method"@) == Some(Tree::Text(method)) && get(
            o,
            "params"@,
        ) == Some(Tree::Object(params)) && get(o, "jsonrpc"@) == Some(Tree::Text("2.0"@)) && get(o, "id"@) is Some,
{
    broadcast use lemma_get_put;

    reveal_strlit("jsonrpc");
    reveal_strlit("id");
    reveal_strlit("method");
    reveal_strlit("params");
    assert("jsonrpc"@.len() == 7 && "id"@.len() == 2 && "method"@.len() == 6 && "params"@.len() == 6
        && "method"@[0] == 'm' && "params"@[0] == 'p');
}

/// What is answered to a call names the endpoint and the action, and holds the projected
/// answer.
pub proof fn calls_are_told(site: Site, action: Seq<char>, raw: Tree, f: Fault)
    ensures
        call_outcome(site, action, Ok(raw)) matches Ok(o) && get(o, "ok"@) == Some(Tree::Bool(true)) && get(o, "operation"@)
            == Some(Tree::Text("call"@)) && get(o, "endpoint"@) == Some(Tree::Text(site.name)) && get(o, "action"@) == Some(
            Tree::Text(action),
        ) && get(o, "result"@) == Some(projected(raw, site.actions[offer_at(site.actions, action)].1.select)),
        call_outcome(site, action, Err(f)) == Err::<Fields, Fault>(f),
{
    broadcast use lemma_get_put;

    reveal_strlit("ok");
    reveal_strlit("operation");
    reveal_strlit("endpoint");
    reveal_strlit("action");
    reveal_strlit("result");
    assert("ok"@.len() == 2 && "operation"@.len() == 9 && "endpoint"@.len() == 8 && "action"@.len() == 6
        && "result"@.len() == 6 && "action"@[0] == 'a' && "result"@[0] == 'r');
}

/// An endpoint is listed with its name and how many actions it has, and only where it can be
/// reached.
pub proof fn endpoints_are_listed(known: Seq<Site>, site: Site)
    requires
        known.contains(site),
        site.transport == "unix"@,
    ensures
        exists|i: int|
            0 <= i < listed(known).len() && (#[trigger] listed(known)[i] matches Tree::Object(o) && get(o, "name"@) == Some(
                Tree::Text(site.name),
            ) && get(o, "protocol"@) == Some(Tree::Text(site.protocol)) && get(o, "action_count"@) == Some(
                Tree::Number(Num::Pos(site.actions.len() as u64)),
            )),
    decreases known.len(),
{
    broadcast use lemma_get_put;

    reveal_strlit("name");
    reveal_strlit("protocol");
    reveal_strlit("transport");
    reveal_strlit("action_count");
    assert("name"@.len() == 4 && "protocol"@.len() == 8 && "transport"@.len() == 9 && "action_count"@.len() == 12);
    let k = choose|k: int| 0 <= k < known.len() && known[k] == site;
    if k == known.len() - 1 {
        let i = listed(known).len() - 1;
        assert(listed(known)[i] == listed_tree(site));
    } else {
        let front = known.drop_last();
        assert(front[k] == site);
        endpoints_are_listed(front, site);
        let i = choose|i: int|
            0 <= i < listed(front).len() && (#[trigger] listed(front)[i] matches Tree::Object(o) && get(o, "name"@) == Some(
                Tree::Text(site.name),
            ) && get(o, "protocol"@) == Some(Tree::Text(site.protocol)) && get(o, "action_count"@) == Some(
                Tree::Number(Num::Pos(site.actions.len() as u64)),
            ));
        assert(listed(known)[i] == listed(front)[i]);
    }
}

/// An action is described with its request, its method, its description and its parameters.
pub proof fn actions_are_described(offer: Offer)
    ensures
        offer_tree(offer) matches Tree::Object(o) && {
            &&& offer.request matches Some(t) ==> get(o, "request"@) == Some(Tree::Text(t))
            &&& offer.method matches Some(t) ==> get(o, "method"@) == Some(Tree::Text(t))
            &&& offer.description matches Some(t) ==> get(o, "description"@) == Some(Tree::Text(t))
            &&& offer.description is None ==> get(o, "description"@) == Some(Tree::Null)
            &&& get(o, "params"@) == Some(text_list(params_of(offer)))
            &&& offer.select.len() > 0 ==> get(o, "returns"@) == Some(text_list(offer.select))
            &&& offer.params_schema matches Some(schema) ==> get(o, "params_schema"@) == Some(Tree::Object(schema))
            &&& offer.params_schema is None ==> get(o, "params_schema"@) is None
        },
{
    broadcast use lemma_get_put;

    reveal_strlit("request");
    reveal_strlit("method");
    reveal_strlit("returns");
    reveal_strlit("description");
    reveal_strlit("params");
    reveal_strlit("params_schema");
    assert("request"@.len() == 7 && "method"@.len() == 6 && "returns"@.len() == 7 && "description"@.len() == 11
        && "params"@.len() == 6 && "params_schema"@.len() == 13 && "request"@[2] == 'q' && "returns"@[2] == 't'
        && "method"@[0] == 'm' && "params"@[0] == 'p');
}

/// What is asked is done at the endpoint that is named, and a call only with the action and
/// the parameters that were sent.
pub proof fn requests_are_as_asked_for(known: Seq<Site>, payload: Fields)
    ensures
        asked_of(known, payload) matches Asked::Call { site, action, params } ==> {
            &&& get(payload, "operation"@) matches Some(Tree::Text(t)) && trimmed(t) == "call"@
            &&& get(payload, "endpoint"@) matches Some(Tree::Text(t)) ==> site.name == trimmed(t)
            &&& get(payload, "action"@) matches Some(Tree::Text(t)) ==> action == trimmed(t)
            &&& get(payload, "params"@) matches Some(Tree::Object(p)) ==> params == p
            &&& get(payload, "params"@) is None ==> params == no_fields()
        },
{
    reveal_strlit("");
    reveal_strlit("call");
    reveal_strlit("list");
    reveal_strlit("describe");
    assert(trimmed(""@).len() == 0);
    let name = trimmed_field(payload, "endpoint"@);
    lemma_site_found(known, name);
    assert("call"@.len() == 4 && "list"@.len() == 4 && "describe"@.len() == 8);
    assert("call"@[0] != "list"@[0]);
}

proof fn lemma_site_found(known: Seq<Site>, name: Seq<char>)
    ensures
        0 <= site_at(known, name) <= known.len(),
        site_at(known, name) < known.len() ==> known[site_at(known, name)].name == name,
        forall|i: int| 0 <= i < site_at(known, name) ==> (#[trigger] known[i]).name != name,
    decreases known.len(),
{
    if known.len() > 0 && known[0].name != name {
        lemma_site_found(known.drop_first(), name);
        assert forall|i: int| 0 <= i < site_at(known, name) implies (#[trigger] known[i]).name != name by {
            if i > 0 {
                assert(known.drop_first()[i - 1] == known[i]);
            }
        }
    }
}

/// An endpoint that is not configured is refused, whatever is asked of it.
pub proof fn unknown_endpoints_are_refused(known: Seq<Site>, payload: Fields)
    requires
        trimmed_field(payload, "operation"@) != "list"@,
        forall|i: int| 0 <= i < known.len() ==> (#[trigger] known[i]).name != trimmed_field(payload, "endpoint"@),
    ensures
        asked_of(known, payload) matches Asked::Answer(Err(f)) && f.code == "endpoint_not_configured"@,
{
    lemma_site_found(known, trimmed_field(payload, "endpoint"@));
}

/// A relay runs as the user, for the path and the time, that the endpoint declares.
pub proof fn relays_run_as_declared(user: Seq<char>, executable: Seq<char>, path: Seq<char>, timeout: u64)
    ensures
        ({
            let argv = relay_argv(user, executable, path, timeout);
            &&& argv[0] == "sudo"@ && argv[1] == "-n"@ && argv[2] == "-u"@ && argv[3] == user
            &&& argv[4] == executable && argv[5] == "--local-api-relay"@ && argv[6] == path
            &&& argv[7] == "--relay-timeout"@ && argv[8] == seconds_number(timeout) && argv.len() == 9
        }),
{
}

/// A request is sent with its method in capital letters, for the target that it names.
pub proof fn requests_name_their_target(offer: Offer, method: Seq<char>, target: Seq<char>, params: Fields)
    requires
        method.len() > 0,
        target.len() > 0,
        !method.contains(' '),
        !white(method[0]),
        !white(target[0]),
        !white(target.last()),
        offer.request == Some(method + seq![' '] + target),
    ensures
        rendered(target, params) matches Ok(t) ==> http_wire(offer, params) == Ok::<Seq<char>, Fault>(
            uppered(method) + " "@ + t
                + " HTTP/1.1\r\nHost: localhost\r\nAccept: application/json\r\nConnection: close\r\n\r\n"@,
        ),
        rendered(target, params) matches Err(f) ==> http_wire(offer, params) == Err::<Seq<char>, Fault>(f),
{
    let request = method + seq![' '] + target;
    assert(request[0] == method[0] && request.last() == target.last());
    assert(trimmed(request) == request);
    assert forall|i: int| 0 <= i < method.len() implies request[i] != ' ' by {
        assert(request[i] == method[i]);
        assert(method.contains(method[i]));
    }
    lemma_first_index_is(request, ' ', method.len() as int);
    assert(request.take(method.len() as int) =~= method);
    assert(request.skip(method.len() as int + 1) =~= target);
    assert(trimmed(target) == target);
}

/// What went wrong with a call is told by its code: that it took too long, that the endpoint
/// could not be reached, or that its answer could not be read.
pub proof fn troubles_are_told_apart(t: Trouble, path: Seq<char>)
    ensures
        (t is OpenTimeout || t is WriteTimeout || t is AnswerTimeout) ==> trouble_fault(t, path).code == "timeout"@,
        (t is Open || t is Write) ==> trouble_fault(t, path).code == "endpoint_unreachable"@,
        t is Read ==> trouble_fault(t, path).code == "bad_response"@,
{
}

/// A relay that may not run as the user is told apart from one that cannot reach the endpoint.
pub proof fn relay_faults_are_told_apart(site: Site, executable: Seq<char>, code: int, stderr: Seq<u8>)
    ensures
        ({
            let detail = trimmed(lossy_text(stderr));
            let f = relay_fault(site, executable, code, stderr);
            &&& contained(detail, "a password is required"@) || contained(detail, "not allowed to execute"@) ==> f.code
                == "run_as_not_permitted"@
            &&& detail.len() == 0 && code == 3 ==> f.code == "endpoint_unreachable"@
            &&& detail.len() == 0 && code != 3 ==> f.code == "bad_response"@
        }),
{
    let detail = trimmed(lossy_text(stderr));
    if detail.len() == 0 {
        reveal_strlit("a password is required");
        reveal_strlit("not allowed to execute");
        reveal_strlit("sudo");
        lemma_first_match(detail, "a password is required"@);
        lemma_first_match(detail, "not allowed to execute"@);
        lemma_first_match(lowered(detail), "sudo"@);
    }
}

/// The actions of an endpoint are described each under its name.
pub proof fn actions_are_described_by_name(actions: Seq<(Seq<char>, Offer)>, n: int, i: int)
    requires
        0 <= i < n <= actions.len(),
        forall|j: int, k: int| 0 <= j < k < actions.len() ==> (#[trigger] actions[j]).0 != (#[trigger] actions[k]).0,
    ensures
        get(described(actions, n), actions[i].0) == Some(offer_tree(actions[i].1)),
    decreases n,
{
    broadcast use lemma_get_put;

    if i < n - 1 {
        actions_are_described_by_name(actions, n - 1, i);
        assert(actions[i].0 != actions[n - 1].0);
    }
}

} // verus!
