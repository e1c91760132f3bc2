use sentinelx::compatibility::{admission, judge, Admission, CompatCache};
use sentinelx::endpoint::{endpoint_from_raw, endpoints, param_names, Endpoint};
use sentinelx::handler_error::HandlerError;
use sentinelx::http_reply::{HttpNext, HttpReader};
use sentinelx::json::{field, into_object, list_field, text_field, Json, Object};
use sentinelx::local_api::{
    connect_refusal, extract, finish_call, handle, has_usable_endpoints, http_request, jsonrpc_request, jsonrpc_response,
    project, quote_list, relay_command, relay_not_started, relay_refusal, relay_result, relay_step, relay_timeout,
    request_for, trouble, LocalApiStep, RelayStep, Trouble,
};
use sentinelx::policy::Policy;
use sentinelx::template::{percent_encode, placeholder_names, render};
use sentinelx::time::Duration;
use sentinelx::wire::{read_json, write_json};

fn json(text: &str) -> Json {
    read_json(text.as_bytes()).unwrap()
}

fn object(text: &str) -> Object {
    into_object(json(text))
}

const HTTP: &str = r#"{"transport":"unix","protocol":"http","path":"/run/x.sock","timeout_s":2,
    "actions":{"get":{"request":"GET /containers/{id}/json","select":["Name"],"description":"one"},
               "ping":{"request":"GET /ping"}}}"#;

const RPC: &str = r#"{"transport":"unix","protocol":"jsonrpc","path":"/run/r.sock",
    "compatibility":{"probe":{"method":"version"},"extract":"major","accept":{"exact":20}},
    "actions":{"a":{"method":"do_a"}}}"#;

fn endpoint(text: &str) -> Endpoint {
    endpoint_from_raw("ep", Some(&json(text))).unwrap()
}

fn policy_with(text: &str) -> Policy {
    Policy { local_apis: vec![("ep".to_owned(), Some(json(text)))], ..Policy::default() }
}

/// Feeds a reply to a reader as it asks for it.
fn read_reply(reply: &[u8]) -> Result<Json, HandlerError> {
    let mut reader = HttpReader::start();
    let mut at = 0;
    loop {
        let input = match reader.wants() {
            Some(n) => {
                if at + n > reply.len() {
                    Err("early end".to_owned())
                } else {
                    at += n;
                    Ok(reply[at - n..at].to_vec())
                }
            },
            None => {
                let end = reply[at..].iter().position(|b| *b == b'\n').map_or(reply.len(), |i| at + i + 1);
                let line = reply[at..end].to_vec();
                at = end;
                Ok(line)
            },
        };
        match reader.take(input) {
            HttpNext::Read(next) => reader = next,
            HttpNext::Done(result) => return result,
        }
    }
}

#[test]
fn half_written_compatibility_constraint_is_dropped() {
    let raw = r#"{"transport":"unix","protocol":"jsonrpc","path":"/tmp/x.sock",
        "compatibility":{"accept":{"exact":20}},"actions":{"a":{"method":"a"}}}"#;
    assert!(endpoint_from_raw("x", Some(&json(raw))).unwrap().compatibility.is_none());
    assert!(endpoint(RPC).compatibility.is_some());
}

#[test]
fn run_as_endpoint_remains_usable_and_relay_has_no_shell() {
    let raw = r#"{"transport":"unix","protocol":"jsonrpc","path":"/run/user/1002/x.sock","run_as":"userx",
        "actions":{"a":{"method":"a"}}}"#;
    let endpoint = endpoint(raw);
    let argv = relay_command(&endpoint, "/usr/local/bin/sentinelx-core").unwrap();
    assert_eq!(
        &argv[..5],
        &[
            "sudo".to_owned(),
            "-n".to_owned(),
            "-u".to_owned(),
            "userx".to_owned(),
            "/usr/local/bin/sentinelx-core".to_owned(),
        ]
    );
    assert_eq!(argv[5], "--local-api-relay");
    assert_eq!(argv[6], "/run/user/1002/x.sock");
    assert_eq!(argv[7], "--relay-timeout");
    assert!(!argv.iter().any(|arg| arg.contains(';') || arg.contains("&&")));
    assert!(has_usable_endpoints(&policy_with(raw)));
}

#[test]
fn projection_supports_dotted_paths_and_arrays() {
    let value = json(r#"[{"Config":{"Image":"a"},"Name":"one"},{"Config":{"Image":"b"},"Name":"two"}]"#);
    let projected = project(value, &vec!["Config.Image".to_owned(), "Name".to_owned()]);
    assert_eq!(
        write_json(&projected),
        r#"[{"Config.Image":"a","Name":"one"},{"Config.Image":"b","Name":"two"}]"#
    );
}

#[test]
fn missing_template_param_is_explicit() {
    let error = render("/containers/{id}/json", &object("{}")).unwrap_err();
    assert_eq!(error.code, "missing_param");
}

#[test]
fn templates_are_filled_with_encoded_values() {
    assert_eq!(render("/c/{id}?n={n}", &object(r#"{"id":"a b/c","n":3}"#)).unwrap(), "/c/a%20b%2Fc?n=3");
    assert_eq!(percent_encode("é~"), "%C3%A9~");
    assert_eq!(placeholder_names("/a/{x}/{y}/{x}"), vec!["x", "y"]);
}

#[test]
fn endpoints_without_what_they_need_are_left_out() {
    for raw in [
        "null",
        "[]",
        r#"{"transport":"tcp","protocol":"http","path":"/x","actions":{"a":{"request":"GET /"}}}"#,
        r#"{"transport":"unix","protocol":"smtp","path":"/x","actions":{"a":{"request":"GET /"}}}"#,
        r#"{"transport":"unix","protocol":"http","actions":{"a":{"request":"GET /"}}}"#,
        r#"{"transport":"unix","protocol":"http","path":"/x","actions":{}}"#,
    ] {
        assert!(endpoint_from_raw("e", Some(&json(raw))).is_none(), "{raw}");
    }
    assert!(endpoint_from_raw("e", None).is_none());
    let named = vec![("bad".to_owned(), None), ("good".to_owned(), Some(json(HTTP)))];
    let found = endpoints(&named);
    assert_eq!(found.len(), 1);
    assert_eq!(found[0].name, "good");
    assert_eq!(found[0].timeout, Duration::from_secs(2));
    assert!(!has_usable_endpoints(&Policy::default()));
}

#[test]
fn requests_are_written_as_their_protocol_wants() {
    let e = endpoint(HTTP);
    let (_, action) = e.actions.iter().find(|(name, _)| name == "get").unwrap();
    assert_eq!(param_names(action), vec!["id"]);
    let request = http_request(action, &object(r#"{"id":"web 1"}"#)).unwrap();
    assert!(request.starts_with("GET /containers/web%201/json HTTP/1.1\r\n"));
    assert!(request.ends_with("\r\n\r\n"));
    assert_eq!(request_for(&e, action, &object("{}")).unwrap_err().code, "missing_param");
    let r = endpoint(RPC);
    let line = jsonrpc_request(&r.actions[0].1, &object(r#"{"k":1}"#), 7);
    let sent = object(line.trim_end());
    assert_eq!(text_field(&sent, "method"), Some("do_a"));
    assert!(line.ends_with('\n'));
}

#[test]
fn jsonrpc_answers_hold_a_result_or_an_error() {
    assert_eq!(write_json(&jsonrpc_response(br#"{"result":{"a":1}}"#).unwrap()), r#"{"a":1}"#);
    assert!(jsonrpc_response(br#"{"error":{"code":-1,"message":"no"}}"#).is_err());
    assert!(jsonrpc_response(b"not json").is_err());
}

#[test]
fn replies_are_read_by_length_and_by_chunks() {
    let plain = b"HTTP/1.1 200 OK\r\nContent-Length: 7\r\n\r\n{\"a\":1}";
    assert_eq!(write_json(&read_reply(plain).unwrap()), r#"{"a":1}"#);
    let chunked = b"HTTP/1.1 200 OK\r\nTransfer-Encoding: chunked\r\n\r\n3\r\n{\"a\r\n4\r\n\":1}\r\n0\r\n\r\n";
    assert_eq!(write_json(&read_reply(chunked).unwrap()), r#"{"a":1}"#);
}

#[test]
fn refused_and_broken_replies_are_errors() {
    assert!(read_reply(b"HTTP/1.1 500 Broken\r\nContent-Length: 2\r\n\r\nno").is_err());
    assert!(read_reply(b"nonsense\r\n\r\n").is_err());
    assert!(read_reply(b"HTTP/1.1 200 OK\r\nContent-Length: 99999999\r\n\r\n").is_err());
    assert!(read_reply(b"HTTP/1.1 200 OK\r\nContent-Length: 9\r\n\r\nshort").is_err());
}

#[test]
fn values_are_found_by_their_path() {
    let data = json(r#"{"a":{"b":[1,2]}}"#);
    assert_eq!(extract(&data, "a.b").map(write_json).as_deref(), Some("[1,2]"));
    assert!(extract(&data, "a.c").is_none());
}

#[test]
fn operations_list_describe_and_call() {
    let policy = policy_with(HTTP);
    match handle(&policy, &object(r#"{"operation":"list"}"#)) {
        LocalApiStep::Answer(Ok(result)) => assert!(list_field(&result, "endpoints").is_some()),
        _ => panic!("no list"),
    }
    match handle(&policy, &object(r#"{"operation":"call","endpoint":"ep","action":"get","params":{"id":"x"}}"#)) {
        LocalApiStep::Call { endpoint, action, params } => {
            assert_eq!((endpoint.name.as_str(), action.as_str()), ("ep", "get"));
            assert_eq!(text_field(&params, "id"), Some("x"));
        },
        _ => panic!("no call"),
    }
    for bad in [
        r#"{"operation":"nonsense"}"#,
        r#"{"operation":"call","endpoint":"nope","action":"get"}"#,
        r#"{"operation":"call","endpoint":"ep","action":"nope"}"#,
    ] {
        assert!(matches!(handle(&policy, &object(bad)), LocalApiStep::Answer(Err(_))), "{bad}");
    }
}

#[test]
fn calls_end_with_what_was_selected() {
    let e = endpoint(HTTP);
    let mut cache = CompatCache::new();
    let answer = Ok(json(r#"{"Name":"one","Secret":"x"}"#));
    let result = finish_call(&e, "get", answer, &mut cache).unwrap();
    assert_eq!(write_json(field(&result, "result").unwrap()), r#"{"Name":"one"}"#);
    assert_eq!(text_field(&result, "operation"), Some("call"));
}

#[test]
fn endpoints_are_probed_once() {
    let e = endpoint(RPC);
    let mut cache = CompatCache::new();
    assert!(matches!(admission(&e, &cache), Admission::Probe(_)));
    assert!(judge(&e, Ok(json(r#"{"major":20}"#)), &mut cache).is_ok());
    assert!(matches!(admission(&e, &cache), Admission::Proceed));
    cache.forget("ep");
    assert!(matches!(admission(&e, &cache), Admission::Probe(_)));
    assert!(judge(&e, Ok(json(r#"{"major":21}"#)), &mut cache).is_err());
    assert!(matches!(admission(&e, &cache), Admission::Refuse(_)));
    assert!(matches!(admission(&endpoint(HTTP), &cache), Admission::Proceed));
}

#[test]
fn relays_take_whole_lines_within_the_cap() {
    assert_eq!(relay_step(&b"{\"a\"".to_vec()), RelayStep::More);
    assert_eq!(relay_step(&b"{}\n".to_vec()), RelayStep::Done);
    assert_eq!(relay_step(&vec![b'x'; 8_388_609]), RelayStep::TooLarge);
    assert!(relay_refusal(&b"{}\n".to_vec()).is_none());
    assert!(relay_refusal(&Vec::new()).is_some());
}

#[test]
fn relays_that_fail_say_how() {
    let raw = r#"{"transport":"unix","protocol":"jsonrpc","path":"/run/x.sock","run_as":"userx",
        "actions":{"a":{"method":"a"}}}"#;
    let e = endpoint(raw);
    assert!(relay_result(&e, "/bin/x", Some(0), b"{}\n".to_vec(), b"").is_ok());
    assert!(relay_result(&e, "/bin/x", Some(1), Vec::new(), b"sudo: a password is required").is_err());
    assert!(!relay_timeout(&e).code.is_empty());
    assert!(relay_not_started("gone").message.contains("gone"));
}

#[test]
fn troubles_name_the_endpoint() {
    let e = endpoint(HTTP);
    for t in [
        Trouble::OpenTimeout,
        Trouble::Open("e".to_owned()),
        Trouble::WriteTimeout,
        Trouble::Write("e".to_owned()),
        Trouble::AnswerTimeout,
        Trouble::Read("e".to_owned()),
    ] {
        assert!(!trouble(&e, t).message.is_empty());
    }
    assert!(connect_refusal(&e).is_none());
    assert_eq!(quote_list(&vec!["a".to_owned(), "b".to_owned()]), r#"["a", "b"]"#);
}
