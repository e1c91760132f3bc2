use sentinelx::json::{copy_object, count_field, flag_field, into_object, list_field, object_field, text_field, Json, Object};
use sentinelx::progressive_help::{capabilities_detail, select_help_response};
use sentinelx::wire::{read_json, write_json};

fn object(text: &str) -> Object {
    into_object(read_json(text.as_bytes()).unwrap())
}

fn full() -> Object {
    object(
        r#"{"agent":"sentinelx-cloud-core","version":"test","host_label":"host","summary":"summary","security_model":{"permission_errors":"explain","allowlist_errors":"explain"},
            "navigation":{"exec":"sentinel_exec"},"playbooks":{"names":["a","b"]}}"#,
    )
}

fn select(payload: &str) -> Result<Object, String> {
    select_help_response(&object(payload), full(), &Vec::new()).map_err(|e| e.code)
}

#[test]
fn path_selects_nested_value_and_neutralizes_tool_names() {
    let result = select(r#"{"path":"navigation.exec"}"#).unwrap();
    assert_eq!(text_field(&result, "value"), Some("op:exec"));
    let map = object_field(object_field(&result, "presentation").unwrap(), "tool_reference_map").unwrap();
    assert_eq!(text_field(map, "sentinel_exec"), Some("exec"));
}

#[test]
fn unknown_fields_are_rejected() {
    assert_eq!(select(r#"{"wat":true}"#), Err("invalid_payload".to_owned()));
}

#[test]
fn capabilities_detail_is_strict() {
    assert_eq!(capabilities_detail(&object("{}")).unwrap(), "full");
    assert_eq!(capabilities_detail(&object(r#"{"detail":"SUMMARY"}"#)).unwrap(), "summary");
    assert!(capabilities_detail(&object(r#"{"detail":"tiny"}"#)).is_err());
}

#[test]
fn paths_that_lead_nowhere_are_told() {
    assert!(select(r#"{"path":"navigation.nope"}"#).is_err());
    assert!(select(r#"{"topic":"nope"}"#).is_err());
}

#[test]
fn an_empty_request_gets_everything() {
    let result = select("{}").unwrap();
    let text = write_json(&Json::Object(result));
    assert!(text.contains("navigation"));
    assert!(text.contains("security_model"));
}

#[test]
fn playbooks_are_given_by_name() {
    let playbooks = vec![("deploy".to_owned(), Some(read_json(br#"{"steps":["one"]}"#).unwrap()))];
    let result = select_help_response(&object(r#"{"playbook":"deploy"}"#), full(), &playbooks).unwrap();
    assert!(write_json(&Json::Object(result)).contains("one"));
    assert!(select_help_response(&object(r#"{"playbook":"nope"}"#), full(), &playbooks).is_err());
}

#[test]
fn following_the_pages_gives_the_whole_list() {
    let help = || {
        object(
            r#"{"agent":"sentinelx-cloud-core","version":"test","host_label":"host",
                "steps":["one","sentinel_exec","three","four","five"]}"#,
        )
    };
    let whole = vec!["one", "op:exec", "three", "four", "five"];
    for limit in 1..7_u64 {
        let mut ask = object(&format!(r#"{{"path":" steps ","limit":{limit}}}"#));
        let mut offset = 0;
        let mut gathered: Vec<String> = Vec::new();
        loop {
            let reply = select_help_response(&ask, help(), &Vec::new()).unwrap();
            let values = list_field(&reply, "value").unwrap();
            assert!(values.len() as u64 <= limit);
            for value in values {
                match value {
                    Json::Text(text) => gathered.push(text.clone()),
                    other => panic!("{other:?}"),
                }
            }
            let more = offset + limit < whole.len() as u64;
            assert_eq!(flag_field(object_field(&reply, "pagination").unwrap(), "truncated"), Some(more));
            let Some(next) = object_field(&reply, "next") else {
                assert!(!more);
                break;
            };
            assert!(more);
            offset += limit;
            let payload = object_field(next, "payload").unwrap();
            assert_eq!(count_field(payload, "offset"), Some(offset));
            ask = copy_object(payload);
        }
        assert_eq!(gathered, whole);
    }
}
