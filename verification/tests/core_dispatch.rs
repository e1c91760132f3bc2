use sentinelx::capabilities::{HostFacts, UNUSABLE_DETAIL};
use sentinelx::dispatch::{
    allowed_time, audit_facts, audit_limit, audit_result, implemented_ops, no_new_privileges, CoreDispatcher, HostState,
};
use sentinelx::handler_error::HandlerError;
use sentinelx::json::{count_field, field, has_field, into_object, list_field, object_field, text_field, Json, Object};
use sentinelx::message::Message;
use sentinelx::op::Op;
use sentinelx::policy::{FileAccess, FileOpsPath, Policy, ServiceSpec};
use sentinelx::time::{Duration, Timestamp};
use sentinelx::wire::{read_json, write_json};

fn json(text: &str) -> Json {
    read_json(text.as_bytes()).unwrap()
}

fn object(text: &str) -> Object {
    into_object(json(text))
}

fn shown(o: Object) -> String {
    write_json(&Json::Object(o))
}

fn dispatcher(policy: Policy) -> CoreDispatcher {
    CoreDispatcher::new(policy, "/tmp/config".to_owned(), "test".to_owned())
}

fn facts() -> HostFacts {
    HostFacts { hostname: "box".to_owned(), kernel: Some("6.1".to_owned()), arch: "x86_64".to_owned() }
}

fn service(unit: &str, actions: &[&str], requires_sudo: bool) -> ServiceSpec {
    ServiceSpec {
        unit: unit.to_owned(),
        actions: actions.iter().map(|a| (*a).to_owned()).collect(),
        requires_sudo,
        description: String::new(),
        domain: "system".to_owned(),
        backend: "service".to_owned(),
    }
}

#[test]
fn capabilities_are_derived_from_real_dispatch_surface() {
    let plain = dispatcher(Policy::default());
    let result = plain.capabilities_result(&object("{}"), &facts(), false).unwrap();
    let advertised = list_field(&result, "ops_supported").unwrap();
    assert_eq!(advertised.len(), implemented_ops().len() - 1);
    assert!(!advertised.iter().any(|value| *value == Json::Text("local_api".to_owned())));

    let mut policy = Policy::default();
    policy.local_apis.push((
        "fixture".to_owned(),
        Some(json(
            r#"{"transport":"unix","protocol":"http","path":"/tmp/fixture.sock","actions":{"ping":{"request":"GET /ping"}}}"#,
        )),
    ));
    let capabilities = dispatcher(policy).capabilities();
    assert_eq!(
        capabilities.iter().filter(|name| name.as_str() != "opaque_ref").count(),
        implemented_ops().len()
    );
    assert!(capabilities.iter().any(|name| name == "local_api"));
}

#[test]
fn unusable_commands_reports_only_sudo_under_no_new_privileges() {
    let commands = vec!["sudo systemctl".to_owned(), "/usr/bin/sudo -n true".to_owned(), "echo".to_owned()];
    let value = into_object(CoreDispatcher::unusable_commands_for(&commands, true));
    assert_eq!(text_field(&value, "reason"), Some("no_new_privileges"));
    assert_eq!(text_field(&value, "detail"), Some(UNUSABLE_DETAIL));
    assert_eq!(
        write_json(field(&value, "commands").unwrap()),
        r#"["sudo systemctl","/usr/bin/sudo -n true"]"#
    );

    assert_eq!(write_json(&CoreDispatcher::unusable_commands_for(&commands, false)), "{}");
}

#[test]
fn unusable_commands_ignores_empty_and_whitespace_wildcards() {
    let commands = vec!["".to_owned(), "   ".to_owned(), "echo".to_owned()];
    assert_eq!(write_json(&CoreDispatcher::unusable_commands_for(&commands, true)), "{}");
}

#[test]
fn help_operations_only_recommends_live_reachable_surfaces() {
    let policy = Policy {
        disabled_ops: ["edit", "script_run", "upload_file", "upload_init", "read_audit"]
            .iter()
            .map(|op| (*op).to_owned())
            .collect(),
        ..Policy::default()
    };
    let response = dispatcher(policy).help(&object(r#"{"topic":"operations"}"#)).unwrap();
    let navigation = object_field(&response, "navigation").unwrap();

    assert_eq!(navigation.len(), 2);
    assert!(has_field(navigation, "capabilities"));
    assert!(has_field(navigation, "state"));
    assert!(!has_field(navigation, "exec"));
    assert!(!has_field(navigation, "read / list / search"));
    assert!(!has_field(navigation, "service / restart"));
    assert!(!has_field(navigation, "playbooks"));
}

#[test]
fn help_access_tells_deny_all_host_to_change_config_on_host() {
    let policy = Policy { disabled_ops: vec!["edit".to_owned()], ..Policy::default() };
    let response = dispatcher(policy).help(&object(r#"{"topic":"access"}"#)).unwrap();
    let note = text_field(object_field(&response, "extending_access").unwrap(), "note").unwrap();

    assert!(note.contains("cannot edit its own config remotely"));
    assert!(note.contains("ON the host"));
}

#[test]
fn help_navigation_requires_real_prerequisites() {
    let policy = Policy {
        allowed_commands: vec!["git".to_owned()],
        file_ops_paths: vec![FileOpsPath { path: "/srv".to_owned(), access: FileAccess::ReadWrite }],
        services: vec![("fixture".to_owned(), service("fixture.service", &["status"], false))],
        ..Policy::default()
    };
    let navigation = dispatcher(policy).help_navigation();

    for key in [
        "read / list / search",
        "edit",
        "move / copy / delete / chmod / chown",
        "exec",
        "service / restart",
    ] {
        assert!(has_field(&navigation, key), "missing live help entry: {key}");
    }
}

#[test]
fn read_only_service_action_does_not_add_sudo() {
    let policy = Policy {
        services: vec![("fixture".to_owned(), service("definitely-not-real.service", &["is-active", "restart"], true))],
        ..Policy::default()
    };
    let d = dispatcher(policy);
    let plan = d.service_plan(&object(r#"{"service":"fixture","action":"is-active"}"#), false).unwrap();
    assert!(!plan.command.contains("sudo"));
    assert!(plan.command.contains("definitely-not-real.service"));
    let plan = d.service_plan(&object(r#"{"service":"fixture","action":"restart"}"#), false).unwrap();
    assert!(plan.command.starts_with("sudo "));
    let plan = d.service_plan(&object(r#"{"service":"fixture"}"#), true).unwrap();
    assert!(plan.command.contains("restart"));
}

#[test]
fn services_out_of_policy_are_refused() {
    let policy = Policy {
        services: vec![("web".to_owned(), service("web.service", &["status"], false))],
        ..Policy::default()
    };
    let d = dispatcher(policy);
    assert!(d.service_plan(&object(r#"{"service":"web","action":"stop"}"#), false).is_err());
    assert!(d.service_plan(&object(r#"{"service":"db","action":"status"}"#), false).is_err());
    assert!(d.service_plan(&object(r#"{"action":"status"}"#), false).is_err());
}

#[test]
fn commands_run_only_where_the_policy_allows() {
    let policy = Policy { allowed_commands: vec!["printf".to_owned()], ..Policy::default() };
    let d = dispatcher(policy);
    let plan = d.exec_plan(&object(r#"{"command":"printf ok"}"#)).unwrap();
    assert_eq!(plan.command, "printf ok");
    assert_eq!(plan.timeout, Duration::from_secs(60));
    assert_eq!(d.exec_plan(&object(r#"{"command":"curl x"}"#)).err().unwrap().code, "command_not_allowed");
    assert_eq!(d.exec_plan(&object("{}")).err().unwrap().code, "invalid_payload");
}

#[test]
fn strict_policies_look_into_commands() {
    let policy = Policy { allowed_commands: vec!["make".to_owned()], exec_strict: true, ..Policy::default() };
    let d = dispatcher(policy);
    assert!(d.exec_plan(&object(r#"{"command":"make && echo done"}"#)).is_ok());
    assert!(d.exec_plan(&object(r#"{"command":"make; curl bad"}"#)).is_err());
    assert!(d.exec_plan(&object(r#"{"command":"make $(id)"}"#)).is_err());
}

#[test]
fn disabled_operations_are_neither_served_nor_told() {
    let policy = Policy { disabled_ops: vec!["exec".to_owned()], ..Policy::default() };
    let d = dispatcher(policy);
    assert!(!d.op_enabled(Op::Exec));
    assert!(d.check_op(Op::Exec).is_err());
    assert!(!d.enabled_ops().iter().any(|name| name == "exec"));
    assert!(d.op_enabled(Op::Ping));
    assert!(d.check_op(Op::Ping).is_ok());
}

#[test]
fn times_stay_within_the_ceiling() {
    assert_eq!(allowed_time(None, 60, 600), Duration::from_secs(60));
    assert_eq!(allowed_time(Some(&json("5")), 60, 600), Duration::from_secs(5));
    assert_eq!(allowed_time(Some(&json("9999")), 60, 600), Duration::from_secs(600));
    assert_eq!(allowed_time(Some(&json("1.5")), 60, 600), Duration::from_millis(1500));
    assert_eq!(allowed_time(Some(&json("-3")), 60, 600), Duration::from_millis(1));
}

#[test]
fn responses_hold_a_result_or_an_error() {
    match CoreDispatcher::response("x", Ok(object(r#"{"a":1}"#))) {
        Message::Response { id, ok, result, error } => {
            assert_eq!((id.as_str(), ok, error), ("x", true, None));
            assert_eq!(shown(result.unwrap()), r#"{"a":1}"#);
        },
        _ => panic!("no response"),
    }
    match CoreDispatcher::response("x", Err(HandlerError::new("c", "m"))) {
        Message::Response { ok, result, error, .. } => {
            assert!(!ok && result.is_none());
            assert_eq!(error.unwrap().code, "c");
        },
        _ => panic!("no response"),
    }
}

#[test]
fn state_tells_of_the_host() {
    let d = dispatcher(Policy::default());
    let state = d.state(&HostState {
        hostname: "box".to_owned(),
        release_file: Some("6.1.0\n".to_owned()),
        os_release: Some("PRETTY_NAME=\"Debian\"\n".to_owned()),
        arch: "x86_64".to_owned(),
        now: Timestamp { secs: 0, nanos: 0 },
        uptime: Some("12.5 3.0".to_owned()),
        loadavg: Some("0.5 0.25 1.0 1/2 3".to_owned()),
    });
    assert_eq!(text_field(&state, "hostname"), Some("box"));
    assert_eq!(write_json(field(&state, "uptime_seconds").unwrap()), "12.5");
}

#[test]
fn ping_is_answered() {
    assert_eq!(shown(dispatcher(Policy::default()).ping()), r#"{"agent_version":"test","pong":true}"#);
}

#[test]
fn privileges_are_read_from_the_status() {
    assert!(no_new_privileges(Some("Name:\tx\nNoNewPrivs:\t1\n")));
    assert!(!no_new_privileges(Some("NoNewPrivs:\t0\n")));
    assert!(!no_new_privileges(None));
}

#[test]
fn audits_are_limited_and_told_with_their_source() {
    assert_eq!(audit_limit(&object("{}")), 200);
    assert_eq!(audit_limit(&object(r#"{"limit":-4}"#)), 1);
    assert_eq!(audit_limit(&object(r#"{"limit":99999}"#)), 5000);
    assert_eq!(audit_limit(&object(r#"{"limit":5}"#)), 5);
    let result = audit_result(vec![json(r#"{"n":1}"#)], "/var/log/a");
    assert_eq!(shown(result), r#"{"count":1,"entries":[{"n":1}],"max_retained":5000,"source":"/var/log/a"}"#);
}

#[test]
fn audited_facts_come_from_the_response() {
    let response = CoreDispatcher::response("x", Ok(object(r#"{"ok":true,"returncode":3}"#)));
    let facts = audit_facts(&response);
    assert!(facts.dispatch_ok);
    assert_eq!(facts.result_ok, Some(true));
    assert_eq!(facts.result_returncode, Some(3));
    let refused = audit_facts(&CoreDispatcher::response("x", Err(HandlerError::new("c", "m"))));
    assert!(!refused.dispatch_ok);
    assert_eq!(refused.error.as_deref(), Some("c: m"));
    for code in ["command_not_allowed", "validation_failed"] {
        let quoting = audit_facts(&CoreDispatcher::response("x", Err(HandlerError::new(code, "segment \"rm -rf /x\""))));
        assert_eq!(quoting.error.as_deref(), Some(code));
    }
}

#[test]
fn short_capabilities_count_what_the_full_ones_list() {
    let policy = Policy {
        allowed_commands: vec!["ls".to_owned(), "sudo ls".to_owned()],
        services: vec![("db".to_owned(), service("db", &["status"], true)), ("web".to_owned(), service("web", &[], false))],
        file_ops_paths: vec![
            FileOpsPath { path: "/a".to_owned(), access: FileAccess::Read },
            FileOpsPath { path: "/b".to_owned(), access: FileAccess::ReadWrite },
            FileOpsPath { path: "/c".to_owned(), access: FileAccess::Read },
        ],
        trusted_fetch_hosts: vec!["example.com".to_owned()],
        ..Policy::default()
    };
    let told = dispatcher(policy);
    let full = told.capabilities_result(&object("{}"), &facts(), false).unwrap();
    let short = told.capabilities_result(&object(r#"{"detail":"summary"}"#), &facts(), false).unwrap();
    let mut ops = told.capabilities();
    ops.retain(|op| op != "opaque_ref");
    ops.sort();
    let ops: Vec<Json> = ops.into_iter().map(Json::Text).collect();
    assert_eq!(*list_field(&full, "ops_supported").unwrap(), ops);
    assert_eq!(*list_field(&short, "ops_supported").unwrap(), ops);
    let counted = |key: &str| count_field(object_field(&short, "policy_summary").unwrap(), key).unwrap() as usize;
    assert_eq!(counted("allowed_commands"), list_field(&full, "allowed_commands").unwrap().len());
    assert_eq!(counted("services"), object_field(&full, "services").unwrap().len());
    let file_ops = object_field(&full, "file_ops").unwrap();
    assert_eq!(counted("file_ops_paths"), list_field(file_ops, "paths").unwrap().len());
    assert_eq!(counted("writable_paths"), list_field(file_ops, "writable_paths").unwrap().len());
    assert_eq!(counted("writable_paths"), 1);
    assert_eq!(counted("trusted_fetch_hosts"), 1);
    assert!(has_field(object_field(&full, "locations").unwrap(), "config"));
}
