use sentinelx::edit::{
    backup_path, check_target, edit_result, edit_start, edit_text, install_argv, interpret_escapes, replace_count,
    staged_name, temporary_name, transform, validate_payload, FileOwner,
};
use sentinelx::json::{field, flag_field, into_object, text_field, Json, Object};
use sentinelx::policy::{FileAccess, FileOpsPath, Policy, Resolution};
use sentinelx::validators::{
    check_document, unified_diff, validator_failure, validator_plan, DocumentKind, ValidatorPlan,
};
use sentinelx::wire::{read_json, write_json};

fn object(text: &str) -> Object {
    into_object(read_json(text.as_bytes()).unwrap())
}

fn changed(mode: &str, original: &str, payload: &str) -> Result<(String, u64), String> {
    transform(mode, original, &object(payload)).map_err(|e| e.code)
}

fn policy() -> Policy {
    Policy {
        file_ops_paths: vec![FileOpsPath { path: "/w".to_owned(), access: FileAccess::ReadWrite }],
        ..Policy::default()
    }
}

fn seen(candidate: &str) -> Resolution {
    Resolution { candidate: Some(candidate.to_owned()), allowed: vec![Some("/w".to_owned())] }
}

#[test]
fn every_mode_changes_text_its_own_way() {
    assert_eq!(changed("write", "old", r#"{"new_text":"new"}"#).unwrap().0, "new");
    assert_eq!(changed("append", "a", r#"{"new_text":"b"}"#).unwrap().0, "ab");
    assert_eq!(changed("prepend", "a", r#"{"new_text":"b"}"#).unwrap().0, "ba");
    assert_eq!(changed("replace", "x y x", r#"{"old":"x","new_text":"z"}"#).unwrap(), ("z y z".to_owned(), 2));
    assert_eq!(
        changed("replace", "x y x", r#"{"old":"x","new_text":"z","count":1}"#).unwrap(),
        ("z y x".to_owned(), 1)
    );
    assert_eq!(
        changed("regex", "a1b22", r#"{"pattern":"[0-9]+","new_text":"_"}"#).unwrap(),
        ("a_b_".to_owned(), 2)
    );
    assert_eq!(
        changed("regex", "k=v", r#"{"pattern":"(\\w)=(\\w)","new_text":"$2=$1"}"#).unwrap().0,
        "v=k"
    );
}

#[test]
fn texts_that_are_not_there_are_told() {
    assert_eq!(changed("replace", "abc", r#"{"old":"x","new_text":"z"}"#).unwrap(), ("abc".to_owned(), 0));
    assert_eq!(changed("regex", "abc", r#"{"pattern":"[","new_text":"z"}"#), Err("invalid_payload".to_owned()));
    let block = r#"{"start_marker":"<","end_marker":">","new_text":"[]"}"#;
    assert_eq!(changed("replace-block", "a<b>c>d", block).unwrap(), ("a[]c>d".to_owned(), 1));
    assert_eq!(changed("replace-block", "abc", block), Err("start_marker_not_found".to_owned()));
    assert_eq!(changed("replace-block", "a<bc", block), Err("end_marker_not_found".to_owned()));
    assert_eq!(changed("nonsense", "a", "{}"), Err("invalid_payload".to_owned()));
}

#[test]
fn half_written_requests_are_refused() {
    for (mode, payload) in [
        ("nonsense", "{}"),
        ("replace", r#"{"new_text":"x"}"#),
        ("replace", r#"{"old":"x"}"#),
        ("regex", r#"{"pattern":"","new_text":"x"}"#),
        ("replace-block", r#"{"start_marker":"a","new_text":"x"}"#),
        ("write", "{}"),
        ("write", r#"{"new_text":"x","count":-1}"#),
        ("write", r#"{"new_text":"x","validator":"a","validator_preset":"json"}"#),
        ("write", r#"{"new_text":"x","validator_preset":"nope"}"#),
    ] {
        assert_eq!(validate_payload(mode, &object(payload)).unwrap_err().code, "invalid_payload", "{mode} {payload}");
    }
    assert!(validate_payload("write", &object(r#"{"new_text":""}"#)).is_ok());
}

#[test]
fn escapes_are_read_only_where_asked() {
    assert_eq!(interpret_escapes("a\\nb\\tc\\\\d"), "a\nb\tc\\d");
    assert_eq!(interpret_escapes("plain"), "plain");
    assert_eq!(interpret_escapes("\\q\\"), "\\q\\");
    assert_eq!(changed("write", "", r#"{"new_text":"a\\nb"}"#).unwrap().0, "a\\nb");
    assert_eq!(changed("write", "", r#"{"new_text":"a\\nb","interpret_escapes":true}"#).unwrap().0, "a\nb");
}

#[test]
fn replacements_are_counted() {
    assert_eq!(replace_count("aaa", "a", "b", 2), ("bba".to_owned(), 2));
    assert_eq!(replace_count("aaa", "x", "b", 9), ("aaa".to_owned(), 0));
}

#[test]
fn edits_stay_in_writable_paths() {
    let payload = object(r#"{"path":"/w/x.txt","mode":"write","new_text":"n"}"#);
    let start = edit_start(&policy(), &payload, &seen("/w/x.txt")).unwrap();
    assert_eq!((start.target.as_str(), start.mode.as_str()), ("/w/x.txt", "write"));
    let outside = object(r#"{"path":"/etc/x","mode":"write","new_text":"n"}"#);
    assert_eq!(edit_start(&policy(), &outside, &seen("/etc/x")).err().unwrap().code, "path_not_allowed");
    assert!(check_target(&payload, true).is_ok());
}

#[test]
fn edited_text_is_told_with_its_changes() {
    let payload = object(r#"{"path":"/w/x","mode":"append","new_text":"b"}"#);
    assert_eq!(edit_text("append", "a", &payload).unwrap().0, "ab");
    let result = edit_result(&payload, "/w/x", "append", 1, "0.01", None, None, None);
    assert_eq!(flag_field(&result, "ok"), Some(true));
    assert_eq!(text_field(&result, "path"), Some("/w/x"));
    assert!(field(&result, "mode").is_some());
}

#[test]
fn staged_files_stand_beside_their_target() {
    assert_ne!(staged_name("/w/x.txt", 1), staged_name("/w/x.txt", 2));
    assert_ne!(temporary_name("/w/x.txt", 1), temporary_name("/w/x.txt", 2));
    let backup = backup_path("/w/x.txt", None, 1_790_024_400, 7);
    assert!(backup.starts_with("/w/"));
    let elsewhere = backup_path("/w/x.txt", Some("/backups"), 1_790_024_400, 7);
    assert!(elsewhere.starts_with("/backups/"));
    let argv = install_argv(Some(FileOwner { mode: 0o644, uid: 1, gid: 2 }), "/s", "/t");
    assert!(argv.contains(&"/s".to_owned()) && argv.contains(&"/t".to_owned()));
}

#[test]
fn yaml_validation_rejects_bad_candidate_without_touching_target() {
    let payload = object(r#"{"path":"/w/x.yaml","mode":"write","new_text":"bad: [\n","validator_preset":"yaml"}"#);
    match validator_plan(&payload, "/w/x.yaml").unwrap() {
        ValidatorPlan::Document(kind) => {
            assert_eq!(kind, DocumentKind::Yaml);
            assert_eq!(check_document(kind, "bad: [\n", "/w/x.yaml").unwrap_err().code, "validation_failed");
            assert!(check_document(kind, "ok: true\n", "/w/x.yaml").is_ok());
        },
        _ => panic!("no document"),
    }
}

#[test]
fn every_kind_of_document_is_checked() {
    assert!(check_document(DocumentKind::Json, "{}", "/x").is_ok());
    assert_eq!(check_document(DocumentKind::Json, "{", "/x").unwrap_err().code, "validation_failed");
    assert!(check_document(DocumentKind::Toml, "a = 1\n", "/x").is_ok());
    assert_eq!(check_document(DocumentKind::Toml, "a = = 1", "/x").unwrap_err().code, "validation_failed");
}

#[test]
fn validators_are_presets_or_commands() {
    assert!(matches!(validator_plan(&object("{}"), "/w/x"), Ok(ValidatorPlan::Nothing)));
    match validator_plan(&object(r#"{"validator":"nginx -t 'a b'"}"#), "/w/x").unwrap() {
        ValidatorPlan::Command(argv) => assert_eq!(&argv[..3], &["nginx", "-t", "a b"]),
        _ => panic!("no command"),
    }
    assert!(validator_plan(&object(r#"{"validator":"echo 'open"}"#), "/w/x").is_err());
    assert!(validator_failure(b"out", b"err").message.contains("err"));
}

#[test]
fn diffs_show_what_changed() {
    assert_eq!(unified_diff("a\nb\n", "a\nc\n", "/x"), "--- /x\n+++ /x\n a\n-b\n+c\n");
    let value = write_json(&Json::Text(unified_diff("", "n", "/x")));
    assert!(value.contains("+n"));
}
