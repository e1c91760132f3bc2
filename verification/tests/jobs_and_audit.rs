use sentinelx::jobs::{build_completed_event_data, hundredths_text, truncate_output, MAX_EVENT_OUTPUT_BYTES};
use sentinelx::json::{field, flag_field, into_object, set_field, string, text_field, Json, Object};
use sentinelx::local_audit::{
    audit_path, entry, entry_line, maybe_trim, next_block, recent_entries, tail_lines, RetentionState, DEFAULT_AUDIT_PATH, MAX_LINES,
    TRIM_TRIGGER,
};
use sentinelx::message::{Message, ResponseError};
use sentinelx::pending_results::{
    evicted, json_files, judge, judge_text, kept_text, pending_dir, pending_file_path, safe_name, temporary_name, wrap_event, KeptFile, Verdict,
    PENDING_TTL_SECS,
};
use sentinelx::shell::{merged_text, shell_env, shell_result, ShellOutcome};
use sentinelx::time::Timestamp;
use sentinelx::wire::{read_json, write_json};

fn json(text: &str) -> Json {
    read_json(text.as_bytes()).unwrap()
}

fn object(text: &str) -> Object {
    into_object(json(text))
}

fn shown(o: Object) -> String {
    write_json(&Json::Object(o))
}

/// 2026-09-21 21:00:00, and 1.234 seconds later.
fn times() -> (Timestamp, Timestamp) {
    (
        Timestamp { secs: 1_790_024_400, nanos: 0 },
        Timestamp { secs: 1_790_024_401, nanos: 234_000_000 },
    )
}

fn response(ok: bool, result: Option<Object>) -> Message {
    Message::Response { id: "req".to_owned(), ok, result, error: None }
}

fn completed(response: &Message) -> Object {
    let (start, finish) = times();
    build_completed_event_data("job", "exec", "host", response, start, finish)
}

fn event(job: &str) -> Json {
    json(&format!(r#"{{"kind":"job_completed","data":{{"job_id":"{job}","status":"failed"}}}}"#))
}

fn kept(age: u128, name: &str) -> KeptFile {
    (age, name.to_owned())
}

#[test]
fn returncode_zero_maps_to_succeeded() {
    let data = completed(&response(true, Some(object(r#"{"returncode":0,"output":"ok"}"#))));
    assert_eq!(text_field(&data, "status"), Some("succeeded"));
    assert_eq!(write_json(field(&data, "exit_code").unwrap()), "0");
    assert_eq!(text_field(&data, "output"), Some("ok"));
    assert_eq!(write_json(field(&data, "duration_s").unwrap()), "1.23");
}

#[test]
fn nonzero_and_missing_returncode_map_to_failed() {
    for result in [r#"{"returncode":7}"#, "{}"] {
        let data = completed(&response(true, Some(object(result))));
        assert_eq!(text_field(&data, "status"), Some("failed"));
    }
}

#[test]
fn timed_out_overrides_returncode() {
    let data = completed(&response(true, Some(object(r#"{"returncode":0,"timed_out":true}"#))));
    assert_eq!(text_field(&data, "status"), Some("timeout"));
}

#[test]
fn handler_error_maps_to_failed_with_message() {
    let response = Message::Response {
        id: "req".to_owned(),
        ok: false,
        result: None,
        error: Some(ResponseError { code: "bad".to_owned(), message: "fixture failed".to_owned(), details: None }),
    };
    let data = completed(&response);
    assert_eq!(text_field(&data, "status"), Some("failed"));
    assert_eq!(field(&data, "exit_code"), Some(&Json::Null));
    assert_eq!(text_field(&data, "error"), Some("fixture failed"));
}

#[test]
fn oversized_output_is_byte_bounded_and_flagged() {
    let mut result = object(r#"{"returncode":0}"#);
    set_field(&mut result, "output", string(&"x".repeat(MAX_EVENT_OUTPUT_BYTES + 100)));
    let data = completed(&response(true, Some(result)));
    assert_eq!(text_field(&data, "output").unwrap().len(), MAX_EVENT_OUTPUT_BYTES);
    assert_eq!(flag_field(&data, "output_truncated"), Some(true));
}

#[test]
fn outputs_are_cut_between_characters() {
    let text = "é".repeat(MAX_EVENT_OUTPUT_BYTES);
    let (short, cut) = truncate_output(&text);
    assert!(cut);
    assert!(short.len() <= MAX_EVENT_OUTPUT_BYTES);
    assert!(text.ends_with(&short) || text.starts_with(&short));
    assert_eq!(truncate_output("short"), ("short".to_owned(), false));
}

#[test]
fn durations_are_rounded_to_hundredths() {
    assert_eq!(hundredths_text(1234), "1.23");
    assert_eq!(hundredths_text(1236), "1.24");
    assert_eq!(hundredths_text(0), "0.0");
    assert_eq!(hundredths_text(2000), "2.0");
    assert_eq!(hundredths_text(1500), "1.5");
}

#[test]
fn pending_store_is_sibling_of_user_uploads() {
    assert_eq!(pending_dir("/var/lib/x/uploads"), "/var/lib/x/pending-results");
}

#[test]
fn job_id_cannot_escape_pending_directory() {
    let path = pending_file_path("/var/uploads", "../../etc/passwd");
    assert!(path.starts_with(&(pending_dir("/var/uploads") + "/")));
    assert!(!path.contains(".."));
    assert_eq!(path.matches('/').count(), pending_dir("/var/uploads").matches('/').count() + 1);
}

#[test]
fn names_of_jobs_are_plain() {
    assert_eq!(safe_name("job_abc-1"), "job_abc-1");
    assert_eq!(safe_name("a/b.c"), "abc");
    assert_eq!(safe_name("../"), "unnamed");
    assert!(safe_name(&"x".repeat(500)).len() <= 64);
    assert_ne!(temporary_name(1), temporary_name(2));
}

#[test]
fn recorded_result_is_returned_and_clear_removes_it() {
    let wrapped = wrap_event(&event("job_abc"), 1_000_000_000_000);
    match judge(Some(&wrapped), 1_000_000_000_000_000 + 5) {
        Verdict::Deliver(found) => assert_eq!(write_json(&found), write_json(&event("job_abc"))),
        Verdict::Remove => panic!("a fresh result was dropped"),
    }
}

#[test]
fn expired_and_corrupt_entries_are_removed() {
    let second: u128 = 1_000_000_000;
    let wrapped = wrap_event(&event("job_old"), 50_000_000);
    let late = (50 + PENDING_TTL_SECS as u128 + 10) * second;
    assert!(matches!(judge(Some(&wrapped), late), Verdict::Remove));
    assert!(matches!(judge(None, late), Verdict::Remove));
    assert!(matches!(judge(Some(&json("[]")), late), Verdict::Remove));
    assert!(matches!(judge(Some(&json(r#"{"at":1}"#)), second), Verdict::Remove));
}

#[test]
fn kept_texts_are_delivered_for_a_day() {
    let kept_at: u64 = 1_700_000_000_123_456;
    let nanos = u128::from(kept_at) * 1000;
    let day = u128::from(PENDING_TTL_SECS) * 1_000_000_000;
    let text = kept_text(&event("job_abc"), kept_at);
    assert!(text.starts_with(r#"{"at":1700000000.123456,"event":{"#));
    for now in [nanos, nanos + day - 1000] {
        match judge_text(Some(&text), now) {
            Verdict::Deliver(found) => assert_eq!(write_json(&found), write_json(&event("job_abc"))),
            Verdict::Remove => panic!("a waiting result was dropped"),
        }
    }
    assert!(matches!(judge_text(Some(&text), nanos + day + 1000), Verdict::Remove));
    assert!(matches!(judge_text(Some(&text[1..]), nanos), Verdict::Remove));
    assert!(matches!(judge_text(None, nanos), Verdict::Remove));
}

#[test]
fn backlog_is_capped_and_newest_name_survives() {
    let files: Vec<KeptFile> = (0..10).map(|i| kept(7, &format!("job_{i:04}.json"))).collect();
    let gone = evicted(files, 5);
    assert!(!gone.iter().any(|name| name == "job_0009.json"));
    assert_eq!(10 - gone.len(), 5);
}

#[test]
fn backlog_evicts_oldest_file_not_lexicographically_first_job_id() {
    let mut files = vec![kept(1, "zzz_oldest.json")];
    for i in 0..5_u128 {
        files.push(kept(100 + i, &format!("aaa_new_{i:04}.json")));
    }
    assert_eq!(evicted(files, 5), vec!["zzz_oldest.json"]);
}

#[test]
fn only_json_files_count() {
    let files = vec![kept(2, "b.json"), kept(1, "a.tmp"), kept(1, "a.json")];
    let left = json_files(files);
    assert_eq!(left.len(), 2);
    assert!(left.iter().all(|(_, name)| name.ends_with(".json")));
}

#[test]
fn read_recent_is_newest_first_and_malformed_rows_are_skipped() {
    let rows = recent_entries(&b"{\"n\":1}\nnot-json\n{\"n\":2}\n".to_vec(), 3);
    assert_eq!(rows.len(), 2);
    assert_eq!(write_json(&rows[0]), r#"{"n":2}"#);
    assert_eq!(write_json(&rows[1]), r#"{"n":1}"#);
}

#[test]
fn the_last_lines_are_taken() {
    let lines = tail_lines(&b"a\nb\nc\n".to_vec(), 2);
    assert_eq!(lines, vec![b"b".to_vec(), b"c".to_vec()]);
    assert_eq!(next_block(100, &b"x\n".to_vec(), 5), 100);
    assert_eq!(next_block(1_000_000, &Vec::new(), 5), 65_536);
    assert_eq!(next_block(0, &Vec::new(), 5), 0);
}

#[test]
fn long_audits_are_trimmed_to_the_newest_lines() {
    let mut file = Vec::new();
    for i in 0..(TRIM_TRIGGER + 1) {
        file.extend_from_slice(format!("line{i}\n").as_bytes());
    }
    let trimmed = maybe_trim(&file).unwrap();
    assert_eq!(trimmed.iter().filter(|b| **b == b'\n').count(), MAX_LINES);
    assert!(trimmed.ends_with(format!("line{TRIM_TRIGGER}\n").as_bytes()));
    assert!(maybe_trim(&b"one\n".to_vec()).is_none());
}

#[test]
fn audits_tell_which_operation_it_was_and_how_it_ended() {
    let row = entry("exec", true, None, 12, Some(true), Some(0), times().0).unwrap();
    assert_eq!(
        shown(row),
        r#"{"duration_ms":12,"error":null,"ok":true,"op":"exec","result_ok":true,"result_returncode":0,"timestamp":"2026-09-21T21:00:00Z"}"#
    );
    let failed = entry("read", false, Some("e"), 1, None, None, times().0).unwrap();
    assert_eq!(text_field(&failed, "error"), Some("e"));
    let keys: Vec<&str> = failed.iter().map(|(key, _)| key.as_str()).collect();
    assert_eq!(keys, ["duration_ms", "error", "ok", "op", "timestamp"]);
    assert!(entry("ping", true, None, 1, None, None, times().0).is_none());
    assert!(entry("read_audit", true, None, 1, None, None, times().0).is_none());
}

#[test]
fn recorded_entries_are_read_back_newest_first() {
    let mut record: Vec<u8> = Vec::new();
    let mut rows = Vec::new();
    for n in 0..40 {
        let row = entry("exec", false, Some("a\nb"), n, None, None, times().0).unwrap();
        record.extend(entry_line(&row));
        rows.push(shown(row));
    }
    assert_eq!(record.iter().filter(|b| **b == b'\n').count(), 40);
    let mut cut = record.len();
    while next_block(cut as u64, &record[cut..].to_vec(), 7) > 0 {
        cut -= 1;
    }
    let end = record[cut..].to_vec();
    assert!(end.len() < record.len());
    for buffer in [&record, &end] {
        let read: Vec<String> = recent_entries(buffer, 7).iter().map(write_json).collect();
        let wanted: Vec<String> = rows.iter().rev().take(7).cloned().collect();
        assert_eq!(read, wanted);
    }
}

#[test]
fn audits_go_where_the_environment_says() {
    assert_eq!(audit_path(Some("/x/y.jsonl".to_owned())), "/x/y.jsonl");
    assert_eq!(audit_path(None), DEFAULT_AUDIT_PATH);
}

#[test]
fn retention_is_checked_first_and_then_now_and_then() {
    let mut state = RetentionState::default();
    assert!(state.should_check_retention());
    let checks = (0..200).filter(|_| state.should_check_retention()).count();
    assert_eq!(checks, 2);
}

#[test]
fn shell_merges_stdout_and_stderr_like_python_core() {
    let outcome = ShellOutcome::Exited { code: Some(0), stdout: b"out".to_vec(), stderr: b"err".to_vec() };
    let result = shell_result(&outcome, "0.5");
    assert_eq!(shown(result), r#"{"duration":0.5,"output":"out\nerr","returncode":0}"#);
    assert_eq!(merged_text(&b" a \n".to_vec(), &Vec::new()), "a");
    assert_eq!(merged_text(&Vec::new(), &b"b\n".to_vec()), "b");
}

#[test]
fn empty_output_uses_legacy_marker() {
    let outcome = ShellOutcome::Exited { code: Some(0), stdout: Vec::new(), stderr: Vec::new() };
    assert_eq!(text_field(&shell_result(&outcome, "0.0"), "output"), Some("⚠️ Sin salida"));
}

#[test]
fn timeout_is_structured() {
    let result = shell_result(&ShellOutcome::TimedOut, "0.05");
    assert_eq!(write_json(field(&result, "returncode").unwrap()), "-1");
    assert_eq!(flag_field(&result, "timed_out"), Some(true));
    let failed = shell_result(&ShellOutcome::Failed("gone".to_owned()), "0.0");
    assert_eq!(text_field(&failed, "output"), Some("❌ Error: gone"));
}

#[test]
fn environments_hold_texts() {
    let env = shell_env(&object(r#"{"A":"1","B":2,"C":true}"#));
    assert_eq!(env, vec![("A".to_owned(), "1".to_owned())]);
}
