use sentinelx::fileops::{
    access_error, binary_result, detect_encoding, enters, file_label, kind, list_plan, open_error, parse_range, read_plan,
    read_result, resolve, search_plan, skip_dir, skip_search_file, AccessFault, Encoding, Listed, Listing, Search,
};
use sentinelx::fsmutate::{
    backup_path, check_delete, check_pair, check_present, chmod_result, chown_failure, chown_result, copy_result,
    delete_result, delete_target, mode_plan, move_failure, move_result, owner_plan, pair_plan,
};
use sentinelx::json::{count_field, field, flag_field, into_object, list_field, text_field, Json, Object};
use sentinelx::policy::{FileAccess, FileOpsPath, Policy, Resolution};
use sentinelx::scan::{clip, LineRange, Utf16Scan, Utf8Scan};
use sentinelx::time::Timestamp;
use sentinelx::wire::{read_json, write_json};

fn object(text: &str) -> Object {
    into_object(read_json(text.as_bytes()).unwrap())
}

fn shown(o: Object) -> String {
    write_json(&Json::Object(o))
}

fn policy(access: FileAccess) -> Policy {
    Policy { file_ops_paths: vec![FileOpsPath { path: "/w".to_owned(), access }], ..Policy::default() }
}

fn seen(candidate: &str) -> Resolution {
    Resolution { candidate: Some(candidate.to_owned()), allowed: vec![Some("/w".to_owned())] }
}

fn time() -> Timestamp {
    Timestamp { secs: 1_790_024_400, nanos: 0 }
}

fn search(payload: &str, needle: &str) -> Search {
    Search::new(search_plan(&policy(FileAccess::Read), &object(payload), needle).unwrap())
}

/// Searches one file, line by line.
fn look_through(search: &mut Search, name: &str, text: &str) {
    if !search.begin_file(text.as_bytes()) {
        return;
    }
    for (i, line) in text.lines().enumerate() {
        if !search.take_line(name, i as u64 + 1, line.as_bytes()) {
            break;
        }
    }
    search.end_file();
}

fn matches_of(search: Search) -> Vec<Object> {
    let result = search.result("/w");
    list_field(&result, "matches").unwrap().iter().map(|m| into_object(sentinelx::json::copy(m))).collect()
}

#[test]
fn permission_denied_is_not_reported_as_internal_io_error() {
    let error = access_error("/restricted/tree", AccessFault::PermissionDenied, "permission denied");
    assert_eq!(error.code, "permission_denied");
    assert!(error.message.contains("/restricted/tree"));
    assert_eq!(access_error("/x", AccessFault::NotFound, "e").code, "not_found");
    assert_eq!(access_error("/x", AccessFault::Other, "e").code, "io_error");
    assert_eq!(open_error("/x", AccessFault::PermissionDenied, "e").code, "permission_denied");
    assert_eq!(open_error("/x", AccessFault::NotFound, "e").code, "io_error");
}

#[test]
fn read_range_and_search_contracts() {
    let text = "one\ntwo needle\nthree\n";
    let plan = read_plan(&policy(FileAccess::Read), &object(r#"{"view_range":[2,3]}"#), "/w/a.txt", false, true);
    let plan = plan.ok().unwrap();
    assert!(plan.ranged);
    let mut scan = Utf8Scan::new(plan.range);
    scan.take_bytes(&text.as_bytes()[..9]);
    scan.take_bytes(&text.as_bytes()[9..]);
    let found = scan.result();
    let result = read_result("/w/a.txt", false, &found, 21, Some(time()), &plan);
    assert_eq!(text_field(&result, "content"), Some("two needle\nthree"));
    assert_eq!(write_json(field(&result, "view_range").unwrap()), "[2,3]");
    assert_eq!(count_field(&result, "lines_returned"), Some(2));
    assert_eq!(text_field(&result, "modified_at"), Some("2026-09-21T21:00:00+0000"));

    let mut s = search("{}", "needle");
    look_through(&mut s, "a.txt", text);
    assert_eq!(count_field(&matches_of(s)[0], "line"), Some(2));
}

#[test]
fn whole_files_are_read_within_the_cap() {
    let range = LineRange { start: 1, end: None, cap: 8 };
    let mut scan = Utf8Scan::new(range);
    scan.take_bytes(b"one\ntwo\nthree\n");
    let found = scan.result();
    assert!(found.truncated);
    assert!(found.content.len() <= 8);
    let mut whole = Utf8Scan::new(LineRange { start: 1, end: None, cap: 100 });
    whole.take_bytes("a\u{fffd}é\n".as_bytes());
    assert_eq!(whole.result().content, "a\u{fffd}é\n");
    assert_eq!(whole.result().total_lines, 1);
    assert!(!whole.result().truncated);
}

#[test]
fn utf16_files_are_read_in_both_orders() {
    let mut little = Utf16Scan::new(LineRange { start: 1, end: None, cap: 100 }, true);
    little.take_bytes(b"\xff\xfeh\0i\0");
    assert_eq!(little.result().content, "hi");
    let mut big = Utf16Scan::new(LineRange { start: 1, end: None, cap: 100 }, false);
    big.take_bytes(b"\xfe\xff\0h\0");
    big.take_bytes(b"i");
    assert_eq!(big.result().content, "hi");
}

#[test]
fn texts_are_clipped_between_characters() {
    assert_eq!(clip("aé".to_owned(), 2), "a");
    assert_eq!(clip("aé".to_owned(), 3), "aé");
}

#[test]
fn encodings_are_told_by_the_first_bytes() {
    assert_eq!(detect_encoding(b"plain"), Encoding::Utf8);
    assert_eq!(detect_encoding(b"\xff\xfea\0"), Encoding::Utf16 { little_endian: true });
    assert_eq!(detect_encoding(b"\xfe\xff\0a"), Encoding::Utf16 { little_endian: false });
    assert_eq!(detect_encoding(b"a\0b"), Encoding::Binary);
    let binary = binary_result("/w/b", 3, b"a\0b", None);
    assert_eq!(count_field(&binary, "size_bytes"), Some(3));
    assert_eq!(text_field(&binary, "preview_hex"), Some("610062"));
}

#[test]
fn ranges_are_given_in_lines() {
    assert_eq!(parse_range(&object("{}")).unwrap(), None);
    assert_eq!(parse_range(&object(r#"{"view_range":[-5,-1]}"#)).unwrap(), Some((1, None)));
    assert_eq!(parse_range(&object(r#"{"view_range":[4,2]}"#)).unwrap(), Some((4, Some(4))));
    for bad in [r#"{"view_range":3}"#, r#"{"view_range":[1]}"#, r#"{"view_range":["a",2]}"#, r#"{"view_range":[1,"b"]}"#] {
        assert_eq!(parse_range(&object(bad)).unwrap_err().code, "invalid_payload");
    }
}

#[test]
fn search_is_case_insensitive_by_default_and_reports_byte_column() {
    let mut s = search("{}", "needle");
    look_through(&mut s, "a.txt", "prefix NeEdLe suffix\n");
    let found = matches_of(s);
    assert_eq!(count_field(&found[0], "line"), Some(1));
    assert_eq!(count_field(&found[0], "column"), Some(8));
    assert_eq!(text_field(&found[0], "text"), Some("prefix NeEdLe suffix"));
    let mut s = search("{}", "needle");
    look_through(&mut s, "a.txt", "é needle\n");
    assert_eq!(count_field(&matches_of(s)[0], "column"), Some(4));
}

#[test]
fn search_case_sensitive_mode_rejects_case_mismatch() {
    let mut s = search(r#"{"case_sensitive":true}"#, "needle");
    look_through(&mut s, "a.txt", "NeEdLe\n");
    assert_eq!(matches_of(s).len(), 0);
}

#[test]
fn search_regex_mode_uses_ripgrep_matcher() {
    let mut s = search(r#"{"regex":true}"#, r"\d{3}");
    look_through(&mut s, "a.txt", "abc 123 xyz\n");
    assert_eq!(count_field(&matches_of(s)[0], "column"), Some(5));
}

#[test]
fn search_skips_binary_noise_dirs_and_nonmatching_globs() {
    let mut s = search(r#"{"file_glob":"*.rs"}"#, "needle");
    assert!(!enters("target", true));
    assert!(enters("target", false));
    for (name, text) in [("keep.rs", "needle\n"), ("wrong.txt", "needle\n"), ("binary.rs", "needle\0more\n")] {
        if s.searches(name, name) {
            look_through(&mut s, name, text);
        }
    }
    let result = s.result("/w");
    let matches = list_field(&result, "matches").unwrap();
    assert_eq!(matches.len(), 1);
    assert!(write_json(&matches[0]).contains(r#""file":"keep.rs""#));
    assert_eq!(count_field(&result, "files_searched"), Some(1));
    assert!(skip_dir(".git") && !skip_dir("src"));
    assert!(skip_search_file("a.PNG") && !skip_search_file("a.rs"));
}

#[test]
fn search_global_result_cap_sets_truncated() {
    let mut s = search(r#"{"max_results":1}"#, "needle");
    look_through(&mut s, "a.txt", "needle\nneedle\n");
    let result = s.result("/w");
    assert_eq!(list_field(&result, "matches").unwrap().len(), 1);
    assert_eq!(flag_field(&result, "truncated"), Some(true));
}

#[test]
fn search_single_file_preserves_basename_contract() {
    assert_eq!(file_label("/w/dir/a.txt", "/w/dir/a.txt"), "a.txt");
}

#[test]
fn invalid_regex_is_a_payload_error() {
    let error = search_plan(&policy(FileAccess::Read), &object(r#"{"regex":true}"#), "(").err().unwrap();
    assert_eq!(error.code, "invalid_payload");
    assert!(error.message.contains("valid regex"));
    let error = search_plan(&policy(FileAccess::Read), &object(r#"{"file_glob":"[["}"#), "x").err().unwrap();
    assert!(error.message.starts_with("invalid file_glob: "));
    assert!(search_plan(&policy(FileAccess::Read), &object(r#"{"file_glob":3}"#), "x").is_err());
}

#[test]
fn listings_keep_to_their_cap() {
    let plan = list_plan(&policy(FileAccess::Read), &object("{}"), "/w", true).ok().unwrap();
    let mut listing = Listing::new(plan);
    assert!(listing.enters("src") && listing.lists("a.txt"));
    assert!(!listing.enters(".hidden") && !listing.enters("node_modules"));
    listing.add_entry(Listed { name: "a.txt".to_owned(), kind: "file".to_owned(), size: 3, modified: Some(time()) });
    let result = listing.result("/w");
    assert_eq!(list_field(&result, "entries").unwrap().len(), 1);
    assert!(list_plan(&policy(FileAccess::Read), &object("{}"), "/w/f", false).is_err());
    assert_eq!(kind(true, false, false), "dir");
    assert_eq!(kind(false, true, false), "file");
    assert_eq!(kind(false, false, true), "symlink");
    assert_eq!(kind(false, false, false), "other");
}

#[test]
fn paths_out_of_policy_are_refused() {
    assert_eq!(resolve(&policy(FileAccess::Read), "/w/f", &seen("/w/f")).unwrap(), "/w/f");
    assert_eq!(resolve(&policy(FileAccess::Read), "/e/f", &seen("/e/f")).unwrap_err().code, "path_not_allowed");
}

#[test]
fn both_move_endpoints_require_rw() {
    let payload = object(r#"{"src":"/w/a","dst":"/w/b"}"#);
    let refused = pair_plan(&policy(FileAccess::Read), &payload, &seen("/w/a"), &seen("/w/b"));
    assert_eq!(refused.err().unwrap().code, "path_not_allowed");
    let half = pair_plan(&policy(FileAccess::ReadWrite), &payload, &seen("/w/a"), &seen("/e/b"));
    assert_eq!(half.err().unwrap().code, "path_not_allowed");
    let plan = pair_plan(&policy(FileAccess::ReadWrite), &payload, &seen("/w/a"), &seen("/w/b")).ok().unwrap();
    assert!(check_pair(&plan, true, false).is_ok());
    assert!(check_pair(&plan, false, false).is_err());
    assert!(check_pair(&plan, true, true).is_err());
    assert_eq!(flag_field(&move_result(&plan), "ok"), Some(true));
    assert_eq!(flag_field(&copy_result(&plan, true), "ok"), Some(true));
    assert_ne!(move_failure(true, "e").code, move_failure(false, "e").code);
}

#[test]
fn delete_requires_explicit_recursive_and_creates_backup() {
    let payload = object(r#"{"path":"/w/d"}"#);
    let (raw, path) = delete_target(&policy(FileAccess::ReadWrite), &payload, &seen("/w/d")).unwrap();
    assert_eq!((raw.as_str(), path.as_str()), ("/w/d", "/w/d"));
    assert!(check_delete(&payload, &raw, true, false, true).is_err());
    let recursive = object(r#"{"path":"/w/d","recursive":true}"#);
    assert!(check_delete(&recursive, &raw, true, false, true).is_ok());
    assert!(check_delete(&payload, &raw, false, false, false).is_err());
    let backup = backup_path(&path, true, time());
    assert!(backup.contains("20260921-210000"));
    assert!(shown(delete_result(&path, true, &backup)).contains(&backup));
}

#[test]
fn modes_and_owners_are_read_from_the_request() {
    let rw = policy(FileAccess::ReadWrite);
    let plan = mode_plan(&rw, &object(r#"{"path":"/w/f","mode":"0755"}"#), &seen("/w/f")).ok().unwrap();
    assert_eq!(plan.mode, 0o755);
    assert!(mode_plan(&rw, &object(r#"{"path":"/w/f","mode":"9"}"#), &seen("/w/f")).is_err());
    assert!(check_present("/w/f", false).is_err());
    assert!(field(&chmod_result(&plan), "mode").is_some());
    let owner = owner_plan(&rw, &object(r#"{"path":"/w/f","owner":"root","group":"adm"}"#), &seen("/w/f")).ok().unwrap();
    assert_eq!(owner.spec_text, "root:adm");
    assert!(owner_plan(&rw, &object(r#"{"path":"/w/f"}"#), &seen("/w/f")).is_err());
    assert!(field(&chown_result(&owner), "path").is_some());
    assert!(!chown_failure(b"chown: invalid user").code.is_empty());
}

#[test]
fn searches_end_where_the_bound_is_reached() {
    for (cap, expected, truncated) in [(1, 1, true), (2, 2, true), (3, 3, true), (4, 3, false)] {
        let mut search = search(&format!(r#"{{"max_results":{cap}}}"#), "x");
        for (name, text) in [("a", "x\nno\nx"), ("b", "no"), ("c", "x")] {
            let room = search.begin_file(text.as_bytes())
                && text.lines().all(|line| search.take_line(name, 1, line.as_bytes()));
            assert_eq!(room, search.matches.len() < cap || !text.contains('x'));
            if !search.end_file() {
                break;
            }
        }
        assert_eq!(search.matches.len(), expected);
        assert_eq!(search.truncated, truncated);
    }
}
