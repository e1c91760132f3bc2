use sentinelx::coding::sha256_hex;
use sentinelx::edit_upload;
use sentinelx::fetch::{check_addresses, check_parts, fetch_target, is_safe_ip, Address, Resolved};
use sentinelx::file_export::{check_source, export_plan, source_error, valid_transfer_id, ExportStore};
use sentinelx::fileops::AccessFault;
use sentinelx::handler_error::HandlerError;
use sentinelx::json::{count_field, field, flag_field, into_object, set_field, string, text_field, Json, Object};
use sentinelx::paths::{is_under, join};
use sentinelx::policy::{FileAccess, FileOpsPath, Policy, Resolution};
use sentinelx::staging::{fallback_root, primary_root, staging_root, StagingError, StagingFault, STAGING_DIRNAME};
use sentinelx::time::Duration;
use sentinelx::upload::{
    check_complete, check_dest, check_free, chunk_plan, chunk_result, complete_result, decode_content, fetch_too_large,
    init_result, known_upload_id, part_files, part_name, part_number, parts_too_large, relative_target, single_content,
    single_plan, single_result, upload_id_from, upload_meta, upload_not_found, upload_start, valid_upload_id, Intake,
    UploadMeta,
};
use sentinelx::wire::{read_json, write_json};

fn object(text: &str) -> Object {
    into_object(read_json(text.as_bytes()).unwrap())
}

fn shown(o: Object) -> String {
    write_json(&Json::Object(o))
}

fn nowhere() -> Resolution {
    Resolution { candidate: None, allowed: Vec::new() }
}

fn seen(candidate: &str, allowed: &str) -> Resolution {
    Resolution { candidate: Some(candidate.to_owned()), allowed: vec![Some(allowed.to_owned())] }
}

fn landing_policy(path: &str, access: FileAccess) -> Policy {
    Policy {
        upload_base: "/up".to_owned(),
        file_ops_paths: vec![FileOpsPath { path: path.to_owned(), access }],
        ..Policy::default()
    }
}

/// What is kept of an upload that begins, where no file is in its way.
fn begin(policy: &Policy, payload: &Object, seen: &Resolution) -> Result<UploadMeta, HandlerError> {
    let start = upload_start(policy, payload, seen)?;
    let dest = match &start.in_place {
        Some(path) => path.clone(),
        None => {
            let dest = join(&policy.upload_base, &relative_target(&start.target)?);
            check_dest(&policy.upload_base, &dest)?;
            dest
        },
    };
    check_free(&dest, false, start.overwrite)?;
    let id = valid_upload_id(field(payload, "upload_id"))?;
    Ok(upload_meta(payload, &start, &id, &dest))
}

#[test]
fn configured_upload_base_gets_hidden_staging_child() {
    let root = staging_root("/up", "/tmp", None, None).unwrap();
    assert_eq!(root, format!("/up/{STAGING_DIRNAME}"));
    assert_eq!(primary_root("/up"), root);
}

fn unwritable(kind: StagingFault, message: &str) -> Option<StagingError> {
    Some(StagingError { kind, message: message.to_owned() })
}

#[test]
fn staging_falls_back_to_the_temporary_directory() {
    let root = staging_root("/up", "/tmp", unwritable(StagingFault::ReadOnly, "read-only"), None).unwrap();
    assert_eq!(root, fallback_root("/tmp"));
}

#[test]
fn staging_tells_what_keeps_both_directories_from_being_written() {
    let failed = |first, second| {
        staging_root("/up", "/tmp", unwritable(first, "a"), unwritable(second, "b")).unwrap_err()
    };
    let error = failed(StagingFault::NoSpace, StagingFault::PermissionDenied);
    assert_eq!(error.kind, StagingFault::NoSpace);
    let (first, second) = (primary_root("/up"), fallback_root("/tmp"));
    assert_eq!(error.message, format!("no writable staging directory: {first} (a) and {second} (b)"));
    assert_eq!(failed(StagingFault::Other, StagingFault::ReadOnly).kind, StagingFault::ReadOnly);
    assert_eq!(failed(StagingFault::PermissionDenied, StagingFault::Other).kind, StagingFault::PermissionDenied);
    assert_eq!(failed(StagingFault::Other, StagingFault::Other).kind, StagingFault::Other);
}

#[test]
fn chunked_upload_reassembles_and_verifies_case_insensitive_hash() {
    let policy = Policy { upload_base: "/up".to_owned(), ..Policy::default() };
    let meta = begin(&policy, &object(r#"{"target_path":"nested/x.bin","total_size":6}"#), &nowhere()).unwrap();
    assert_eq!(meta.target_path, "/up/nested/x.bin");
    assert_eq!(count_field(&init_result(&meta), "total_size"), Some(6));

    let mut names = Vec::new();
    let mut parts: Vec<(String, Vec<u8>)> = Vec::new();
    for (index, encoded) in [(1, "ZGVm"), (0, "YWJj")] {
        let text = format!(r#"{{"upload_id":"{}","index":{index},"content_base64":"{encoded}"}}"#, meta.upload_id);
        let plan = chunk_plan(&object(&text)).unwrap();
        assert_eq!(plan.id, meta.upload_id);
        let name = part_name(part_number(plan.index));
        names.push(name.clone());
        assert_eq!(count_field(&chunk_result(&plan), "index"), Some(index));
        parts.push((name, plan.bytes));
    }
    let mut intake = Intake::new();
    let mut whole = Vec::new();
    for name in part_files(&names).unwrap() {
        let (_, bytes) = parts.iter().find(|(n, _)| *n == name).unwrap();
        assert!(intake.take_bytes(bytes));
        whole.extend_from_slice(bytes);
    }
    assert_eq!(whole, b"abcdef");
    let expected = sha256_hex(b"abcdef").to_ascii_uppercase();
    let mut payload = object("{}");
    set_field(&mut payload, "sha256", string(&expected));
    assert!(check_complete(&payload, meta.total_size, intake.size, &intake.digest()).is_ok());
    let done = complete_result(&meta.upload_id, &meta, intake.size, &intake.digest());
    assert_eq!(count_field(&done, "size"), Some(6));
}

#[test]
fn uploads_that_are_not_as_declared_are_refused() {
    assert!(check_complete(&object("{}"), 0, 6, "x").is_ok());
    let error = |payload: &str| check_complete(&object(payload), 6, 6, &"c".repeat(64)).unwrap_err().code;
    assert_eq!(error(r#"{"sha256":"ab"}"#), "invalid_sha256");
    assert_eq!(error(&format!(r#"{{"sha256":"{}"}}"#, "d".repeat(64))), "checksum_mismatch");
    assert_eq!(check_complete(&object("{}"), 7, 6, "x").unwrap_err().code, "size_mismatch");
}

#[test]
fn digests_are_those_of_sha256() {
    assert_eq!(sha256_hex(b"abc"), "ba7816bf8f01cfea414140de5dae2223b00361a396177a9cb410ff61f20015ad");
}

#[test]
fn land_in_place_under_rw_path() {
    let policy = landing_policy("/work", FileAccess::ReadWrite);
    let payload = object(r#"{"target_path":"/work/canary.txt","total_size":10,"land_in_place":true}"#);
    let meta = begin(&policy, &payload, &seen("/work/canary.txt", "/work")).unwrap();
    assert!(meta.landed_in_place);
    assert_eq!(meta.target_path, "/work/canary.txt");
}

#[test]
fn land_in_place_outside_rw_falls_back_to_staging() {
    let policy = landing_policy("/work", FileAccess::ReadWrite);
    let payload = object(r#"{"target_path":"/else/x.txt","land_in_place":true}"#);
    let meta = begin(&policy, &payload, &seen("/else/x.txt", "/work")).unwrap();
    assert!(!meta.landed_in_place);
    assert!(is_under(&meta.target_path, "/up"));
}

#[test]
fn land_in_place_is_opt_in_even_under_rw_path() {
    let policy = landing_policy("/work", FileAccess::ReadWrite);
    let payload = object(r#"{"target_path":"/work/default-staged.txt"}"#);
    let meta = begin(&policy, &payload, &seen("/work/default-staged.txt", "/work")).unwrap();
    assert!(!meta.landed_in_place);
    assert!(is_under(&meta.target_path, "/up"));
}

#[test]
fn read_only_path_does_not_land_in_place() {
    let policy = landing_policy("/ro", FileAccess::Read);
    let payload = object(r#"{"target_path":"/ro/z.txt","land_in_place":true}"#);
    let meta = begin(&policy, &payload, &seen("/ro/z.txt", "/ro")).unwrap();
    assert!(!meta.landed_in_place);
    assert!(is_under(&meta.target_path, "/up"));
}

#[test]
fn land_in_place_traversal_outside_rw_is_still_refused() {
    let policy = landing_policy("/work", FileAccess::ReadWrite);
    let payload = object(r#"{"target_path":"../../etc/passwd","land_in_place":true}"#);
    let error = begin(&policy, &payload, &seen("/etc/passwd", "/work")).unwrap_err();
    assert_eq!(error.code, "path_traversal");
}

#[test]
fn absolute_staging_target_is_rooted_under_upload_base() {
    let policy = Policy { upload_base: "/up".to_owned(), ..Policy::default() };
    let meta = begin(&policy, &object(r#"{"target_path":"/srv/elsewhere/x.txt"}"#), &nowhere()).unwrap();
    assert!(!meta.landed_in_place);
    assert_eq!(meta.target_path, "/up/srv/elsewhere/x.txt");
}

#[test]
fn upload_target_cannot_escape_upload_base() {
    let policy = Policy { upload_base: "/up".to_owned(), ..Policy::default() };
    let error = begin(&policy, &object(r#"{"target_path":"../escape"}"#), &nowhere()).unwrap_err();
    assert_eq!(error.code, "path_traversal");
    assert_eq!(relative_target("/").unwrap_err().code, "path_traversal");
    assert_eq!(relative_target("  ").unwrap_err().code, "invalid_payload");
    assert_eq!(check_dest("/up", "/elsewhere/x").unwrap_err().code, "path_traversal");
}

#[test]
fn upload_ids_are_hex_or_made() {
    assert_eq!(upload_id_from(None, 1, 2).unwrap(), "00000000000000010000000000000002");
    assert_eq!(
        valid_upload_id(Some(&string("ABCDEF0123456789"))).unwrap(),
        "abcdef0123456789"
    );
    assert!(valid_upload_id(Some(&string("short"))).is_err());
    assert!(valid_upload_id(Some(&string("../../etc/passwd0000"))).is_err());
    let made = valid_upload_id(None).unwrap();
    assert_eq!(made.len(), 32);
    assert!(known_upload_id(&made).is_ok());
    assert!(known_upload_id("x/y").is_err());
    assert!(upload_not_found("ab").message.contains("ab"));
}

#[test]
fn chunks_name_an_upload_and_a_place() {
    let id = "ab".repeat(16);
    assert!(chunk_plan(&object(&format!(r#"{{"upload_id":"{id}","index":-1,"content_base64":""}}"#))).is_err());
    assert!(chunk_plan(&object(&format!(r#"{{"upload_id":"{id}","index":0,"content_base64":"*"}}"#))).is_err());
    assert!(chunk_plan(&object(r#"{"index":0,"content_base64":""}"#)).is_err());
    assert_eq!(part_name(7), "00000007.part");
    assert_eq!(part_files(&Vec::new()).unwrap_err().code, "invalid_state");
    let names = vec!["00000010.part".to_owned(), "notes.txt".to_owned(), "00000002.part".to_owned()];
    assert_eq!(part_files(&names).unwrap(), vec!["00000002.part", "00000010.part"]);
}

#[test]
fn single_uploads_come_with_content_or_an_address() {
    let plan = single_plan(&object(r#"{"target_path":"a.txt","content_base64":"YWJj"}"#)).unwrap();
    assert_eq!(plan.target, "a.txt");
    assert_eq!(single_content(plan.content.as_deref().unwrap()).unwrap(), b"abc");
    assert!(single_plan(&object(r#"{"target_path":"a.txt"}"#)).is_err());
    assert!(decode_content("not base64").is_err());
    let done = single_result(&object("{}"), "/up/a.txt", 3, "d1");
    assert_eq!(text_field(&done, "sha256"), Some("d1"));
    assert_eq!(fetch_too_large().code, "file_too_large");
    assert_eq!(parts_too_large().code, "file_too_large");
}

#[test]
fn existing_files_are_kept_unless_asked() {
    assert_eq!(check_free("/up/a", true, false).unwrap_err().code, "conflict");
    assert!(check_free("/up/a", true, true).is_ok());
    assert!(check_free("/up/a", false, false).is_ok());
}

#[test]
fn private_addresses_are_not_fetched() {
    for ip in [
        Address::V4(127, 0, 0, 1),
        Address::V4(10, 1, 2, 3),
        Address::V4(192, 168, 0, 1),
        Address::V4(172, 16, 0, 1),
        Address::V4(169, 254, 1, 1),
        Address::V4(0, 0, 0, 0),
        Address::V4(100, 64, 0, 1),
        Address::V4(224, 0, 0, 1),
        Address::V6(0x2001, 0xdb8, 0, 0, 0, 0, 0, 1),
        Address::V6(0, 0, 0, 0, 0, 0, 0, 1),
        Address::V6(0xfe80, 0, 0, 0, 0, 0, 0, 1),
        Address::V6(0xfc00, 0, 0, 0, 0, 0, 0, 1),
    ] {
        assert!(!is_safe_ip(ip), "{ip:?}");
    }
    for (g, h) in [(0x7f00, 1), (0x0a00, 1), (0xac10, 5), (0xc0a8, 0x0101), (0xa9fe, 0xa9fe), (0x6440, 1), (0, 0)] {
        assert!(!is_safe_ip(Address::V6(0, 0, 0, 0, 0, 0xffff, g, h)), "{g:x}:{h:x}");
    }
    assert!(is_safe_ip(Address::V6(0, 0, 0, 0, 0, 0xffff, 0x5db8, 0xd822)));
    assert!(is_safe_ip(Address::V4(93, 184, 216, 34)));
    assert!(is_safe_ip(Address::V6(0x2606, 0x2800, 0, 0, 0, 0, 0, 1)));
    let found = |a, b, c, d| vec![Resolved { address: Address::V4(a, b, c, d), shown: format!("{a}.{b}.{c}.{d}") }];
    assert!(check_addresses("h", &found(127, 0, 0, 1)).is_err());
    assert!(check_addresses("h", &found(93, 184, 216, 34)).is_ok());
    assert!(check_addresses("h", &Vec::new()).is_err());
}

#[test]
fn only_trusted_hosts_are_fetched_from() {
    let policy = Policy { trusted_fetch_hosts: vec!["drop.example".to_owned()], ..Policy::default() };
    assert_eq!(fetch_target(&policy, "https://drop.example/f.bin").unwrap(), ("drop.example".to_owned(), 443));
    assert_eq!(fetch_target(&policy, "https://drop.example:8443/f").unwrap(), ("drop.example".to_owned(), 8443));
    assert!(fetch_target(&policy, "https://evil.example/f").is_err());
    assert!(fetch_target(&policy, "ftp://drop.example/f").is_err());
    assert!(fetch_target(&policy, "no address").is_err());
    assert!(check_parts(&policy, "https", None, Some(443)).is_err());
}

#[test]
fn export_hashes_only_in_order_and_returns_binary_payload() {
    let policy = landing_policy("/work", FileAccess::Read);
    let id = "0a".repeat(16);
    let payload = object(&format!(r#"{{"transfer_id":"{id}","source_path":"/work/f","chunk_size":1024}}"#));
    let plan = export_plan(&policy, &payload, &seen("/work/f", "/work")).unwrap();
    let chunk_size = plan.chunk_size;
    let data: Vec<u8> = (0..chunk_size + 10).map(|i| (i % 251) as u8).collect();
    let mut store = ExportStore::new();
    let begun = store.begin(plan, data.len() as u64, Duration::from_secs(1));
    assert_eq!(count_field(&begun, "num_chunks"), Some(2));
    for index in 0..2_usize {
        let ask = object(&format!(r#"{{"transfer_id":"{id}","chunk_index":{index}}}"#));
        let read = store.chunk_read(&ask).unwrap();
        assert_eq!(read.offset as usize, index * chunk_size);
        assert_eq!(read.last, index == 1);
        let from = read.offset as usize;
        let bytes = &data[from..(from + read.length).min(data.len())];
        let result = store.chunk_done(&read, bytes);
        assert!(text_field(&result, "__binary_payload__").is_some());
        assert_eq!(flag_field(&result, "eof"), Some(index == 1));
        assert_eq!(count_field(&result, "bytes"), Some(bytes.len() as u64));
    }
    let ended = store.end(&object(&format!(r#"{{"transfer_id":"{id}"}}"#))).unwrap();
    assert_eq!(flag_field(&ended, "sha256_complete"), Some(true));
    assert_eq!(text_field(&ended, "sha256"), Some(sha256_hex(&data).as_str()));
    assert!(store.chunk_read(&object(&format!(r#"{{"transfer_id":"{id}","chunk_index":0}}"#))).is_err());
}

#[test]
fn transfers_out_of_order_have_no_digest() {
    let policy = landing_policy("/work", FileAccess::Read);
    let id = "0b".repeat(16);
    let payload = object(&format!(r#"{{"transfer_id":"{id}","source_path":"/work/f","chunk_size":4}}"#));
    let plan = export_plan(&policy, &payload, &seen("/work/f", "/work")).unwrap();
    let mut store = ExportStore::new();
    store.begin(plan, 8, Duration::from_secs(1));
    for index in [1, 0] {
        let ask = object(&format!(r#"{{"transfer_id":"{id}","chunk_index":{index}}}"#));
        let read = store.chunk_read(&ask).unwrap();
        store.chunk_done(&read, b"abcd");
    }
    let ended = store.end(&object(&format!(r#"{{"transfer_id":"{id}"}}"#))).unwrap();
    assert_eq!(flag_field(&ended, "sha256_complete"), Some(false));
    assert_eq!(count_field(&ended, "chunks_read"), Some(1));
}

#[test]
fn exports_need_a_readable_file() {
    let policy = landing_policy("/work", FileAccess::Read);
    let id = "0a".repeat(16);
    let payload = object(&format!(r#"{{"transfer_id":"{id}","source_path":"/etc/x"}}"#));
    assert!(export_plan(&policy, &payload, &seen("/etc/x", "/work")).is_err());
    assert!(check_source("/work/d", true, false).is_err());
    assert!(check_source("/work/f", false, true).is_ok());
    assert_ne!(
        source_error("/p", AccessFault::NotFound, "e").code,
        source_error("/p", AccessFault::PermissionDenied, "e").code
    );
    assert!(valid_transfer_id(&object(r#"{"transfer_id":"zz"}"#)).is_err());
}

#[test]
fn chunked_write_flows_through_native_editor() {
    let id = edit_upload::new_id();
    assert!(edit_upload::dir_name(&id).is_ok());
    assert!(edit_upload::dir_name("../x").is_err());
    let payload = object(&format!(r#"{{"upload_id":"{id}","role":"new","content_base64":"bmV3"}}"#));
    let file = edit_upload::role_file(&payload).unwrap();
    assert_eq!(file.data, b"new");
    assert!(edit_upload::check_roles("write", false, false).is_err());
    assert!(edit_upload::check_roles("write", false, true).is_ok());
    let edited = edit_upload::edit_payload(
        &object(r#"{"path":"/work/x","mode":"write"}"#),
        None,
        Some("new".to_owned()),
    );
    assert_eq!(text_field(&edited, "new_text"), Some("new"));
    assert!(shown(edit_upload::init_result(&id, "/tmp/d")).contains(&id));
}
