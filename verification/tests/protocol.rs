use sentinelx::bounding::{
    bound_response, bound_response_default, decode_utf8_ignoring_invalid, marker, python_json_string_size, serialized_size,
    truncate_text, RESPONSE_SOFT_LIMIT_BYTES,
};
use sentinelx::frame::{
    decode_binary_frame, decode_transfer_id_hex, encode_binary_frame, is_binary_transfer_frame, BinaryFrameError,
    BINARY_HEADER_BYTES,
};
use sentinelx::json::{field, into_object, set_field, string, strings, text_field, Json, Object};
use sentinelx::message::{named_profile, ConfigSummary, HostInfo, Message, PreferredProfile, PROTOCOL_VERSION};
use sentinelx::op::Op;
use sentinelx::time::Timestamp;
use sentinelx::wire::{read_json, write_json};

fn json(text: &str) -> Json {
    read_json(text.as_bytes()).unwrap()
}

fn object(text: &str) -> Object {
    into_object(json(text))
}

fn host() -> HostInfo {
    HostInfo {
        id: "host".to_owned(),
        hostname: "box".to_owned(),
        os: "linux".to_owned(),
        kernel: None,
        arch: None,
        cpu_model: None,
        cpu_cores: None,
        mem_total_bytes: None,
        disk_total_bytes: None,
        machine_type: None,
        distro: None,
        config_summary: None,
    }
}

fn request_with_ref(opaque_ref: &str) -> Json {
    let mut o = object(r#"{"type":"request","id":"req_ref","op":"state","payload":{},"deadline":null}"#);
    set_field(&mut o, "opaque_ref", string(opaque_ref));
    Json::Object(o)
}

#[test]
fn binary_frame_roundtrip_matches_spec() {
    let id = [0x5a; 16];
    let wire = encode_binary_frame(id, 0x0102_0304, b"payload");
    assert_eq!(&wire[16..20], &[1, 2, 3, 4]);
    let decoded = decode_binary_frame(&wire).unwrap();
    assert_eq!(decoded.transfer_id, id);
    assert_eq!(decoded.chunk_index, 0x0102_0304);
    assert_eq!(decoded.payload, b"payload");
}

#[test]
fn short_binary_frames_are_not_transfer_frames_and_do_not_decode() {
    let short = vec![0_u8; BINARY_HEADER_BYTES - 1];
    assert!(!is_binary_transfer_frame(&short));
    assert!(decode_binary_frame(&short).is_err());

    let header_only = vec![0_u8; BINARY_HEADER_BYTES];
    assert!(is_binary_transfer_frame(&header_only));
    assert!(decode_binary_frame(&header_only).is_ok());
}

#[test]
fn too_short_frames_say_so() {
    let error = decode_binary_frame(&[1, 2, 3]).unwrap_err();
    assert_eq!(error, BinaryFrameError::TooShort);
    assert_eq!(error.message(), "binary transfer frame shorter than 20 bytes");
}

#[test]
fn binary_frames_of_any_payload_come_back() {
    for length in [0_usize, 1, 19, 20, 21, 255, 4096] {
        let payload: Vec<u8> = (0..length).map(|i| (i * 7 % 256) as u8).collect();
        let id: [u8; 16] = [length as u8; 16];
        let wire = encode_binary_frame(id, length as u32, &payload);
        assert_eq!(wire.len(), BINARY_HEADER_BYTES + length);
        let decoded = decode_binary_frame(&wire).unwrap();
        assert_eq!(decoded.transfer_id, id);
        assert_eq!(decoded.chunk_index, length as u32);
        assert_eq!(decoded.payload, payload.as_slice());
    }
}

#[test]
fn transfer_ids_are_sixteen_bytes_of_hex() {
    let id = decode_transfer_id_hex("000102030405060708090a0b0c0d0e0F").unwrap();
    assert_eq!(id, [0, 1, 2, 3, 4, 5, 6, 7, 8, 9, 10, 11, 12, 13, 14, 15]);
    assert!(decode_transfer_id_hex("00").is_err());
    assert!(decode_transfer_id_hex("0g0102030405060708090a0b0c0d0e0f").is_err());
}

#[test]
fn wire_messages_reject_unknown_fields_like_pydantic_extra_forbid() {
    let bad = json(r#"{"type":"ping","timestamp":"2026-09-21T21:00:00Z","surprise":true}"#);
    assert!(Message::from_json(&bad).is_err());
}

#[test]
fn every_official_operation_is_accepted_and_roundtrips() {
    let mut seen = Vec::new();
    for op in Op::all() {
        let text = format!(
            r#"{{"type":"request","id":"req_{}","op":"{}","payload":{{"x":1}},"deadline":null,"opaque_ref":null}}"#,
            op.as_str(),
            op.as_str()
        );
        let expected = json(&text);
        let parsed = Message::from_json(&expected).unwrap();
        match &parsed {
            Message::Request { op, .. } => seen.push(*op),
            _ => panic!("a request was read as something else"),
        }
        assert_eq!(write_json(&parsed.to_json()), write_json(&expected));
    }
    assert_eq!(seen, Op::all());
    assert_eq!(seen.len(), 31);
}

#[test]
fn unknown_operation_is_rejected_like_python_literal() {
    let bad = json(
        r#"{"type":"request","id":"req_bad","op":"future_surprise","payload":{},"deadline":null,"opaque_ref":null}"#,
    );
    assert!(Message::from_json(&bad).is_err());
}

#[test]
fn opaque_ref_limit_matches_python_pydantic_contract() {
    assert!(Message::from_json(&request_with_ref(&"🦀".repeat(256))).is_ok());
    assert!(Message::from_json(&request_with_ref(&"🦀".repeat(257))).is_err());
}

#[test]
fn messages_come_back_as_they_were_written() {
    for text in [
        r#"{"type":"welcome","session_id":"s","server_time":"2026-09-21T21:00:00Z","heartbeat_interval_seconds":30}"#,
        r#"{"type":"response","id":"x","ok":true,"result":{"a":[1,-2,null,"t"]},"error":null}"#,
        r#"{"type":"response","id":"x","ok":false,"result":null,"error":{"code":"c","message":"m","details":{"k":1}}}"#,
        r#"{"type":"ping","timestamp":"2026-09-21T21:00:00Z"}"#,
        r#"{"type":"pong","timestamp":"2026-09-21T21:00:00.250Z"}"#,
        r#"{"type":"event","kind":"job_completed","data":{"job_id":"j"},"timestamp":"2026-09-21T21:00:00Z"}"#,
        r#"{"type":"error","code":"bad","message":"why","fatal":true}"#,
    ] {
        let value = json(text);
        let message = Message::from_json(&value).unwrap();
        assert_eq!(write_json(&message.to_json()), write_json(&value), "{text}");
        assert_eq!(Message::from_json(&message.to_json()).unwrap(), message);
        assert_eq!(Message::from_text(&message.to_text()).unwrap(), message);
    }
}

#[test]
fn timestamps_are_read_in_any_zone() {
    let value = json(r#"{"type":"ping","timestamp":"1970-01-01T01:00:01.5+01:00"}"#);
    assert_eq!(
        Message::from_json(&value).unwrap(),
        Message::Ping { timestamp: Timestamp { secs: 1, nanos: 500_000_000 } }
    );
    assert!(Message::from_json(&json(r#"{"type":"ping","timestamp":"yesterday"}"#)).is_err());
    assert!(Message::from_json(&json(r#"{"type":"ping","timestamp":7}"#)).is_err());
}

#[test]
fn half_a_message_is_malformed() {
    for text in [
        "null",
        "[]",
        "{}",
        r#"{"type":"nothing"}"#,
        r#"{"type":"ping"}"#,
        r#"{"type":"request","op":"state"}"#,
        r#"{"type":"response","id":"x"}"#,
        r#"{"type":"event","kind":"k","data":3,"timestamp":"2026-09-21T21:00:00Z"}"#,
    ] {
        assert!(Message::from_json(&json(text)).is_err(), "{text}");
        assert!(Message::from_text(text).is_err(), "{text}");
    }
    assert!(Message::from_text("{").is_err());
}

#[test]
fn hello_names_the_protocol_and_the_profile() {
    assert_eq!(named_profile("compact"), Some(PreferredProfile::Compact));
    assert_eq!(named_profile("full"), Some(PreferredProfile::Full));
    assert_eq!(named_profile("Full"), None);
    let hello = Message::hello_with_profile(
        host(),
        "0.1".to_owned(),
        vec!["ping".to_owned(), "exec".to_owned()],
        Some(PreferredProfile::Compact),
    );
    let wire = into_object(hello.to_json());
    assert_eq!(text_field(&wire, "type"), Some("hello"));
    assert_eq!(text_field(&wire, "protocol_version"), Some(PROTOCOL_VERSION));
    assert_eq!(text_field(&wire, "preferred_profile"), Some("compact"));
    let plain = into_object(Message::hello(host(), "0.1".to_owned(), Vec::new()).to_json());
    assert_eq!(text_field(&plain, "agent_version"), Some("0.1"));
    assert!(text_field(&plain, "preferred_profile").is_none());
}

#[test]
fn python_json_sizing_matches_known_spacing_and_ascii_escape_rules() {
    assert_eq!(serialized_size(&json(r#"{"a": 1}"#)), br#"{"a": 1}"#.len());
    assert_eq!(serialized_size(&json(r#""é""#)), r#""\u00e9""#.len());
    assert_eq!(serialized_size(&json(r#""😀""#)), r#""\ud83d\ude00""#.len());
}

#[test]
fn sizes_follow_every_kind_of_value() {
    assert_eq!(serialized_size(&json("[1, -20, true, false, null]")), "[1, -20, true, false, null]".len());
    assert_eq!(serialized_size(&json(r#"{"a": [], "b": {}}"#)), r#"{"a": [], "b": {}}"#.len());
    assert_eq!(python_json_string_size("a\"b\\c\n\u{1}"), r#""a\"b\\c\n\u0001""#.len());
}

#[test]
fn small_response_is_unchanged() {
    let text = r#"{"type":"response","id":"x","ok":true,"result":{"x":"y"}}"#;
    let mut response = json(text);
    assert!(bound_response_default(&mut response).is_none());
    assert_eq!(write_json(&response), write_json(&json(text)));
}

#[test]
fn long_texts_are_shortened_until_the_response_fits() {
    let long = "x".repeat(300_000);
    let mut result = object(r#"{"small":"kept"}"#);
    set_field(&mut result, "output", string(&long));
    let mut envelope = object(r#"{"type":"response","id":"x","ok":true}"#);
    set_field(&mut envelope, "result", Json::Object(result));
    let mut response = Json::Object(envelope);
    let before = serialized_size(&response);
    let meta = bound_response_default(&mut response).unwrap();
    assert!(serialized_size(&response) <= RESPONSE_SOFT_LIMIT_BYTES);
    let meta = into_object(meta);
    assert_eq!(write_json(field(&meta, "original_bytes").unwrap()), before.to_string());
    let text = write_json(&response);
    assert!(text.contains("kept"));
    assert!(text.contains("_truncation"));
}

#[test]
fn responses_of_any_limit_come_back_no_larger() {
    for limit in [600_usize, 1000, 5000] {
        let mut result = object("{}");
        set_field(&mut result, "t", string(&"ab".repeat(5000)));
        let mut envelope = object(r#"{"id":"x"}"#);
        set_field(&mut envelope, "result", Json::Object(result));
        let mut response = Json::Object(envelope);
        let before = serialized_size(&response);
        assert!(bound_response(&mut response, limit).is_some());
        assert!(serialized_size(&response) < before);
    }
}

#[test]
fn results_that_cannot_be_shortened_are_left_out() {
    let mut envelope = object(r#"{"type":"response","id":"x","ok":true}"#);
    let items = vec!["0123456789".to_owned(); 20_000];
    let mut result = object("{}");
    set_field(&mut result, "items", strings(&items));
    set_field(&mut envelope, "result", Json::Object(result));
    let mut response = Json::Object(envelope);
    assert!(bound_response_default(&mut response).is_some());
    assert!(serialized_size(&response) <= RESPONSE_SOFT_LIMIT_BYTES);
    let text = write_json(&response);
    assert!(text.contains("result omitted: too large to bound field-wise"));
    assert!(text.contains(r#""id":"x""#));
}

#[test]
fn shortened_text_keeps_both_ends_and_counts_the_rest() {
    let text = "a".repeat(500) + &"b".repeat(500);
    let short = truncate_text(&text, 100);
    assert!(short.starts_with("aaa"));
    assert!(short.ends_with("bbb"));
    assert!(short.contains(&marker(900)));
    assert_eq!(truncate_text("short", 100), "short");
}

#[test]
fn broken_bytes_are_left_out() {
    assert_eq!(decode_utf8_ignoring_invalid(b"a\xffb\xc3\xa9\xc3"), "abé");
    assert_eq!(decode_utf8_ignoring_invalid(b"plain"), "plain");
}

#[test]
fn sizes_of_texts_add_up() {
    assert_eq!(python_json_string_size("é"), 8);
    assert_eq!(python_json_string_size("😀"), 14);
    for (a, b) in [("é", "😀"), ("", "x"), ("a\"", "\n\u{1}"), ("plain", "text")] {
        let whole = python_json_string_size(&format!("{a}{b}"));
        assert_eq!(whole + 2, python_json_string_size(a) + python_json_string_size(b));
        assert!(whole >= 2 + a.chars().count() + b.chars().count());
    }
}

#[test]
fn summaries_of_nothing_are_empty() {
    let summary = ConfigSummary::default();
    assert_eq!(summary, summary.clone());
    assert_eq!(summary.service_count, None);
    assert_eq!(summary.file_ops_rw_count, None);
}
