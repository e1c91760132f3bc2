use sentinelx::agent::{
    broken_handler, chunk_ack, completion, connect_url, fit_response, frame_for, greet, job_id_from, max_retry_after, outgoing,
    parse_retry_after, with_timing, ws_base, Action, Agent, AgentConfig, AgentError, AuthToken, ChunkOutcome, ConfigError,
    Delivery, Event, Greeting, Next, ReconnectPolicy, RetryState, Session, SessionEnd, UnsupportedDispatcher, Welcome,
};
use sentinelx::frame::{decode_binary_frame, encode_binary_frame};
use sentinelx::json::{flag_field, into_object, object_field, set_field, string, text_field, Json, Object};
use sentinelx::message::{HostInfo, Message, PreferredProfile, ResponseError};
use sentinelx::op::Op;
use sentinelx::time::{Duration, Timestamp};
use sentinelx::wire::{read_json, write_json};

fn object(text: &str) -> Object {
    into_object(read_json(text.as_bytes()).unwrap())
}

fn shown(o: Object) -> String {
    write_json(&Json::Object(o))
}

fn now() -> Timestamp {
    Timestamp { secs: 1_790_000_000, nanos: 0 }
}

fn valid_config() -> AgentConfig {
    AgentConfig {
        hub_ws_base: "wss://example.invalid".to_owned(),
        token: AuthToken::new("token".to_owned()),
        host: HostInfo {
            id: "host".to_owned(),
            hostname: "host".to_owned(),
            os: "linux".to_owned(),
            kernel: None,
            arch: None,
            cpu_model: None,
            cpu_cores: None,
            mem_total_bytes: None,
            disk_total_bytes: None,
            machine_type: None,
            distro: None,
            config_summary: None,
        },
        agent_version: "test".to_owned(),
        capabilities: vec![],
        preferred_profile: None,
        upload_base: "/tmp/uploads".to_owned(),
        reconnect: ReconnectPolicy::default(),
        connect_timeout: Duration::from_secs(15),
        welcome_timeout: Duration::from_secs(10),
        heartbeat_interval: Duration::from_secs(30),
        heartbeat_timeout: Duration::from_secs(90),
    }
}

fn request(payload: Object) -> Event {
    Event::Text {
        message: Ok(Message::Request { id: "req".to_owned(), op: Op::Exec, payload, deadline: None, opaque_ref: None }),
        now: 5,
        timestamp: now(),
    }
}

#[test]
fn retry_after_parses_semicolon_and_comma_forms() {
    assert_eq!(parse_retry_after("hub_shutdown;retry_after=37"), Some(Duration::from_secs(37)));
    assert_eq!(parse_retry_after("hub_shutdown,retry_after=1.5"), Some(Duration::from_millis(1500)));
}

#[test]
fn retry_after_is_clamped_to_official_bounds() {
    assert_eq!(parse_retry_after("retry_after=-10"), Some(Duration::zero()));
    assert_eq!(parse_retry_after("retry_after=999999"), Some(max_retry_after()));
}

#[test]
fn malformed_retry_after_falls_back_to_local_schedule() {
    for reason in ["", "hub_shutdown", "retry_after=", "retry_after=nope", "retry_after=NaN", "retry_after=inf", "other=1"] {
        assert_eq!(parse_retry_after(reason), None, "{reason}");
    }
}

#[test]
fn retry_after_is_read_past_other_parts_and_spaces() {
    assert_eq!(parse_retry_after(" a = 1 ; retry_after = 2 ; retry_after=9"), Some(Duration::from_secs(2)));
    assert_eq!(parse_retry_after("retry_after=1e1"), Some(Duration::from_secs(10)));
    assert_eq!(parse_retry_after("retry_after=0.000000001"), Some(Duration::from_nanos(1)));
}

#[test]
fn reconnect_policy_empty_schedule_is_safe() {
    let policy = ReconnectPolicy { steps: vec![], jitter: false };
    assert_eq!(policy.delay(0), Duration::zero());
    assert_eq!(policy.delay(999), Duration::zero());
}

#[test]
fn reconnect_policy_saturates_at_last_step() {
    let policy = ReconnectPolicy {
        steps: vec![Duration::zero(), Duration::from_secs(1), Duration::from_secs(2)],
        jitter: false,
    };
    assert_eq!(policy.delay(0), Duration::zero());
    assert_eq!(policy.delay(1), Duration::from_secs(1));
    assert_eq!(policy.delay(2), Duration::from_secs(2));
    assert_eq!(policy.delay(200), Duration::from_secs(2));
}

#[test]
fn jitter_never_exceeds_selected_window() {
    let policy = ReconnectPolicy { steps: vec![Duration::from_millis(50)], jitter: true };
    for _ in 0..256 {
        assert!(policy.delay(0).nanos <= Duration::from_millis(50).nanos);
    }
}

#[test]
fn jitter_does_not_pick_one_wait_alone() {
    let policy = ReconnectPolicy { steps: vec![Duration::from_secs(60)], jitter: true };
    let first = policy.delay(0);
    assert!((0..64).any(|_| policy.delay(0) != first));
}

#[test]
fn valid_agent_config_passes_validation() {
    assert_eq!(valid_config().validate(), Ok(()));
}

#[test]
fn zero_heartbeat_interval_is_rejected_before_tokio_interval_can_panic() {
    let mut config = valid_config();
    config.heartbeat_interval = Duration::zero();
    assert_eq!(config.validate(), Err(ConfigError::ZeroDuration("heartbeat_interval")));
}

#[test]
fn every_zero_duration_is_named() {
    let mut config = valid_config();
    config.connect_timeout = Duration::zero();
    assert_eq!(config.validate(), Err(ConfigError::ZeroDuration("connect_timeout")));
    let mut config = valid_config();
    config.welcome_timeout = Duration::zero();
    assert_eq!(config.validate(), Err(ConfigError::ZeroDuration("welcome_timeout")));
    let mut config = valid_config();
    config.heartbeat_timeout = Duration::zero();
    assert_eq!(config.validate(), Err(ConfigError::ZeroDuration("heartbeat_timeout")));
}

#[test]
fn heartbeat_timeout_must_exceed_interval() {
    let mut config = valid_config();
    config.heartbeat_timeout = config.heartbeat_interval;
    assert_eq!(config.validate(), Err(ConfigError::HeartbeatTimeoutTooShort));
}

#[test]
fn empty_or_header_invalid_tokens_are_rejected_at_startup() {
    let mut config = valid_config();
    config.token = AuthToken::new("".to_owned());
    assert_eq!(config.validate(), Err(ConfigError::EmptyToken));

    config.token = AuthToken::new("bad\nheader".to_owned());
    assert_eq!(config.validate(), Err(ConfigError::InvalidTokenHeader));
}

#[test]
fn an_agent_is_made_of_a_sound_config_only() {
    let mut config = valid_config();
    config.hub_ws_base = "  ".to_owned();
    assert_eq!(config.validate(), Err(ConfigError::EmptyHubUrl));
    assert!(Agent::new(config, UnsupportedDispatcher).is_err());
    assert!(Agent::new(valid_config(), UnsupportedDispatcher).is_ok());
}

#[test]
fn tokens_stay_hidden() {
    let token = AuthToken::new("secret".to_owned());
    assert_eq!(token.redacted(), "[redacted]");
    assert_eq!(token.bearer_header(), Ok("Bearer secret".to_owned()));
    assert!(AuthToken::new("a\u{7f}".to_owned()).bearer_header().is_err());
    assert!(AuthToken::new("a\u{1f}".to_owned()).bearer_header().is_err());
    assert_eq!(AuthToken::new("a\tb ~\u{e9}".to_owned()).bearer_header(), Ok("Bearer a\tb ~\u{e9}".to_owned()));
}

#[test]
fn hello_carries_the_configured_profile() {
    let mut config = valid_config();
    config.preferred_profile = Some(PreferredProfile::Compact);
    match config.hello() {
        Message::Hello { agent_version, preferred_profile, host, .. } => {
            assert_eq!(agent_version, "test");
            assert_eq!(preferred_profile, Some(PreferredProfile::Compact));
            assert_eq!(host.id, "host");
        },
        _ => panic!("no hello"),
    }
}

#[test]
fn hub_addresses_become_socket_addresses() {
    assert_eq!(ws_base("https://hub.example/"), "wss://hub.example/");
    assert_eq!(ws_base("http://hub.example"), "ws://hub.example");
    assert_eq!(ws_base("wss://hub.example"), "wss://hub.example");
    assert_eq!(connect_url("wss://hub.example//"), "wss://hub.example/agent/connect");
    assert_eq!(valid_config().connect_url(), "wss://example.invalid/agent/connect");
}

#[test]
fn lost_sessions_forget_failures_before_them() {
    let failed = RetryState { attempt: 7, hint: None };
    let hint = Some(Duration::from_secs(3));
    assert_eq!(failed.after(Ok(SessionEnd::Lost(hint))), Next::Retry(RetryState { attempt: 1, hint }));
    assert_eq!(failed.after(Ok(SessionEnd::Clean)), Next::Retry(RetryState { attempt: 0, hint: None }));
    assert_eq!(failed.after(Ok(SessionEnd::Restart(hint))), Next::Retry(RetryState { attempt: 0, hint }));
    assert_eq!(
        failed.after(Err(AgentError::Timeout("welcome"))),
        Next::Retry(RetryState { attempt: 8, hint: None })
    );
    let top = RetryState { attempt: usize::MAX, hint: None };
    assert_eq!(top.after(Err(AgentError::ExpectedWelcome)), Next::Retry(RetryState { attempt: usize::MAX, hint: None }));
}

#[test]
fn rejected_enrollments_are_tried_again_and_others_are_not() {
    let state = RetryState::start();
    assert_eq!(
        state.after(Err(AgentError::EnrollmentRejected("no".to_owned()))),
        Next::Retry(RetryState { attempt: 1, hint: None })
    );
    match state.after(Err(AgentError::Rejected { code: "bad".to_owned(), message: "m".to_owned() })) {
        Next::Stop(AgentError::Rejected { code, .. }) => assert_eq!(code, "bad"),
        _ => panic!("a rejection is final"),
    }
}

#[test]
fn hints_go_before_the_schedule() {
    let policy = ReconnectPolicy { steps: vec![Duration::from_secs(5)], jitter: false };
    let hinted = RetryState { attempt: 0, hint: Some(Duration::from_secs(42)) };
    assert_eq!(hinted.wait(&policy), Duration::from_secs(42));
    assert_eq!(RetryState::start().wait(&policy), Duration::from_secs(5));
}

#[test]
fn sessions_begin_with_a_welcome() {
    let welcome = Message::Welcome { session_id: "s".to_owned(), server_time: now(), heartbeat_interval_seconds: 30 };
    assert_eq!(greet(Greeting::Text(Ok(welcome))), Welcome::Proceed);
    assert_eq!(greet(Greeting::Cancelled), Welcome::Finish(SessionEnd::Clean));
    assert_eq!(greet(Greeting::TimedOut), Welcome::Fail(AgentError::Timeout("welcome")));
    assert_eq!(greet(Greeting::Closed), Welcome::Fail(AgentError::ClosedBeforeWelcome));
    assert_eq!(greet(Greeting::Other), Welcome::Fail(AgentError::ExpectedWelcome));
    assert_eq!(
        greet(Greeting::Text(Ok(Message::Ping { timestamp: now() }))),
        Welcome::Fail(AgentError::ExpectedWelcome)
    );
    assert_eq!(greet(Greeting::Broken("e".to_owned())), Welcome::Fail(AgentError::WebSocket("e".to_owned())));
    assert_eq!(greet(Greeting::Text(Err("j".to_owned()))), Welcome::Fail(AgentError::Json("j".to_owned())));
    let refused = Message::Error { code: "enrollment_rejected".to_owned(), message: "m".to_owned(), fatal: true };
    assert_eq!(greet(Greeting::Text(Ok(refused))), Welcome::Fail(AgentError::EnrollmentRejected("m".to_owned())));
    let other = Message::Error { code: "x".to_owned(), message: "m".to_owned(), fatal: false };
    assert_eq!(
        greet(Greeting::Text(Ok(other))),
        Welcome::Fail(AgentError::Rejected { code: "x".to_owned(), message: "m".to_owned() })
    );
}

#[test]
fn only_pongs_keep_a_session_alive() {
    let limit = Duration::from_nanos(100);
    let mut session = Session { last_pong: 0 };
    let ping = Event::Text { message: Ok(Message::Ping { timestamp: now() }), now: 90, timestamp: now() };
    match session.step(limit, "host", ping) {
        Action::Send(Message::Pong { timestamp }) => assert_eq!(timestamp, now()),
        _ => panic!("a ping is answered"),
    }
    match session.step(limit, "host", Event::Tick { now: 99, timestamp: now() }) {
        Action::Send(Message::Ping { .. }) => {},
        _ => panic!("the heartbeat goes on"),
    }
    match session.step(limit, "host", Event::Tick { now: 100, timestamp: now() }) {
        Action::End(SessionEnd::Lost(None)) => {},
        _ => panic!("a silent hub is lost"),
    }
    let pong = Event::Text { message: Ok(Message::Pong { timestamp: now() }), now: 60, timestamp: now() };
    assert!(matches!(session.step(limit, "host", pong), Action::Ignore));
    assert_eq!(session.last_pong, 60);
    match session.step(limit, "host", Event::Tick { now: 159, timestamp: now() }) {
        Action::Send(Message::Ping { .. }) => {},
        _ => panic!("a pong keeps the session"),
    }
}

#[test]
fn malformed_texts_and_short_frames_are_ignored() {
    let limit = Duration::from_secs(90);
    let mut session = Session { last_pong: 0 };
    let bad = Event::Text { message: Err(sentinelx::message::MalformedMessage), now: 1, timestamp: now() };
    assert!(matches!(session.step(limit, "host", bad), Action::Ignore));
    assert!(matches!(session.step(limit, "host", Event::Binary(vec![0; 19])), Action::Ignore));
    assert!(matches!(session.step(limit, "host", Event::Other), Action::Ignore));
    let mild = Message::Error { code: "c".to_owned(), message: "m".to_owned(), fatal: false };
    assert!(matches!(
        session.step(limit, "host", Event::Text { message: Ok(mild), now: 1, timestamp: now() }),
        Action::Ignore
    ));
    let fatal = Message::Error { code: "c".to_owned(), message: "m".to_owned(), fatal: true };
    assert!(matches!(
        session.step(limit, "host", Event::Text { message: Ok(fatal), now: 1, timestamp: now() }),
        Action::Fail(AgentError::Rejected { .. })
    ));
}

#[test]
fn closes_tell_when_to_come_back() {
    let limit = Duration::from_secs(90);
    let mut session = Session { last_pong: 0 };
    let close = Event::Close { code: Some(1012), reason: "hub_shutdown;retry_after=37".to_owned() };
    match session.step(limit, "host", close) {
        Action::End(end) => assert_eq!(end, SessionEnd::Restart(Some(Duration::from_secs(37)))),
        _ => panic!("a close ends the session"),
    }
    match session.step(limit, "host", Event::Close { code: Some(1000), reason: "bye".to_owned() }) {
        Action::End(end) => assert_eq!(end, SessionEnd::Lost(None)),
        _ => panic!("a close ends the session"),
    }
    match session.step(limit, "host", Event::Close { code: None, reason: "retry_after=5".to_owned() }) {
        Action::End(end) => assert_eq!(end, SessionEnd::Lost(None)),
        _ => panic!("a close ends the session"),
    }
    assert!(matches!(session.step(limit, "host", Event::Cancelled), Action::Close(SessionEnd::Clean)));
    assert!(matches!(session.step(limit, "host", Event::Broken), Action::End(SessionEnd::Lost(None))));
}

#[test]
fn requests_are_dispatched_or_go_to_the_background() {
    let limit = Duration::from_secs(90);
    let mut session = Session { last_pong: 0 };
    match session.step(limit, "host", request(object(r#"{"command":"ls"}"#))) {
        Action::Dispatch { id, op, payload } => {
            assert_eq!(id, "req");
            assert_eq!(op, Op::Exec);
            assert_eq!(text_field(&payload, "command"), Some("ls"));
        },
        _ => panic!("a request is dispatched"),
    }
    match session.step(limit, "host_1", request(object(r#"{"background":true,"job_id":"job_x"}"#))) {
        Action::Background { ack, id, op, job_id, .. } => {
            assert_eq!((id.as_str(), op, job_id.as_str()), ("req", Op::Exec, "job_x"));
            match ack {
                Message::Response { ok, result: Some(result), .. } => {
                    assert!(ok);
                    assert_eq!(shown(result), r#"{"host":"host_1","job_id":"job_x","status":"running","tool":"exec"}"#);
                },
                _ => panic!("no acknowledgement"),
            }
        },
        _ => panic!("a background request is acknowledged"),
    }
    match session.step(limit, "host", request(object(r#"{"background":true}"#))) {
        Action::Background { job_id, .. } => {
            assert_eq!(job_id.len(), 16);
            assert!(job_id.starts_with("job_"));
        },
        _ => panic!("a background request is acknowledged"),
    }
}

#[test]
fn job_ids_are_made_of_twelve_digits() {
    assert_eq!(job_id_from(&object("{}"), 0xabc), "job_000000000abc");
    assert_eq!(job_id_from(&object("{}"), u64::MAX), "job_ffffffffffff");
    assert_eq!(job_id_from(&object(r#"{"job_id":"mine"}"#), 1), "mine");
}

#[test]
fn inbound_frames_are_stored_with_their_place() {
    let mut session = Session { last_pong: 0 };
    let raw = encode_binary_frame([0x5a; 16], 9, b"chunk");
    match session.step(Duration::from_secs(90), "host", Event::Binary(raw)) {
        Action::Store { transfer_id, chunk_index, chunk } => {
            assert_eq!(transfer_id, "5a".repeat(16));
            assert_eq!(chunk_index, 9);
            assert_eq!(chunk, b"chunk");
        },
        _ => panic!("a frame is stored"),
    }
}

#[test]
fn unsupported_operations_and_panics_are_answered() {
    assert_eq!(
        write_json(&UnsupportedDispatcher.dispatch("x", Op::Git).to_json()),
        r#"{"error":{"code":"unsupported_op","details":null,"message":"agent does not support op: git"},"id":"x","ok":false,"result":null,"type":"response"}"#
    );
    assert_eq!(
        write_json(&broken_handler("x").to_json()),
        r#"{"error":{"code":"internal_error","details":null,"message":"operation handler panicked"},"id":"x","ok":false,"result":null,"type":"response"}"#
    );
}

#[test]
fn binary_results_go_out_as_a_frame_and_a_message() {
    let mut result = object(r#"{"chunk_index":7,"last":true}"#);
    set_field(&mut result, "transfer_id", string(&"0f".repeat(16)));
    set_field(&mut result, "__binary_payload__", string("Y2h1bms="));
    let out = outgoing(Message::Response { id: "x".to_owned(), ok: true, result: Some(result), error: None });
    let frame = out.frame.unwrap();
    let decoded = decode_binary_frame(&frame).unwrap();
    assert_eq!(decoded.transfer_id, [15; 16]);
    assert_eq!(decoded.chunk_index, 7);
    assert_eq!(decoded.payload, b"chunk");
    assert!(!write_json(&out.wire).contains("__binary_payload__"));
}

#[test]
fn broken_binary_results_become_errors() {
    let emit = |text: &str| {
        let out = outgoing(Message::Response { id: "x".to_owned(), ok: true, result: Some(object(text)), error: None });
        assert!(out.frame.is_none());
        let wire = into_object(out.wire);
        assert_eq!(flag_field(&wire, "ok"), Some(false));
        let error = object_field(&wire, "error").unwrap();
        assert_eq!(text_field(error, "code"), Some("binary_emit_error"));
        text_field(error, "message").unwrap().to_owned()
    };
    assert_eq!(emit(r#"{"__binary_payload__":"AA=="}"#), "missing transfer_id");
    assert_eq!(emit(r#"{"__binary_payload__":"AA==","transfer_id":"00"}"#), "missing chunk_index");
    assert_eq!(
        emit(r#"{"__binary_payload__":"AA==","transfer_id":"00","chunk_index":4294967296}"#),
        "chunk_index exceeds u32"
    );
    let id = "00".repeat(16);
    let broken = format!(r#"{{"__binary_payload__":"*","transfer_id":"{id}","chunk_index":1}}"#);
    assert!(emit(&broken).starts_with("invalid internal binary payload: "));
    assert!(frame_for(&object(&format!(r#"{{"transfer_id":"{id}","chunk_index":1}}"#)), "AA==").is_ok());
}

#[test]
fn responses_carry_their_timing() {
    let timed = with_timing(
        Message::Response { id: "x".to_owned(), ok: true, result: Some(object("{}")), error: None },
        1_500_000,
        2_000_001,
    );
    match timed {
        Message::Response { result: Some(result), .. } => {
            assert_eq!(shown(result), r#"{"_sx_timing":{"finished_at":2.000001,"received_at":1.5}}"#);
        },
        _ => panic!("the result is gone"),
    }
    let binary = with_timing(
        Message::Response { id: "x".to_owned(), ok: true, result: Some(object(r#"{"__binary_payload__":"x"}"#)), error: None },
        1,
        2,
    );
    match binary {
        Message::Response { result: Some(result), .. } => assert_eq!(shown(result), r#"{"__binary_payload__":"x"}"#),
        _ => panic!("the result is gone"),
    }
}

#[test]
fn long_results_fit_before_they_are_kept() {
    let mut result = object(r#"{"returncode":0}"#);
    set_field(&mut result, "output", string(&"y".repeat(400_000)));
    let fitted = fit_response(Message::Response { id: "x".to_owned(), ok: true, result: Some(result), error: None });
    match fitted {
        Message::Response { result: Some(result), .. } => {
            assert!(text_field(&result, "output").unwrap().len() < 140_000);
            assert!(object_field(&result, "_truncation").is_some());
        },
        _ => panic!("the result is gone"),
    }
}

#[test]
fn completions_tell_of_the_job() {
    let response = Message::Response {
        id: "x".to_owned(),
        ok: false,
        result: None,
        error: Some(ResponseError { code: "c".to_owned(), message: "m".to_owned(), details: None }),
    };
    let start = Timestamp { secs: 10, nanos: 0 };
    let finish = Timestamp { secs: 12, nanos: 500_000_000 };
    match completion("job", Op::Exec, "host", &response, start, finish, now()) {
        Message::Event { kind, data, timestamp } => {
            assert_eq!(kind, "job_completed");
            assert_eq!(timestamp, now());
            assert_eq!(text_field(&data, "job_id"), Some("job"));
            assert_eq!(text_field(&data, "status"), Some("failed"));
        },
        _ => panic!("no event"),
    }
}

#[test]
fn chunks_are_acknowledged() {
    let ack = |outcome| match chunk_ack("ab", 3, outcome, now()) {
        Message::Event { kind, data, .. } => {
            assert_eq!(kind, "transfer_chunk_ack");
            shown(data)
        },
        _ => panic!("no event"),
    };
    assert_eq!(ack(ChunkOutcome::Stored(5)), r#"{"bytes":5,"chunk_index":3,"ok":true,"transfer_id":"ab"}"#);
    assert_eq!(
        ack(ChunkOutcome::Refused { code: "c".to_owned(), message: "m".to_owned() }),
        r#"{"chunk_index":3,"error":"c: m","ok":false,"transfer_id":"ab"}"#
    );
    assert_eq!(
        ack(ChunkOutcome::Broken("e".to_owned())),
        r#"{"chunk_index":3,"error":"ingest_error: e","ok":false,"transfer_id":"ab"}"#
    );
}

#[test]
fn completions_are_cleared_only_once_sent() {
    assert_eq!(Delivery::Persist.after(true), Delivery::Send { kept: true });
    assert_eq!(Delivery::Persist.after(false), Delivery::Send { kept: false });
    assert_eq!(Delivery::Send { kept: true }.after(true), Delivery::Clear);
    assert_eq!(Delivery::Send { kept: true }.after(false), Delivery::Waiting);
    assert_eq!(Delivery::Send { kept: false }.after(true), Delivery::Done);
    assert_eq!(Delivery::Clear.after(true), Delivery::Done);
}

#[test]
fn errors_say_what_happened() {
    assert_eq!(
        ConfigError::ZeroDuration("connect_timeout").message(),
        "connect_timeout must be greater than zero"
    );
    assert_eq!(AgentError::Timeout("welcome").message(), "welcome timed out");
}
