//! The messages of the protocol, and their form as JSON: every field is written,
//! an unknown field is refused, and a message reads back as itself.

use crate::json::{
    as_text, copy_object, count, field, fields, get, group_json_views, lemma_get_put, lemma_position, no_fields,
    no_object, put, set_field, string, strings, text_list, text_or_null, trees, Entries, Fields, Json, Num, Number,
    Object, Tree,
};
use crate::op::{op_name, op_named, Op};
use crate::text::{among, bytes_of, chars_of, opt_view, same, str_views, views};
use crate::time::{parse_time, parsed_time, rfc3339, rfc3339_text, Timestamp};
use crate::wire::{carried, parsed_json, plain, printed_json, read_json, sound, write_json, MAX_DEPTH};
use vstd::prelude::*;

verus! {

pub const PROTOCOL_VERSION: &'static str = "1.13.0";

pub const PROTOCOL_MAJOR: u32 = 1;

pub const MAX_FRAME_BYTES: usize = 1_048_576;

pub const RECOMMENDED_CHUNK_BYTES: usize = 262_144;

pub const HEARTBEAT_INTERVAL_SECS: u64 = 30;

pub const HEARTBEAT_TIMEOUT_SECS: u64 = 90;

pub const TRANSFER_CHUNK_BYTES: usize = 1_048_576;

pub const MAX_BINARY_FRAME_BYTES: usize = 2_097_152;

/// The longest reference that a request may carry, in characters.
pub const MAX_OPAQUE_REF: usize = 256;

/// How much is configured on a host.
#[derive(Debug, Clone, PartialEq, Eq)]
pub struct ConfigSummary {
    pub allowed_command_count: Option<u64>,
    pub file_ops_path_count: Option<u64>,
    pub file_ops_rw_count: Option<u64>,
    pub service_count: Option<u64>,
    pub playbook_count: Option<u64>,
    pub trusted_fetch_host_count: Option<u64>,
    pub exec_timeout_default: Option<u64>,
    pub exec_timeout_max: Option<u64>,
}

impl Default for ConfigSummary {
    fn default() -> (r: Self)
        ensures
            r == (ConfigSummary {
                allowed_command_count: None,
                file_ops_path_count: None,
                file_ops_rw_count: None,
                service_count: None,
                playbook_count: None,
                trusted_fetch_host_count: None,
                exec_timeout_default: None,
                exec_timeout_max: None,
            }),
    {
        ConfigSummary {
            allowed_command_count: None,
            file_ops_path_count: None,
            file_ops_rw_count: None,
            service_count: None,
            playbook_count: None,
            trusted_fetch_host_count: None,
            exec_timeout_default: None,
            exec_timeout_max: None,
        }
    }
}

/// What a host tells of itself.
#[derive(Debug, Clone, PartialEq, Eq)]
pub struct HostInfo {
    pub id: String,
    pub hostname: String,
    pub os: String,
    pub kernel: Option<String>,
    pub arch: Option<String>,
    pub cpu_model: Option<String>,
    pub cpu_cores: Option<u64>,
    pub mem_total_bytes: Option<u64>,
    pub disk_total_bytes: Option<u64>,
    pub machine_type: Option<String>,
    pub distro: Option<String>,
    pub config_summary: Option<ConfigSummary>,
}

/// Which set of tools an agent prefers.
#[derive(Debug, Clone, Copy, PartialEq, Eq, Structural)]
pub enum PreferredProfile {
    Compact,
    Full,
}

/// Why a request failed.
#[derive(Debug, PartialEq, Eq)]
pub struct ResponseError {
    pub code: String,
    pub message: String,
    pub details: Option<Object>,
}

/// A message between hub and agent.
#[derive(Debug, PartialEq, Eq)]
pub enum Message {
    Hello {
        protocol_version: String,
        agent_version: String,
        agent_name: Option<String>,
        host: HostInfo,
        capabilities: Vec<String>,
        preferred_profile: Option<PreferredProfile>,
    },
    Welcome {
        session_id: String,
        server_time: Timestamp,
        heartbeat_interval_seconds: u64,
    },
    Request {
        id: String,
        op: Op,
        payload: Object,
        deadline: Option<Timestamp>,
        opaque_ref: Option<String>,
    },
    Response {
        id: String,
        ok: bool,
        result: Option<Object>,
        error: Option<ResponseError>,
    },
    Ping {
        timestamp: Timestamp,
    },
    Pong {
        timestamp: Timestamp,
    },
    Event {
        kind: String,
        data: Object,
        timestamp: Timestamp,
    },
    Error {
        code: String,
        message: String,
        fatal: bool,
    },
}

/// A JSON value that is no message.
#[derive(Debug, Clone, Copy, PartialEq, Eq, Structural)]
pub struct MalformedMessage;

pub open spec fn opt_text_tree(s: Option<String>) -> Tree {
    text_or_null(opt_view(s))
}

pub open spec fn opt_count_tree(n: Option<u64>) -> Tree {
    match n {
        Some(n) => Tree::Number(Num::Pos(n)),
        None => Tree::Null,
    }
}

pub open spec fn profile_name(p: PreferredProfile) -> Seq<char> {
    match p {
        PreferredProfile::Compact => "compact"@,
        PreferredProfile::Full => "full"@,
    }
}

pub open spec fn opt_profile_tree(p: Option<PreferredProfile>) -> Tree {
    match p {
        Some(p) => Tree::Text(profile_name(p)),
        None => Tree::Null,
    }
}

/// A time as a message writes it.
pub open spec fn time_tree(t: Timestamp) -> Tree {
    Tree::Text(rfc3339_text(t.secs, t.nanos, false, true))
}

pub open spec fn opt_time_tree(t: Option<Timestamp>) -> Tree {
    match t {
        Some(t) => time_tree(t),
        None => Tree::Null,
    }
}

pub open spec fn opt_fields_tree(o: Option<Object>) -> Tree {
    match o {
        Some(o) => Tree::Object(fields(o@)),
        None => Tree::Null,
    }
}

pub open spec fn summary_tree(s: ConfigSummary) -> Tree {
    Tree::Object(
        no_fields().with("allowed_command_count"@, opt_count_tree(s.allowed_command_count)).with("file_ops_path_count"@, opt_count_tree(s.file_ops_path_count)).with("file_ops_rw_count"@, opt_count_tree(s.file_ops_rw_count)).with("service_count"@, opt_count_tree(s.service_count)).with("playbook_count"@, opt_count_tree(s.playbook_count)).with("trusted_fetch_host_count"@, opt_count_tree(s.trusted_fetch_host_count)).with("exec_timeout_default"@, opt_count_tree(s.exec_timeout_default)).with("exec_timeout_max"@, opt_count_tree(s.exec_timeout_max)),
    )
}

pub open spec fn opt_summary_tree(s: Option<ConfigSummary>) -> Tree {
    match s {
        Some(s) => summary_tree(s),
        None => Tree::Null,
    }
}

pub open spec fn host_tree(h: HostInfo) -> Tree {
    Tree::Object(
        no_fields().with("id"@, Tree::Text(h.id@)).with("hostname"@, Tree::Text(h.hostname@)).with("os"@, Tree::Text(h.os@)).with("kernel"@, opt_text_tree(h.kernel)).with("arch"@, opt_text_tree(h.arch)).with("cpu_model"@, opt_text_tree(h.cpu_model)).with("cpu_cores"@, opt_count_tree(h.cpu_cores)).with("mem_total_bytes"@, opt_count_tree(h.mem_total_bytes)).with("disk_total_bytes"@, opt_count_tree(h.disk_total_bytes)).with("machine_type"@, opt_text_tree(h.machine_type)).with("distro"@, opt_text_tree(h.distro)).with("config_summary"@, opt_summary_tree(h.config_summary)),
    )
}

pub open spec fn failure_tree(e: ResponseError) -> Tree {
    Tree::Object(
        no_fields().with("code"@, Tree::Text(e.code@)).with("message"@, Tree::Text(e.message@)).with(
            "details"@,
            opt_fields_tree(e.details),
        ),
    )
}

pub open spec fn opt_failure_tree(e: Option<ResponseError>) -> Tree {
    match e {
        Some(e) => failure_tree(e),
        None => Tree::Null,
    }
}

/// What a message is as JSON.
pub open spec fn message_tree(m: Message) -> Tree {
    Tree::Object(
        match m {
            Message::Hello { protocol_version, agent_version, agent_name, host, capabilities, preferred_profile } => no_fields().with("type"@, Tree::Text("hello"@)).with("protocol_version"@, Tree::Text(protocol_version@)).with("agent_version"@, Tree::Text(agent_version@)).with("agent_name"@, opt_text_tree(agent_name)).with("host"@, host_tree(host)).with("capabilities"@, text_list(views(capabilities@))).with("preferred_profile"@, opt_profile_tree(preferred_profile)),
            Message::Welcome { session_id, server_time, heartbeat_interval_seconds } => no_fields().with("type"@, Tree::Text("welcome"@)).with("session_id"@, Tree::Text(session_id@)).with("server_time"@, time_tree(server_time)).with("heartbeat_interval_seconds"@, Tree::Number(Num::Pos(heartbeat_interval_seconds))),
            Message::Request { id, op, payload, deadline, opaque_ref } => no_fields().with("type"@, Tree::Text("request"@)).with("id"@, Tree::Text(id@)).with("op"@, Tree::Text(op_name(op))).with("payload"@, Tree::Object(fields(payload@))).with("deadline"@, opt_time_tree(deadline)).with("opaque_ref"@, opt_text_tree(opaque_ref)),
            Message::Response { id, ok, result, error } => no_fields().with("type"@, Tree::Text("response"@)).with("id"@, Tree::Text(id@)).with("ok"@, Tree::Bool(ok)).with("result"@, opt_fields_tree(result)).with("error"@, opt_failure_tree(error)),
            Message::Ping { timestamp } => no_fields().with("type"@, Tree::Text("ping"@)).with("timestamp"@, time_tree(timestamp)),
            Message::Pong { timestamp } => no_fields().with("type"@, Tree::Text("pong"@)).with("timestamp"@, time_tree(timestamp)),
            Message::Event { kind, data, timestamp } => no_fields().with("type"@, Tree::Text("event"@)).with("kind"@, Tree::Text(kind@)).with("data"@, Tree::Object(fields(data@))).with("timestamp"@, time_tree(timestamp)),
            Message::Error { code, message, fatal } => no_fields().with("type"@, Tree::Text("error"@)).with("code"@, Tree::Text(code@)).with("message"@, Tree::Text(message@)).with("fatal"@, Tree::Bool(fatal)),
        },
    )
}

/// Every key is one of `names`.
pub open spec fn keys_within(o: Fields, names: Seq<Seq<char>>) -> bool {
    forall|i: int| 0 <= i < o.len() ==> names.contains(#[trigger] o[i].0)
}

pub open spec fn is_text(v: Option<Tree>) -> bool {
    v matches Some(Tree::Text(_))
}

pub open spec fn may_text(v: Option<Tree>) -> bool {
    v matches None || v matches Some(Tree::Null) || v matches Some(Tree::Text(_))
}

pub open spec fn may_default_text(v: Option<Tree>) -> bool {
    v matches None || v matches Some(Tree::Text(_))
}

pub open spec fn may_count(v: Option<Tree>) -> bool {
    v matches None || v matches Some(Tree::Null) || v matches Some(Tree::Number(Num::Pos(_)))
}

pub open spec fn may_default_count(v: Option<Tree>) -> bool {
    v matches None || v matches Some(Tree::Number(Num::Pos(_)))
}

pub open spec fn is_flag(v: Option<Tree>) -> bool {
    v matches Some(Tree::Bool(_))
}

pub open spec fn may_default_flag(v: Option<Tree>) -> bool {
    v matches None || v matches Some(Tree::Bool(_))
}

pub open spec fn may_fields(v: Option<Tree>) -> bool {
    v matches None || v matches Some(Tree::Null) || v matches Some(Tree::Object(_))
}

pub open spec fn may_default_fields(v: Option<Tree>) -> bool {
    v matches None || v matches Some(Tree::Object(_))
}

pub open spec fn may_texts(v: Option<Tree>) -> bool {
    match v {
        None => true,
        Some(Tree::Array(items)) => forall|i: int| 0 <= i < items.len() ==> #[trigger] items[i] is Text,
        _ => false,
    }
}

pub open spec fn is_time(v: Option<Tree>) -> bool {
    match v {
        Some(Tree::Text(s)) => parsed_time(s) is Some,
        _ => false,
    }
}

pub open spec fn may_time(v: Option<Tree>) -> bool {
    v matches None || v matches Some(Tree::Null) || is_time(v)
}

pub open spec fn is_op(v: Option<Tree>) -> bool {
    match v {
        Some(Tree::Text(s)) => op_named(s) is Some,
        _ => false,
    }
}

pub open spec fn may_profile(v: Option<Tree>) -> bool {
    match v {
        None | Some(Tree::Null) => true,
        Some(Tree::Text(s)) => s == "compact"@ || s == "full"@,
        _ => false,
    }
}

/// A reference of at most 256 characters, or none.
pub open spec fn may_ref(v: Option<Tree>) -> bool {
    match v {
        None | Some(Tree::Null) => true,
        Some(Tree::Text(s)) => s.len() <= MAX_OPAQUE_REF,
        _ => false,
    }
}

pub open spec fn value_of(v: Option<Tree>) -> Tree {
    or_else(v, Tree::Null)
}

pub open spec fn or_else(v: Option<Tree>, other: Tree) -> Tree {
    match v {
        Some(t) => t,
        None => other,
    }
}

pub open spec fn settled_time(v: Option<Tree>) -> Tree {
    match v {
        Some(Tree::Text(s)) => match parsed_time(s) {
            Some(t) => time_tree(t),
            None => Tree::Null,
        },
        _ => Tree::Null,
    }
}

pub open spec fn settled_opt_time(v: Option<Tree>) -> Tree {
    settled_time(v)
}

pub open spec fn summary_keys() -> Seq<Seq<char>> {
    seq!["allowed_command_count"@, "file_ops_path_count"@, "file_ops_rw_count"@, "service_count"@, "playbook_count"@, "trusted_fetch_host_count"@, "exec_timeout_default"@, "exec_timeout_max"@]
}

/// Fields that are a summary.
pub open spec fn summary_fits(o: Fields) -> bool {
    &&& keys_within(o, summary_keys())
    &&& may_count(get(o, "allowed_command_count"@))
    &&& may_count(get(o, "file_ops_path_count"@))
    &&& may_count(get(o, "file_ops_rw_count"@))
    &&& may_count(get(o, "service_count"@))
    &&& may_count(get(o, "playbook_count"@))
    &&& may_count(get(o, "trusted_fetch_host_count"@))
    &&& may_count(get(o, "exec_timeout_default"@))
    &&& may_count(get(o, "exec_timeout_max"@))
}

pub open spec fn settled_summary_fields(o: Fields) -> Fields {
    no_fields().with("allowed_command_count"@, or_else(get(o, "allowed_command_count"@), Tree::Null)).with("file_ops_path_count"@, or_else(get(o, "file_ops_path_count"@), Tree::Null)).with("file_ops_rw_count"@, or_else(get(o, "file_ops_rw_count"@), Tree::Null)).with("service_count"@, or_else(get(o, "service_count"@), Tree::Null)).with("playbook_count"@, or_else(get(o, "playbook_count"@), Tree::Null)).with("trusted_fetch_host_count"@, or_else(get(o, "trusted_fetch_host_count"@), Tree::Null)).with("exec_timeout_default"@, or_else(get(o, "exec_timeout_default"@), Tree::Null)).with("exec_timeout_max"@, or_else(get(o, "exec_timeout_max"@), Tree::Null))
}

pub open spec fn may_summary(v: Option<Tree>) -> bool {
    match v {
        None | Some(Tree::Null) => true,
        Some(Tree::Object(o)) => summary_fits(o),
        _ => false,
    }
}

pub open spec fn settled_summary(v: Option<Tree>) -> Tree {
    match v {
        Some(Tree::Object(o)) => Tree::Object(settled_summary_fields(o)),
        _ => Tree::Null,
    }
}

pub open spec fn host_keys() -> Seq<Seq<char>> {
    seq!["id"@, "hostname"@, "os"@, "kernel"@, "arch"@, "cpu_model"@, "cpu_cores"@, "mem_total_bytes"@, "disk_total_bytes"@, "machine_type"@, "distro"@, "config_summary"@]
}

/// Fields that describe a host.
pub open spec fn host_fits(o: Fields) -> bool {
    &&& keys_within(o, host_keys())
    &&& is_text(get(o, "id"@))
    &&& is_text(get(o, "hostname"@))
    &&& may_default_text(get(o, "os"@))
    &&& may_text(get(o, "kernel"@))
    &&& may_text(get(o, "arch"@))
    &&& may_text(get(o, "cpu_model"@))
    &&& may_count(get(o, "cpu_cores"@))
    &&& may_count(get(o, "mem_total_bytes"@))
    &&& may_count(get(o, "disk_total_bytes"@))
    &&& may_text(get(o, "machine_type"@))
    &&& may_text(get(o, "distro"@))
    &&& may_summary(get(o, "config_summary"@))
}

pub open spec fn settled_host_fields(o: Fields) -> Fields {
    no_fields().with("id"@, value_of(get(o, "id"@))).with("hostname"@, value_of(get(o, "hostname"@))).with("os"@, or_else(get(o, "os"@), Tree::Text("linux"@))).with("kernel"@, or_else(get(o, "kernel"@), Tree::Null)).with("arch"@, or_else(get(o, "arch"@), Tree::Null)).with("cpu_model"@, or_else(get(o, "cpu_model"@), Tree::Null)).with("cpu_cores"@, or_else(get(o, "cpu_cores"@), Tree::Null)).with("mem_total_bytes"@, or_else(get(o, "mem_total_bytes"@), Tree::Null)).with("disk_total_bytes"@, or_else(get(o, "disk_total_bytes"@), Tree::Null)).with("machine_type"@, or_else(get(o, "machine_type"@), Tree::Null)).with("distro"@, or_else(get(o, "distro"@), Tree::Null)).with("config_summary"@, settled_summary(get(o, "config_summary"@)))
}

pub open spec fn is_host(v: Option<Tree>) -> bool {
    match v {
        Some(Tree::Object(o)) => host_fits(o),
        _ => false,
    }
}

pub open spec fn settled_host(v: Option<Tree>) -> Tree {
    match v {
        Some(Tree::Object(o)) => Tree::Object(settled_host_fields(o)),
        _ => Tree::Null,
    }
}

pub open spec fn failure_keys() -> Seq<Seq<char>> {
    seq!["code"@, "message"@, "details"@]
}

/// Fields that are a response's error.
pub open spec fn failure_fits(o: Fields) -> bool {
    &&& keys_within(o, failure_keys())
    &&& is_text(get(o, "code"@))
    &&& is_text(get(o, "message"@))
    &&& may_fields(get(o, "details"@))
}

pub open spec fn settled_failure_fields(o: Fields) -> Fields {
    no_fields().with("code"@, value_of(get(o, "code"@))).with("message"@, value_of(get(o, "message"@))).with("details"@, or_else(get(o, "details"@), Tree::Null))
}

pub open spec fn may_failure(v: Option<Tree>) -> bool {
    match v {
        None | Some(Tree::Null) => true,
        Some(Tree::Object(o)) => failure_fits(o),
        _ => false,
    }
}

pub open spec fn settled_failure(v: Option<Tree>) -> Tree {
    match v {
        Some(Tree::Object(o)) => Tree::Object(settled_failure_fields(o)),
        _ => Tree::Null,
    }
}

/// Fields that are a message.
pub open spec fn message_fits(o: Fields) -> bool {
    match as_text(get(o, "type"@)) {
        None => false,
        Some(kind) => if kind == "hello"@ {
            &&& keys_within(o, hello_keys())
            &&& is_text(get(o, "protocol_version"@))
            &&& is_text(get(o, "agent_version"@))
            &&& may_text(get(o, "agent_name"@))
            &&& is_host(get(o, "host"@))
            &&& may_texts(get(o, "capabilities"@))
            &&& may_profile(get(o, "preferred_profile"@))
        } else if kind == "welcome"@ {
            &&& keys_within(o, welcome_keys())
            &&& is_text(get(o, "session_id"@))
            &&& is_time(get(o, "server_time"@))
            &&& may_default_count(get(o, "heartbeat_interval_seconds"@))
        } else if kind == "request"@ {
            &&& keys_within(o, request_keys())
            &&& is_text(get(o, "id"@))
            &&& is_op(get(o, "op"@))
            &&& may_default_fields(get(o, "payload"@))
            &&& may_time(get(o, "deadline"@))
            &&& may_ref(get(o, "opaque_ref"@))
        } else if kind == "response"@ {
            &&& keys_within(o, response_keys())
            &&& is_text(get(o, "id"@))
            &&& is_flag(get(o, "ok"@))
            &&& may_fields(get(o, "result"@))
            &&& may_failure(get(o, "error"@))
        } else if kind == "ping"@ {
            &&& keys_within(o, ping_keys())
            &&& is_time(get(o, "timestamp"@))
        } else if kind == "pong"@ {
            &&& keys_within(o, pong_keys())
            &&& is_time(get(o, "timestamp"@))
        } else if kind == "event"@ {
            &&& keys_within(o, event_keys())
            &&& is_text(get(o, "kind"@))
            &&& may_default_fields(get(o, "data"@))
            &&& is_time(get(o, "timestamp"@))
        } else if kind == "error"@ {
            &&& keys_within(o, error_keys())
            &&& is_text(get(o, "code"@))
            &&& is_text(get(o, "message"@))
            &&& may_default_flag(get(o, "fatal"@))
        } else {
            false
        },
    }
}

pub open spec fn hello_keys() -> Seq<Seq<char>> {
    seq!["type"@, "protocol_version"@, "agent_version"@, "agent_name"@, "host"@, "capabilities"@, "preferred_profile"@]
}

pub open spec fn welcome_keys() -> Seq<Seq<char>> {
    seq!["type"@, "session_id"@, "server_time"@, "heartbeat_interval_seconds"@]
}

pub open spec fn request_keys() -> Seq<Seq<char>> {
    seq!["type"@, "id"@, "op"@, "payload"@, "deadline"@, "opaque_ref"@]
}

pub open spec fn response_keys() -> Seq<Seq<char>> {
    seq!["type"@, "id"@, "ok"@, "result"@, "error"@]
}

pub open spec fn ping_keys() -> Seq<Seq<char>> {
    seq!["type"@, "timestamp"@]
}

pub open spec fn pong_keys() -> Seq<Seq<char>> {
    seq!["type"@, "timestamp"@]
}

pub open spec fn event_keys() -> Seq<Seq<char>> {
    seq!["type"@, "kind"@, "data"@, "timestamp"@]
}

pub open spec fn error_keys() -> Seq<Seq<char>> {
    seq!["type"@, "code"@, "message"@, "fatal"@]
}

/// The fields of a message with what was left out filled in.
pub open spec fn settled_message(o: Fields) -> Fields {
    let kind = match as_text(get(o, "type"@)) {
        Some(kind) => kind,
        None => Seq::empty(),
    };
    if kind == "hello"@ {
        no_fields().with("type"@, Tree::Text("hello"@)).with("protocol_version"@, value_of(get(o, "protocol_version"@))).with("agent_version"@, value_of(get(o, "agent_version"@))).with("agent_name"@, or_else(get(o, "agent_name"@), Tree::Null)).with("host"@, settled_host(get(o, "host"@))).with("capabilities"@, or_else(get(o, "capabilities"@), Tree::Array(Seq::empty()))).with("preferred_profile"@, or_else(get(o, "preferred_profile"@), Tree::Null))
    } else if kind == "welcome"@ {
        no_fields().with("type"@, Tree::Text("welcome"@)).with("session_id"@, value_of(get(o, "session_id"@))).with("server_time"@, settled_time(get(o, "server_time"@))).with("heartbeat_interval_seconds"@, or_else(get(o, "heartbeat_interval_seconds"@), Tree::Number(Num::Pos(HEARTBEAT_INTERVAL_SECS))))
    } else if kind == "request"@ {
        no_fields().with("type"@, Tree::Text("request"@)).with("id"@, value_of(get(o, "id"@))).with("op"@, value_of(get(o, "op"@))).with("payload"@, or_else(get(o, "payload"@), Tree::Object(no_fields()))).with("deadline"@, settled_opt_time(get(o, "deadline"@))).with("opaque_ref"@, or_else(get(o, "opaque_ref"@), Tree::Null))
    } else if kind == "response"@ {
        no_fields().with("type"@, Tree::Text("response"@)).with("id"@, value_of(get(o, "id"@))).with("ok"@, value_of(get(o, "ok"@))).with("result"@, or_else(get(o, "result"@), Tree::Null)).with("error"@, settled_failure(get(o, "error"@)))
    } else if kind == "ping"@ {
        no_fields().with("type"@, Tree::Text("ping"@)).with("timestamp"@, settled_time(get(o, "timestamp"@)))
    } else if kind == "pong"@ {
        no_fields().with("type"@, Tree::Text("pong"@)).with("timestamp"@, settled_time(get(o, "timestamp"@)))
    } else if kind == "event"@ {
        no_fields().with("type"@, Tree::Text("event"@)).with("kind"@, value_of(get(o, "kind"@))).with("data"@, or_else(get(o, "data"@), Tree::Object(no_fields()))).with("timestamp"@, settled_time(get(o, "timestamp"@)))
    } else if kind == "error"@ {
        no_fields().with("type"@, Tree::Text("error"@)).with("code"@, value_of(get(o, "code"@))).with("message"@, value_of(get(o, "message"@))).with("fatal"@, or_else(get(o, "fatal"@), Tree::Bool(true)))
    } else {
        o
    }
}

/// Whether every key of `o` is one of `names`.
fn only_keys(o: &Object, names: &Vec<&'static str>) -> (r: bool)
    ensures
        r == keys_within(fields(o@), str_views(names@)),
{
    let mut i: usize = 0;
    while i < o.len()
        invariant
            i <= o@.len(),
            forall|j: int| 0 <= j < i ==> str_views(names@).contains(#[trigger] fields(o@)[j].0),
        decreases o@.len() - i,
    {
        if !among(&o[i].0, names) {
            assert(fields(o@)[i as int].0 == o@[i as int].0@);
            return false;
        }
        i = i + 1;
    }
    true
}

fn read_text(o: &Object, k: &str) -> (r: Option<String>)
    ensures
        r is Some <==> is_text(get(fields(o@), k@)),
        r matches Some(v) ==> Tree::Text(v@) == value_of(get(fields(o@), k@)),
{
    broadcast use group_json_views;

    match field(o, k) {
        Some(Json::Text(s)) => Some(s.clone()),
        _ => None,
    }
}

fn read_os(o: &Object, k: &str) -> (r: Option<String>)
    ensures
        r is Some <==> may_default_text(get(fields(o@), k@)),
        r matches Some(v) ==> Tree::Text(v@) == or_else(get(fields(o@), k@), Tree::Text("linux"@)),
{
    broadcast use group_json_views;

    match field(o, k) {
        None => Some("linux".to_owned()),
        Some(Json::Text(s)) => Some(s.clone()),
        _ => None,
    }
}

fn read_opt_text(o: &Object, k: &str) -> (r: Option<Option<String>>)
    ensures
        r is Some <==> may_text(get(fields(o@), k@)),
        r matches Some(v) ==> opt_text_tree(v) == or_else(get(fields(o@), k@), Tree::Null),
{
    broadcast use group_json_views;

    match field(o, k) {
        None | Some(Json::Null) => Some(None),
        Some(Json::Text(s)) => Some(Some(s.clone())),
        _ => None,
    }
}

fn read_opt_ref(o: &Object, k: &str) -> (r: Option<Option<String>>)
    ensures
        r is Some <==> may_ref(get(fields(o@), k@)),
        r matches Some(v) ==> opt_text_tree(v) == or_else(get(fields(o@), k@), Tree::Null),
{
    broadcast use group_json_views;

    match field(o, k) {
        None | Some(Json::Null) => Some(None),
        Some(Json::Text(s)) => if chars_of(s).len() <= MAX_OPAQUE_REF {
            Some(Some(s.clone()))
        } else {
            None
        },
        _ => None,
    }
}

fn read_opt_count(o: &Object, k: &str) -> (r: Option<Option<u64>>)
    ensures
        r is Some <==> may_count(get(fields(o@), k@)),
        r matches Some(v) ==> opt_count_tree(v) == or_else(get(fields(o@), k@), Tree::Null),
{
    broadcast use group_json_views;

    match field(o, k) {
        None | Some(Json::Null) => Some(None),
        Some(Json::Number(Number::Pos(n))) => Some(Some(*n)),
        _ => None,
    }
}

fn read_heartbeat(o: &Object, k: &str) -> (r: Option<u64>)
    ensures
        r is Some <==> may_default_count(get(fields(o@), k@)),
        r matches Some(v) ==> Tree::Number(Num::Pos(v)) == or_else(get(fields(o@), k@), Tree::Number(Num::Pos(HEARTBEAT_INTERVAL_SECS))),
{
    broadcast use group_json_views;

    match field(o, k) {
        None => Some(HEARTBEAT_INTERVAL_SECS),
        Some(Json::Number(Number::Pos(n))) => Some(*n),
        _ => None,
    }
}

fn read_flag(o: &Object, k: &str) -> (r: Option<bool>)
    ensures
        r is Some <==> is_flag(get(fields(o@), k@)),
        r matches Some(v) ==> Tree::Bool(v) == value_of(get(fields(o@), k@)),
{
    broadcast use group_json_views;

    match field(o, k) {
        Some(Json::Bool(b)) => Some(*b),
        _ => None,
    }
}

fn read_fatal(o: &Object, k: &str) -> (r: Option<bool>)
    ensures
        r is Some <==> may_default_flag(get(fields(o@), k@)),
        r matches Some(v) ==> Tree::Bool(v) == or_else(get(fields(o@), k@), Tree::Bool(true)),
{
    broadcast use group_json_views;

    match field(o, k) {
        None => Some(true),
        Some(Json::Bool(b)) => Some(*b),
        _ => None,
    }
}

fn read_fields(o: &Object, k: &str) -> (r: Option<Object>)
    ensures
        r is Some <==> may_default_fields(get(fields(o@), k@)),
        r matches Some(v) ==> Tree::Object(fields(v@)) == or_else(get(fields(o@), k@), Tree::Object(no_fields())),
{
    broadcast use group_json_views;

    match field(o, k) {
        None => Some(no_object()),
        Some(Json::Object(f)) => Some(copy_object(f)),
        _ => None,
    }
}

fn read_opt_fields(o: &Object, k: &str) -> (r: Option<Option<Object>>)
    ensures
        r is Some <==> may_fields(get(fields(o@), k@)),
        r matches Some(v) ==> opt_fields_tree(v) == or_else(get(fields(o@), k@), Tree::Null),
{
    broadcast use group_json_views;

    match field(o, k) {
        None | Some(Json::Null) => Some(None),
        Some(Json::Object(f)) => Some(Some(copy_object(f))),
        _ => None,
    }
}

fn read_time(o: &Object, k: &str) -> (r: Option<Timestamp>)
    ensures
        r is Some <==> is_time(get(fields(o@), k@)),
        r matches Some(v) ==> time_tree(v) == settled_time(get(fields(o@), k@)),
{
    broadcast use group_json_views;

    match field(o, k) {
        Some(Json::Text(s)) => parse_time(s),
        _ => None,
    }
}

fn read_opt_time(o: &Object, k: &str) -> (r: Option<Option<Timestamp>>)
    ensures
        r is Some <==> may_time(get(fields(o@), k@)),
        r matches Some(v) ==> opt_time_tree(v) == settled_opt_time(get(fields(o@), k@)),
{
    broadcast use group_json_views;

    match field(o, k) {
        None | Some(Json::Null) => Some(None),
        Some(Json::Text(s)) => match parse_time(s) {
            Some(t) => Some(Some(t)),
            None => None,
        },
        _ => None,
    }
}

fn read_op(o: &Object, k: &str) -> (r: Option<Op>)
    ensures
        r is Some <==> is_op(get(fields(o@), k@)),
        r matches Some(v) ==> Tree::Text(op_name(v)) == value_of(get(fields(o@), k@)),
{
    broadcast use group_json_views;

    match field(o, k) {
        Some(Json::Text(s)) => {
            let op = Op::from_name(s);
            proof {
                crate::op::lemma_op_named(s@);
            }
            op
        },
        _ => None,
    }
}

/// The preference that a name stands for.
pub fn named_profile(name: &str) -> (r: Option<PreferredProfile>)
    ensures
        match r {
            Some(p) => name@ == profile_name(p),
            None => forall|p: PreferredProfile| name@ != #[trigger] profile_name(p),
        },
{
    if same(name, "compact") {
        Some(PreferredProfile::Compact)
    } else if same(name, "full") {
        Some(PreferredProfile::Full)
    } else {
        None
    }
}

fn read_opt_profile(o: &Object, k: &str) -> (r: Option<Option<PreferredProfile>>)
    ensures
        r is Some <==> may_profile(get(fields(o@), k@)),
        r matches Some(v) ==> opt_profile_tree(v) == or_else(get(fields(o@), k@), Tree::Null),
{
    broadcast use group_json_views;

    match field(o, k) {
        None | Some(Json::Null) => Some(None),
        Some(Json::Text(s)) => match named_profile(s) {
            Some(p) => Some(Some(p)),
            None => {
                assert(s@ != profile_name(PreferredProfile::Compact) && s@ != profile_name(PreferredProfile::Full));
                None
            },
        },
        _ => None,
    }
}

fn read_texts(o: &Object, k: &str) -> (r: Option<Vec<String>>)
    ensures
        r is Some <==> may_texts(get(fields(o@), k@)),
        r matches Some(v) ==> text_list(views(v@)) == or_else(get(fields(o@), k@), Tree::Array(Seq::empty())),
{
    broadcast use group_json_views;

    match field(o, k) {
        None => {
            let r: Vec<String> = Vec::new();
            assert(Seq::new(views(r@).len(), |i: int| Tree::Text(views(r@)[i])) =~= Seq::empty());
            Some(r)
        },
        Some(Json::Array(items)) => {
            let mut r: Vec<String> = Vec::new();
            let mut i: usize = 0;
            while i < items.len()
                invariant
                    i <= items@.len(),
                    r@.len() == i,
                    get(fields(o@), k@) == Some(Tree::Array(trees(items@))),
                    forall|j: int| 0 <= j < i ==> (#[trigger] items@[j])@ == Tree::Text(r@[j]@),
                decreases items@.len() - i,
            {
                match &items[i] {
                    Json::Text(s) => r.push(s.clone()),
                    _ => {
                        assert(!(trees(items@)[i as int] is Text));
                        return None;
                    },
                }
                i = i + 1;
            }
            assert(trees(items@) =~= Seq::new(views(r@).len(), |i: int| Tree::Text(views(r@)[i])));
            Some(r)
        },
        _ => None,
    }
}

fn summary_of(o: &Object) -> (r: Option<ConfigSummary>)
    ensures
        r is Some <==> summary_fits(fields(o@)),
        r matches Some(v) ==> summary_tree(v) == Tree::Object(settled_summary_fields(fields(o@))),
{
    let names: Vec<&'static str> = vec!["allowed_command_count", "file_ops_path_count", "file_ops_rw_count", "service_count", "playbook_count", "trusted_fetch_host_count", "exec_timeout_default", "exec_timeout_max"];
    assert(str_views(names@) =~= summary_keys());
    if !only_keys(o, &names) {
        return None;
    }
    let allowed_command_count = match read_opt_count(o, "allowed_command_count") {
        Some(v) => v,
        None => return None,
    };
    let file_ops_path_count = match read_opt_count(o, "file_ops_path_count") {
        Some(v) => v,
        None => return None,
    };
    let file_ops_rw_count = match read_opt_count(o, "file_ops_rw_count") {
        Some(v) => v,
        None => return None,
    };
    let service_count = match read_opt_count(o, "service_count") {
        Some(v) => v,
        None => return None,
    };
    let playbook_count = match read_opt_count(o, "playbook_count") {
        Some(v) => v,
        None => return None,
    };
    let trusted_fetch_host_count = match read_opt_count(o, "trusted_fetch_host_count") {
        Some(v) => v,
        None => return None,
    };
    let exec_timeout_default = match read_opt_count(o, "exec_timeout_default") {
        Some(v) => v,
        None => return None,
    };
    let exec_timeout_max = match read_opt_count(o, "exec_timeout_max") {
        Some(v) => v,
        None => return None,
    };
    Some(ConfigSummary { allowed_command_count, file_ops_path_count, file_ops_rw_count, service_count, playbook_count, trusted_fetch_host_count, exec_timeout_default, exec_timeout_max })
}

fn read_opt_summary(o: &Object, k: &str) -> (r: Option<Option<ConfigSummary>>)
    ensures
        r is Some <==> may_summary(get(fields(o@), k@)),
        r matches Some(v) ==> opt_summary_tree(v) == settled_summary(get(fields(o@), k@)),
{
    broadcast use group_json_views;

    match field(o, k) {
        None | Some(Json::Null) => Some(None),
        Some(Json::Object(f)) => match summary_of(f) {
            Some(s) => Some(Some(s)),
            None => None,
        },
        _ => None,
    }
}

fn host_of(o: &Object) -> (r: Option<HostInfo>)
    ensures
        r is Some <==> host_fits(fields(o@)),
        r matches Some(v) ==> host_tree(v) == Tree::Object(settled_host_fields(fields(o@))),
{
    let names: Vec<&'static str> = vec!["id", "hostname", "os", "kernel", "arch", "cpu_model", "cpu_cores", "mem_total_bytes", "disk_total_bytes", "machine_type", "distro", "config_summary"];
    assert(str_views(names@) =~= host_keys());
    if !only_keys(o, &names) {
        return None;
    }
    let id = match read_text(o, "id") {
        Some(v) => v,
        None => return None,
    };
    let hostname = match read_text(o, "hostname") {
        Some(v) => v,
        None => return None,
    };
    let os = match read_os(o, "os") {
        Some(v) => v,
        None => return None,
    };
    let kernel = match read_opt_text(o, "kernel") {
        Some(v) => v,
        None => return None,
    };
    let arch = match read_opt_text(o, "arch") {
        Some(v) => v,
        None => return None,
    };
    let cpu_model = match read_opt_text(o, "cpu_model") {
        Some(v) => v,
        None => return None,
    };
    let cpu_cores = match read_opt_count(o, "cpu_cores") {
        Some(v) => v,
        None => return None,
    };
    let mem_total_bytes = match read_opt_count(o, "mem_total_bytes") {
        Some(v) => v,
        None => return None,
    };
    let disk_total_bytes = match read_opt_count(o, "disk_total_bytes") {
        Some(v) => v,
        None => return None,
    };
    let machine_type = match read_opt_text(o, "machine_type") {
        Some(v) => v,
        None => return None,
    };
    let distro = match read_opt_text(o, "distro") {
        Some(v) => v,
        None => return None,
    };
    let config_summary = match read_opt_summary(o, "config_summary") {
        Some(v) => v,
        None => return None,
    };
    Some(HostInfo { id, hostname, os, kernel, arch, cpu_model, cpu_cores, mem_total_bytes, disk_total_bytes, machine_type, distro, config_summary })
}

fn read_host(o: &Object, k: &str) -> (r: Option<HostInfo>)
    ensures
        r is Some <==> is_host(get(fields(o@), k@)),
        r matches Some(v) ==> host_tree(v) == settled_host(get(fields(o@), k@)),
{
    broadcast use group_json_views;

    match field(o, k) {
        Some(Json::Object(f)) => host_of(f),
        _ => None,
    }
}

fn failure_of(o: &Object) -> (r: Option<ResponseError>)
    ensures
        r is Some <==> failure_fits(fields(o@)),
        r matches Some(v) ==> failure_tree(v) == Tree::Object(settled_failure_fields(fields(o@))),
{
    let names: Vec<&'static str> = vec!["code", "message", "details"];
    assert(str_views(names@) =~= failure_keys());
    if !only_keys(o, &names) {
        return None;
    }
    let code = match read_text(o, "code") {
        Some(v) => v,
        None => return None,
    };
    let message = match read_text(o, "message") {
        Some(v) => v,
        None => return None,
    };
    let details = match read_opt_fields(o, "details") {
        Some(v) => v,
        None => return None,
    };
    Some(ResponseError { code, message, details })
}

fn read_opt_error(o: &Object, k: &str) -> (r: Option<Option<ResponseError>>)
    ensures
        r is Some <==> may_failure(get(fields(o@), k@)),
        r matches Some(v) ==> opt_failure_tree(v) == settled_failure(get(fields(o@), k@)),
{
    broadcast use group_json_views;

    match field(o, k) {
        None | Some(Json::Null) => Some(None),
        Some(Json::Object(f)) => match failure_of(f) {
            Some(e) => Some(Some(e)),
            None => None,
        },
        _ => None,
    }
}

fn hello_message(o: &Object) -> (r: Option<Message>)
    requires
        as_text(get(fields(o@), "type"@)) == Some("hello"@),
    ensures
        r is Some <==> {
            &&& keys_within(fields(o@), hello_keys())
            &&& is_text(get(fields(o@), "protocol_version"@))
            &&& is_text(get(fields(o@), "agent_version"@))
            &&& may_text(get(fields(o@), "agent_name"@))
            &&& is_host(get(fields(o@), "host"@))
            &&& may_texts(get(fields(o@), "capabilities"@))
            &&& may_profile(get(fields(o@), "preferred_profile"@))
        },
        r matches Some(m) ==> message_tree(m) == Tree::Object(
            no_fields().with("type"@, Tree::Text("hello"@)).with("protocol_version"@, value_of(get(fields(o@), "protocol_version"@))).with("agent_version"@, value_of(get(fields(o@), "agent_version"@))).with("agent_name"@, or_else(get(fields(o@), "agent_name"@), Tree::Null)).with("host"@, settled_host(get(fields(o@), "host"@))).with("capabilities"@, or_else(get(fields(o@), "capabilities"@), Tree::Array(Seq::empty()))).with("preferred_profile"@, or_else(get(fields(o@), "preferred_profile"@), Tree::Null)),
        ),
{
    let names: Vec<&'static str> = vec!["type", "protocol_version", "agent_version", "agent_name", "host", "capabilities", "preferred_profile"];
    assert(str_views(names@) =~= hello_keys());
    if !only_keys(o, &names) {
        return None;
    }
    let protocol_version = match read_text(o, "protocol_version") {
        Some(v) => v,
        None => return None,
    };
    let agent_version = match read_text(o, "agent_version") {
        Some(v) => v,
        None => return None,
    };
    let agent_name = match read_opt_text(o, "agent_name") {
        Some(v) => v,
        None => return None,
    };
    let host = match read_host(o, "host") {
        Some(v) => v,
        None => return None,
    };
    let capabilities = match read_texts(o, "capabilities") {
        Some(v) => v,
        None => return None,
    };
    let preferred_profile = match read_opt_profile(o, "preferred_profile") {
        Some(v) => v,
        None => return None,
    };
    Some(Message::Hello { protocol_version, agent_version, agent_name, host, capabilities, preferred_profile })
}

fn welcome_message(o: &Object) -> (r: Option<Message>)
    requires
        as_text(get(fields(o@), "type"@)) == Some("welcome"@),
    ensures
        r is Some <==> {
            &&& keys_within(fields(o@), welcome_keys())
            &&& is_text(get(fields(o@), "session_id"@))
            &&& is_time(get(fields(o@), "server_time"@))
            &&& may_default_count(get(fields(o@), "heartbeat_interval_seconds"@))
        },
        r matches Some(m) ==> message_tree(m) == Tree::Object(
            no_fields().with("type"@, Tree::Text("welcome"@)).with("session_id"@, value_of(get(fields(o@), "session_id"@))).with("server_time"@, settled_time(get(fields(o@), "server_time"@))).with("heartbeat_interval_seconds"@, or_else(get(fields(o@), "heartbeat_interval_seconds"@), Tree::Number(Num::Pos(HEARTBEAT_INTERVAL_SECS)))),
        ),
{
    let names: Vec<&'static str> = vec!["type", "session_id", "server_time", "heartbeat_interval_seconds"];
    assert(str_views(names@) =~= welcome_keys());
    if !only_keys(o, &names) {
        return None;
    }
    let session_id = match read_text(o, "session_id") {
        Some(v) => v,
        None => return None,
    };
    let server_time = match read_time(o, "server_time") {
        Some(v) => v,
        None => return None,
    };
    let heartbeat_interval_seconds = match read_heartbeat(o, "heartbeat_interval_seconds") {
        Some(v) => v,
        None => return None,
    };
    Some(Message::Welcome { session_id, server_time, heartbeat_interval_seconds })
}

fn request_message(o: &Object) -> (r: Option<Message>)
    requires
        as_text(get(fields(o@), "type"@)) == Some("request"@),
    ensures
        r is Some <==> {
            &&& keys_within(fields(o@), request_keys())
            &&& is_text(get(fields(o@), "id"@))
            &&& is_op(get(fields(o@), "op"@))
            &&& may_default_fields(get(fields(o@), "payload"@))
            &&& may_time(get(fields(o@), "deadline"@))
            &&& may_ref(get(fields(o@), "opaque_ref"@))
        },
        r matches Some(m) ==> message_tree(m) == Tree::Object(
            no_fields().with("type"@, Tree::Text("request"@)).with("id"@, value_of(get(fields(o@), "id"@))).with("op"@, value_of(get(fields(o@), "op"@))).with("payload"@, or_else(get(fields(o@), "payload"@), Tree::Object(no_fields()))).with("deadline"@, settled_opt_time(get(fields(o@), "deadline"@))).with("opaque_ref"@, or_else(get(fields(o@), "opaque_ref"@), Tree::Null)),
        ),
{
    let names: Vec<&'static str> = vec!["type", "id", "op", "payload", "deadline", "opaque_ref"];
    assert(str_views(names@) =~= request_keys());
    if !only_keys(o, &names) {
        return None;
    }
    let id = match read_text(o, "id") {
        Some(v) => v,
        None => return None,
    };
    let op = match read_op(o, "op") {
        Some(v) => v,
        None => return None,
    };
    let payload = match read_fields(o, "payload") {
        Some(v) => v,
        None => return None,
    };
    let deadline = match read_opt_time(o, "deadline") {
        Some(v) => v,
        None => return None,
    };
    let opaque_ref = match read_opt_ref(o, "opaque_ref") {
        Some(v) => v,
        None => return None,
    };
    Some(Message::Request { id, op, payload, deadline, opaque_ref })
}

fn response_message(o: &Object) -> (r: Option<Message>)
    requires
        as_text(get(fields(o@), "type"@)) == Some("response"@),
    ensures
        r is Some <==> {
            &&& keys_within(fields(o@), response_keys())
            &&& is_text(get(fields(o@), "id"@))
            &&& is_flag(get(fields(o@), "ok"@))
            &&& may_fields(get(fields(o@), "result"@))
            &&& may_failure(get(fields(o@), "error"@))
        },
        r matches Some(m) ==> message_tree(m) == Tree::Object(
            no_fields().with("type"@, Tree::Text("response"@)).with("id"@, value_of(get(fields(o@), "id"@))).with("ok"@, value_of(get(fields(o@), "ok"@))).with("result"@, or_else(get(fields(o@), "result"@), Tree::Null)).with("error"@, settled_failure(get(fields(o@), "error"@))),
        ),
{
    let names: Vec<&'static str> = vec!["type", "id", "ok", "result", "error"];
    assert(str_views(names@) =~= response_keys());
    if !only_keys(o, &names) {
        return None;
    }
    let id = match read_text(o, "id") {
        Some(v) => v,
        None => return None,
    };
    let ok = match read_flag(o, "ok") {
        Some(v) => v,
        None => return None,
    };
    let result = match read_opt_fields(o, "result") {
        Some(v) => v,
        None => return None,
    };
    let error = match read_opt_error(o, "error") {
        Some(v) => v,
        None => return None,
    };
    Some(Message::Response { id, ok, result, error })
}

fn ping_message(o: &Object) -> (r: Option<Message>)
    requires
        as_text(get(fields(o@), "type"@)) == Some("ping"@),
    ensures
        r is Some <==> {
            &&& keys_within(fields(o@), ping_keys())
            &&& is_time(get(fields(o@), "timestamp"@))
        },
        r matches Some(m) ==> message_tree(m) == Tree::Object(
            no_fields().with("type"@, Tree::Text("ping"@)).with("timestamp"@, settled_time(get(fields(o@), "timestamp"@))),
        ),
{
    let names: Vec<&'static str> = vec!["type", "timestamp"];
    assert(str_views(names@) =~= ping_keys());
    if !only_keys(o, &names) {
        return None;
    }
    let timestamp = match read_time(o, "timestamp") {
        Some(v) => v,
        None => return None,
    };
    Some(Message::Ping { timestamp })
}

fn pong_message(o: &Object) -> (r: Option<Message>)
    requires
        as_text(get(fields(o@), "type"@)) == Some("pong"@),
    ensures
        r is Some <==> {
            &&& keys_within(fields(o@), pong_keys())
            &&& is_time(get(fields(o@), "timestamp"@))
        },
        r matches Some(m) ==> message_tree(m) == Tree::Object(
            no_fields().with("type"@, Tree::Text("pong"@)).with("timestamp"@, settled_time(get(fields(o@), "timestamp"@))),
        ),
{
    let names: Vec<&'static str> = vec!["type", "timestamp"];
    assert(str_views(names@) =~= pong_keys());
    if !only_keys(o, &names) {
        return None;
    }
    let timestamp = match read_time(o, "timestamp") {
        Some(v) => v,
        None => return None,
    };
    Some(Message::Pong { timestamp })
}

fn event_message(o: &Object) -> (r: Option<Message>)
    requires
        as_text(get(fields(o@), "type"@)) == Some("event"@),
    ensures
        r is Some <==> {
            &&& keys_within(fields(o@), event_keys())
            &&& is_text(get(fields(o@), "kind"@))
            &&& may_default_fields(get(fields(o@), "data"@))
            &&& is_time(get(fields(o@), "timestamp"@))
        },
        r matches Some(m) ==> message_tree(m) == Tree::Object(
            no_fields().with("type"@, Tree::Text("event"@)).with("kind"@, value_of(get(fields(o@), "kind"@))).with("data"@, or_else(get(fields(o@), "data"@), Tree::Object(no_fields()))).with("timestamp"@, settled_time(get(fields(o@), "timestamp"@))),
        ),
{
    let names: Vec<&'static str> = vec!["type", "kind", "data", "timestamp"];
    assert(str_views(names@) =~= event_keys());
    if !only_keys(o, &names) {
        return None;
    }
    let kind = match read_text(o, "kind") {
        Some(v) => v,
        None => return None,
    };
    let data = match read_fields(o, "data") {
        Some(v) => v,
        None => return None,
    };
    let timestamp = match read_time(o, "timestamp") {
        Some(v) => v,
        None => return None,
    };
    Some(Message::Event { kind, data, timestamp })
}

fn error_message(o: &Object) -> (r: Option<Message>)
    requires
        as_text(get(fields(o@), "type"@)) == Some("error"@),
    ensures
        r is Some <==> {
            &&& keys_within(fields(o@), error_keys())
            &&& is_text(get(fields(o@), "code"@))
            &&& is_text(get(fields(o@), "message"@))
            &&& may_default_flag(get(fields(o@), "fatal"@))
        },
        r matches Some(m) ==> message_tree(m) == Tree::Object(
            no_fields().with("type"@, Tree::Text("error"@)).with("code"@, value_of(get(fields(o@), "code"@))).with("message"@, value_of(get(fields(o@), "message"@))).with("fatal"@, or_else(get(fields(o@), "fatal"@), Tree::Bool(true))),
        ),
{
    let names: Vec<&'static str> = vec!["type", "code", "message", "fatal"];
    assert(str_views(names@) =~= error_keys());
    if !only_keys(o, &names) {
        return None;
    }
    let code = match read_text(o, "code") {
        Some(v) => v,
        None => return None,
    };
    let message = match read_text(o, "message") {
        Some(v) => v,
        None => return None,
    };
    let fatal = match read_fatal(o, "fatal") {
        Some(v) => v,
        None => return None,
    };
    Some(Message::Error { code, message, fatal })
}

fn opt_text_json(s: &Option<String>) -> (r: Json)
    ensures
        r@ == opt_text_tree(*s),
{
    match s {
        Some(s) => string(s),
        None => Json::Null,
    }
}

fn opt_count_json(n: &Option<u64>) -> (r: Json)
    ensures
        r@ == opt_count_tree(*n),
{
    match n {
        Some(n) => count(*n),
        None => Json::Null,
    }
}

fn opt_profile_json(p: &Option<PreferredProfile>) -> (r: Json)
    ensures
        r@ == opt_profile_tree(*p),
{
    match p {
        Some(PreferredProfile::Compact) => string("compact"),
        Some(PreferredProfile::Full) => string("full"),
        None => Json::Null,
    }
}

fn time_json(t: Timestamp) -> (r: Json)
    ensures
        r@ == time_tree(t),
        t.common() ==> reads_back(t),
{
    Json::Text(rfc3339(t, false, true))
}

fn opt_time_json(t: &Option<Timestamp>) -> (r: Json)
    ensures
        r@ == opt_time_tree(*t),
        t matches Some(t) ==> t.common() ==> reads_back(*t),
{
    match t {
        Some(t) => time_json(*t),
        None => Json::Null,
    }
}

fn opt_fields_json(o: &Option<Object>) -> (r: Json)
    ensures
        r@ == opt_fields_tree(*o),
{
    broadcast use group_json_views;

    match o {
        Some(o) => Json::Object(copy_object(o)),
        None => Json::Null,
    }
}

fn opt_summary_json(s: &Option<ConfigSummary>) -> (r: Json)
    ensures
        r@ == opt_summary_tree(*s),
{
    match s {
        Some(s) => s.to_json(),
        None => Json::Null,
    }
}

fn opt_error_json(e: &Option<ResponseError>) -> (r: Json)
    ensures
        r@ == opt_failure_tree(*e),
{
    match e {
        Some(e) => e.to_json(),
        None => Json::Null,
    }
}

impl ConfigSummary {
    pub fn to_json(&self) -> (r: Json)
        ensures
            r@ == summary_tree(*self),
    {
        broadcast use group_json_views;

        let mut o = no_object();
        set_field(&mut o, "allowed_command_count", opt_count_json(&self.allowed_command_count));
        set_field(&mut o, "file_ops_path_count", opt_count_json(&self.file_ops_path_count));
        set_field(&mut o, "file_ops_rw_count", opt_count_json(&self.file_ops_rw_count));
        set_field(&mut o, "service_count", opt_count_json(&self.service_count));
        set_field(&mut o, "playbook_count", opt_count_json(&self.playbook_count));
        set_field(&mut o, "trusted_fetch_host_count", opt_count_json(&self.trusted_fetch_host_count));
        set_field(&mut o, "exec_timeout_default", opt_count_json(&self.exec_timeout_default));
        set_field(&mut o, "exec_timeout_max", opt_count_json(&self.exec_timeout_max));
        Json::Object(o)
    }
}

impl HostInfo {
    pub fn to_json(&self) -> (r: Json)
        ensures
            r@ == host_tree(*self),
    {
        broadcast use group_json_views;

        let mut o = no_object();
        set_field(&mut o, "id", string(&self.id));
        set_field(&mut o, "hostname", string(&self.hostname));
        set_field(&mut o, "os", string(&self.os));
        set_field(&mut o, "kernel", opt_text_json(&self.kernel));
        set_field(&mut o, "arch", opt_text_json(&self.arch));
        set_field(&mut o, "cpu_model", opt_text_json(&self.cpu_model));
        set_field(&mut o, "cpu_cores", opt_count_json(&self.cpu_cores));
        set_field(&mut o, "mem_total_bytes", opt_count_json(&self.mem_total_bytes));
        set_field(&mut o, "disk_total_bytes", opt_count_json(&self.disk_total_bytes));
        set_field(&mut o, "machine_type", opt_text_json(&self.machine_type));
        set_field(&mut o, "distro", opt_text_json(&self.distro));
        set_field(&mut o, "config_summary", opt_summary_json(&self.config_summary));
        Json::Object(o)
    }
}

impl ResponseError {
    pub fn to_json(&self) -> (r: Json)
        ensures
            r@ == failure_tree(*self),
    {
        broadcast use group_json_views;

        let mut o = no_object();
        set_field(&mut o, "code", string(&self.code));
        set_field(&mut o, "message", string(&self.message));
        set_field(&mut o, "details", opt_fields_json(&self.details));
        Json::Object(o)
    }
}

/// The time reads back from the form that a message gives it.
pub open spec fn reads_back(t: Timestamp) -> bool {
    parsed_time(rfc3339_text(t.secs, t.nanos, false, true)) == Some(t)
}

/// The times that a message carries.
pub open spec fn message_times(m: Message) -> Seq<Timestamp> {
    match m {
        Message::Welcome { server_time, .. } => seq![server_time],
        Message::Request { deadline: Some(t), .. } => seq![t],
        Message::Ping { timestamp } => seq![timestamp],
        Message::Pong { timestamp } => seq![timestamp],
        Message::Event { timestamp, .. } => seq![timestamp],
        _ => Seq::empty(),
    }
}

/// A reference that a message carries is not too long.
pub open spec fn short_ref(m: Message) -> bool {
    match m {
        Message::Request { opaque_ref: Some(s), .. } => s@.len() <= MAX_OPAQUE_REF,
        _ => true,
    }
}

/// A text that is a message: an object in JSON with a known type, no unknown field, and
/// every field of its kind.
pub open spec fn is_message_text(text: Seq<char>) -> bool {
    parsed_json(bytes_of(text)) matches Ok(Tree::Object(o)) && message_fits(o)
}

/// The fields of a text that is a message.
pub open spec fn text_fields(text: Seq<char>) -> Fields {
    match parsed_json(bytes_of(text)) {
        Ok(Tree::Object(o)) => o,
        _ => no_fields(),
    }
}

impl Message {
    /// The message as JSON.
    pub fn to_json(&self) -> (r: Json)
        ensures
            r@ == message_tree(*self),
            forall|i: int| 0 <= i < message_times(*self).len() && (#[trigger] message_times(*self)[i]).common() ==> reads_back(message_times(*self)[i]),
    {
        broadcast use group_json_views;

        let mut o = no_object();
        match self {
            Message::Hello { protocol_version, agent_version, agent_name, host, capabilities, preferred_profile } => {
                set_field(&mut o, "type", string("hello"));
                set_field(&mut o, "protocol_version", string(protocol_version));
                set_field(&mut o, "agent_version", string(agent_version));
                set_field(&mut o, "agent_name", opt_text_json(agent_name));
                set_field(&mut o, "host", host.to_json());
                set_field(&mut o, "capabilities", strings(capabilities));
                set_field(&mut o, "preferred_profile", opt_profile_json(preferred_profile));
            },
            Message::Welcome { session_id, server_time, heartbeat_interval_seconds } => {
                set_field(&mut o, "type", string("welcome"));
                set_field(&mut o, "session_id", string(session_id));
                set_field(&mut o, "server_time", time_json(*server_time));
                set_field(&mut o, "heartbeat_interval_seconds", count(*heartbeat_interval_seconds));
            },
            Message::Request { id, op, payload, deadline, opaque_ref } => {
                set_field(&mut o, "type", string("request"));
                set_field(&mut o, "id", string(id));
                set_field(&mut o, "op", string(op.as_str()));
                set_field(&mut o, "payload", Json::Object(copy_object(payload)));
                set_field(&mut o, "deadline", opt_time_json(deadline));
                set_field(&mut o, "opaque_ref", opt_text_json(opaque_ref));
            },
            Message::Response { id, ok, result, error } => {
                set_field(&mut o, "type", string("response"));
                set_field(&mut o, "id", string(id));
                set_field(&mut o, "ok", Json::Bool(*ok));
                set_field(&mut o, "result", opt_fields_json(result));
                set_field(&mut o, "error", opt_error_json(error));
            },
            Message::Ping { timestamp } => {
                set_field(&mut o, "type", string("ping"));
                set_field(&mut o, "timestamp", time_json(*timestamp));
            },
            Message::Pong { timestamp } => {
                set_field(&mut o, "type", string("pong"));
                set_field(&mut o, "timestamp", time_json(*timestamp));
            },
            Message::Event { kind, data, timestamp } => {
                set_field(&mut o, "type", string("event"));
                set_field(&mut o, "kind", string(kind));
                set_field(&mut o, "data", Json::Object(copy_object(data)));
                set_field(&mut o, "timestamp", time_json(*timestamp));
            },
            Message::Error { code, message, fatal } => {
                set_field(&mut o, "type", string("error"));
                set_field(&mut o, "code", string(code));
                set_field(&mut o, "message", string(message));
                set_field(&mut o, "fatal", Json::Bool(*fatal));
            },
        }
        Json::Object(o)
    }

    /// The message that a JSON value is: an object with a known type, no unknown
    /// field, and every field of its kind.
    pub fn from_json(value: &Json) -> (r: Result<Message, MalformedMessage>)
        ensures
            r is Ok <==> (value@ matches Tree::Object(o) && message_fits(o)),
            r matches Ok(m) ==> message_tree(m) == Tree::Object(settled_message(value@->Object_0)),
    {
        broadcast use group_json_views;

        let o = match value {
            Json::Object(o) => o,
            _ => return Err(MalformedMessage),
        };
        let kind = match field(o, "type") {
            Some(Json::Text(s)) => s,
            _ => return Err(MalformedMessage),
        };
        let m = if same(kind, "hello") {
            hello_message(o)
        } else if same(kind, "welcome") {
            welcome_message(o)
        } else if same(kind, "request") {
            request_message(o)
        } else if same(kind, "response") {
            response_message(o)
        } else if same(kind, "ping") {
            ping_message(o)
        } else if same(kind, "pong") {
            pong_message(o)
        } else if same(kind, "event") {
            event_message(o)
        } else if same(kind, "error") {
            error_message(o)
        } else {
            None
        };
        match m {
            Some(m) => Ok(m),
            None => Err(MalformedMessage),
        }
    }

    /// The message as it goes over the wire.
    pub fn to_text(&self) -> (r: String)
        ensures
            r@ == printed_json(carried(message_tree(*self))),
            plain(message_tree(*self), MAX_DEPTH as int) ==> parsed_json(bytes_of(r@)) == sound(message_tree(*self)),
            forall|i: int| 0 <= i < message_times(*self).len() && (#[trigger] message_times(*self)[i]).common() ==> reads_back(message_times(*self)[i]),
    {
        write_json(&self.to_json())
    }

    /// The message that a text is: none where it is not JSON, or no message.
    pub fn from_text(text: &str) -> (r: Result<Message, MalformedMessage>)
        ensures
            r is Ok <==> is_message_text(text@),
            r matches Ok(m) ==> message_tree(m) == Tree::Object(settled_message(text_fields(text@))),
    {
        match read_json(text.as_bytes()) {
            Ok(value) => Message::from_json(&value),
            Err(_) => Err(MalformedMessage),
        }
    }

    /// The first message of an agent, without a preference among tools.
    pub fn hello(host: HostInfo, agent_version: String, capabilities: Vec<String>) -> (r: Message)
        ensures
            is_hello(r, host, agent_version@, capabilities, None),
    {
        Message::hello_with_profile(host, agent_version, capabilities, None)
    }

    /// The first message of an agent.
    pub fn hello_with_profile(
        host: HostInfo,
        agent_version: String,
        capabilities: Vec<String>,
        preferred_profile: Option<PreferredProfile>,
    ) -> (r: Message)
        ensures
            is_hello(r, host, agent_version@, capabilities, preferred_profile),
    {
        Message::Hello {
            protocol_version: PROTOCOL_VERSION.to_owned(),
            agent_version,
            agent_name: Some("sentinelx-core".to_owned()),
            host,
            capabilities,
            preferred_profile,
        }
    }
}

fn copy_opt_text(s: &Option<String>) -> (r: Option<String>)
    ensures
        opt_view(r) == opt_view(*s),
{
    match s {
        Some(s) => Some(s.clone()),
        None => None,
    }
}

/// A description equal to `h`.
pub fn copy_host(h: &HostInfo) -> (r: HostInfo)
    ensures
        host_tree(r) == host_tree(*h),
        r.id@ == h.id@,
{
    let config_summary = match &h.config_summary {
        Some(s) => Some(
            ConfigSummary {
                allowed_command_count: s.allowed_command_count,
                file_ops_path_count: s.file_ops_path_count,
                file_ops_rw_count: s.file_ops_rw_count,
                service_count: s.service_count,
                playbook_count: s.playbook_count,
                trusted_fetch_host_count: s.trusted_fetch_host_count,
                exec_timeout_default: s.exec_timeout_default,
                exec_timeout_max: s.exec_timeout_max,
            },
        ),
        None => None,
    };
    HostInfo {
        id: h.id.clone(),
        hostname: h.hostname.clone(),
        os: h.os.clone(),
        kernel: copy_opt_text(&h.kernel),
        arch: copy_opt_text(&h.arch),
        cpu_model: copy_opt_text(&h.cpu_model),
        cpu_cores: h.cpu_cores,
        mem_total_bytes: h.mem_total_bytes,
        disk_total_bytes: h.disk_total_bytes,
        machine_type: copy_opt_text(&h.machine_type),
        distro: copy_opt_text(&h.distro),
        config_summary,
    }
}

/// A greeting in the name of `sentinelx-core` and in this version of the protocol.
pub open spec fn is_hello(
    m: Message,
    host: HostInfo,
    agent_version: Seq<char>,
    capabilities: Vec<String>,
    profile: Option<PreferredProfile>,
) -> bool {
    match m {
        Message::Hello { protocol_version, agent_version: v, agent_name: Some(n), host: h, capabilities: c, preferred_profile: p } => {
            protocol_version@ == PROTOCOL_VERSION@ && v@ == agent_version && n@ == "sentinelx-core"@ && h == host && c
                == capabilities && p == profile
        },
        _ => false,
    }
}

pub broadcast proof fn lemma_put_keys(o: Fields, k: Seq<char>, v: Tree, names: Seq<Seq<char>>)
    ensures
        keys_within(o, names) && names.contains(k) ==> #[trigger] keys_within(put(o, k, v), names),
{
    reveal(put);
    lemma_position(o, k);
    crate::json::lemma_slot(o, k);
    if keys_within(o, names) && names.contains(k) {
        let r = put(o, k, v);
        assert forall|i: int| 0 <= i < r.len() implies names.contains(#[trigger] r[i].0) by {
            let s = crate::json::slot(o, k);
            if crate::json::position(o, k) < o.len() {
                if i != crate::json::position(o, k) {
                    assert(r[i] == o[i]);
                }
            } else if i < s {
                assert(r[i] == o[i]);
            } else if i > s {
                assert(r[i] == o[i - 1]);
            }
        }
    }
}

#[verifier::rlimit(60)]
#[verifier::spinoff_prover]
proof fn lemma_summary_round_trip(s: ConfigSummary)
    ensures
        summary_tree(s) matches Tree::Object(o) && summary_fits(o) && settled_summary_fields(o) == o,
{
    broadcast use {lemma_get_put, lemma_put_keys};

    reveal_strlit("allowed_command_count");
    reveal_strlit("file_ops_path_count");
    reveal_strlit("file_ops_rw_count");
    reveal_strlit("service_count");
    reveal_strlit("playbook_count");
    reveal_strlit("trusted_fetch_host_count");
    reveal_strlit("exec_timeout_default");
    reveal_strlit("exec_timeout_max");
    assert("allowed_command_count"@.len() == 21);
    assert("file_ops_path_count"@.len() == 19);
    assert("file_ops_rw_count"@.len() == 17);
    assert("service_count"@.len() == 13);
    assert("playbook_count"@.len() == 14);
    assert("trusted_fetch_host_count"@.len() == 24);
    assert("exec_timeout_default"@.len() == 20);
    assert("exec_timeout_max"@.len() == 16);
    let names = summary_keys();
    assert(names[0] == "allowed_command_count"@);
    assert(names[1] == "file_ops_path_count"@);
    assert(names[2] == "file_ops_rw_count"@);
    assert(names[3] == "service_count"@);
    assert(names[4] == "playbook_count"@);
    assert(names[5] == "trusted_fetch_host_count"@);
    assert(names[6] == "exec_timeout_default"@);
    assert(names[7] == "exec_timeout_max"@);
    let o = summary_tree(s)->Object_0;
    assert(keys_within(no_fields(), names));
}

#[verifier::rlimit(80)]
#[verifier::spinoff_prover]
proof fn lemma_host_round_trip(h: HostInfo)
    ensures
        host_tree(h) matches Tree::Object(o) && host_fits(o) && settled_host_fields(o) == o,
{
    broadcast use {lemma_get_put, lemma_put_keys};

    reveal_strlit("id");
    reveal_strlit("hostname");
    reveal_strlit("os");
    reveal_strlit("kernel");
    reveal_strlit("arch");
    reveal_strlit("cpu_model");
    reveal_strlit("cpu_cores");
    reveal_strlit("mem_total_bytes");
    reveal_strlit("disk_total_bytes");
    reveal_strlit("machine_type");
    reveal_strlit("distro");
    reveal_strlit("config_summary");
    assert("id"@.len() == 2);
    assert("hostname"@.len() == 8);
    assert("os"@.len() == 2);
    assert("kernel"@.len() == 6);
    assert("arch"@.len() == 4);
    assert("cpu_model"@.len() == 9);
    assert("cpu_cores"@.len() == 9);
    assert("mem_total_bytes"@.len() == 15);
    assert("disk_total_bytes"@.len() == 16);
    assert("machine_type"@.len() == 12);
    assert("distro"@.len() == 6);
    assert("config_summary"@.len() == 14);
    assert("os"@[0] != "id"@[0]);
    assert("cpu_cores"@[4] != "cpu_model"@[4]);
    assert("distro"@[0] != "kernel"@[0]);
    let names = host_keys();
    assert(names[0] == "id"@);
    assert(names[1] == "hostname"@);
    assert(names[2] == "os"@);
    assert(names[3] == "kernel"@);
    assert(names[4] == "arch"@);
    assert(names[5] == "cpu_model"@);
    assert(names[6] == "cpu_cores"@);
    assert(names[7] == "mem_total_bytes"@);
    assert(names[8] == "disk_total_bytes"@);
    assert(names[9] == "machine_type"@);
    assert(names[10] == "distro"@);
    assert(names[11] == "config_summary"@);
    let o = host_tree(h)->Object_0;
    assert(keys_within(no_fields(), names));
    if let Some(s) = h.config_summary {
        lemma_summary_round_trip(s);
    }
}

proof fn lemma_failure_round_trip(e: ResponseError)
    ensures
        failure_tree(e) matches Tree::Object(o) && failure_fits(o) && settled_failure_fields(o) == o,
{
    broadcast use {lemma_get_put, lemma_put_keys};

    reveal_strlit("code");
    reveal_strlit("message");
    reveal_strlit("details");
    assert("code"@.len() == 4);
    assert("message"@.len() == 7);
    assert("details"@.len() == 7);
    assert("details"@[0] != "message"@[0]);
    let names = failure_keys();
    assert(names[0] == "code"@);
    assert(names[1] == "message"@);
    assert(names[2] == "details"@);
    let o = failure_tree(e)->Object_0;
    assert(keys_within(no_fields(), names));
}

#[verifier::rlimit(60)]
#[verifier::spinoff_prover]
proof fn lemma_hello_round_trip(m: Message)
    requires
        m is Hello,
        short_ref(m),
        forall|i: int| 0 <= i < message_times(m).len() ==> reads_back(#[trigger] message_times(m)[i]),
    ensures
        message_tree(m) matches Tree::Object(o) && message_fits(o) && settled_message(o) == o,
{
    broadcast use {lemma_get_put, lemma_put_keys};

    reveal_strlit("type");
    reveal_strlit("protocol_version");
    reveal_strlit("agent_version");
    reveal_strlit("agent_name");
    reveal_strlit("host");
    reveal_strlit("capabilities");
    reveal_strlit("preferred_profile");
    reveal_strlit("hello");
    reveal_strlit("welcome");
    reveal_strlit("request");
    reveal_strlit("response");
    reveal_strlit("ping");
    reveal_strlit("pong");
    reveal_strlit("event");
    reveal_strlit("error");
    reveal_strlit("compact");
    reveal_strlit("full");
    assert("type"@.len() == 4);
    assert("protocol_version"@.len() == 16);
    assert("agent_version"@.len() == 13);
    assert("agent_name"@.len() == 10);
    assert("host"@.len() == 4);
    assert("capabilities"@.len() == 12);
    assert("preferred_profile"@.len() == 17);
    assert("hello"@.len() == 5);
    assert("welcome"@.len() == 7);
    assert("request"@.len() == 7);
    assert("response"@.len() == 8);
    assert("ping"@.len() == 4);
    assert("pong"@.len() == 4);
    assert("event"@.len() == 5);
    assert("error"@.len() == 5);
    assert("compact"@.len() == 7);
    assert("full"@.len() == 4);
    assert("host"@[0] != "type"@[0]);
    assert("request"@[0] != "welcome"@[0]);
    assert("ping"@[0] != "type"@[0]);
    assert("ping"@[0] != "host"@[0]);
    assert("pong"@[0] != "type"@[0]);
    assert("pong"@[0] != "host"@[0]);
    assert("pong"@[1] != "ping"@[1]);
    assert("event"@[0] != "hello"@[0]);
    assert("error"@[0] != "hello"@[0]);
    assert("error"@[1] != "event"@[1]);
    assert("compact"@[0] != "welcome"@[0]);
    assert("compact"@[0] != "request"@[0]);
    assert("full"@[0] != "type"@[0]);
    assert("full"@[0] != "host"@[0]);
    assert("full"@[0] != "ping"@[0]);
    assert("full"@[0] != "pong"@[0]);
    let names = hello_keys();
    assert(names[0] == "type"@);
    assert(names[1] == "protocol_version"@);
    assert(names[2] == "agent_version"@);
    assert(names[3] == "agent_name"@);
    assert(names[4] == "host"@);
    assert(names[5] == "capabilities"@);
    assert(names[6] == "preferred_profile"@);
    let o = message_tree(m)->Object_0;
    assert(keys_within(no_fields(), names));
    assert(get(o, "type"@) == Some(Tree::Text("hello"@)));
    lemma_host_round_trip(m->host);
}

proof fn lemma_welcome_round_trip(m: Message)
    requires
        m is Welcome,
        short_ref(m),
        forall|i: int| 0 <= i < message_times(m).len() ==> reads_back(#[trigger] message_times(m)[i]),
    ensures
        message_tree(m) matches Tree::Object(o) && message_fits(o) && settled_message(o) == o,
{
    broadcast use {lemma_get_put, lemma_put_keys};

    reveal_strlit("type");
    reveal_strlit("session_id");
    reveal_strlit("server_time");
    reveal_strlit("heartbeat_interval_seconds");
    reveal_strlit("hello");
    reveal_strlit("welcome");
    reveal_strlit("request");
    reveal_strlit("response");
    reveal_strlit("ping");
    reveal_strlit("pong");
    reveal_strlit("event");
    reveal_strlit("error");
    assert("type"@.len() == 4);
    assert("session_id"@.len() == 10);
    assert("server_time"@.len() == 11);
    assert("heartbeat_interval_seconds"@.len() == 26);
    assert("hello"@.len() == 5);
    assert("welcome"@.len() == 7);
    assert("request"@.len() == 7);
    assert("response"@.len() == 8);
    assert("ping"@.len() == 4);
    assert("pong"@.len() == 4);
    assert("event"@.len() == 5);
    assert("error"@.len() == 5);
    assert("request"@[0] != "welcome"@[0]);
    assert("ping"@[0] != "type"@[0]);
    assert("pong"@[0] != "type"@[0]);
    assert("pong"@[1] != "ping"@[1]);
    assert("event"@[0] != "hello"@[0]);
    assert("error"@[0] != "hello"@[0]);
    assert("error"@[1] != "event"@[1]);
    let names = welcome_keys();
    assert(names[0] == "type"@);
    assert(names[1] == "session_id"@);
    assert(names[2] == "server_time"@);
    assert(names[3] == "heartbeat_interval_seconds"@);
    let o = message_tree(m)->Object_0;
    assert(keys_within(no_fields(), names));
    assert(get(o, "type"@) == Some(Tree::Text("welcome"@)));
    if message_times(m).len() > 0 {
        assert(reads_back(message_times(m)[0]));
    }
}

proof fn lemma_request_round_trip(m: Message)
    requires
        m is Request,
        short_ref(m),
        forall|i: int| 0 <= i < message_times(m).len() ==> reads_back(#[trigger] message_times(m)[i]),
    ensures
        message_tree(m) matches Tree::Object(o) && message_fits(o) && settled_message(o) == o,
{
    broadcast use {lemma_get_put, lemma_put_keys};

    reveal_strlit("type");
    reveal_strlit("id");
    reveal_strlit("op");
    reveal_strlit("payload");
    reveal_strlit("deadline");
    reveal_strlit("opaque_ref");
    reveal_strlit("hello");
    reveal_strlit("welcome");
    reveal_strlit("request");
    reveal_strlit("response");
    reveal_strlit("ping");
    reveal_strlit("pong");
    reveal_strlit("event");
    reveal_strlit("error");
    assert("type"@.len() == 4);
    assert("id"@.len() == 2);
    assert("op"@.len() == 2);
    assert("payload"@.len() == 7);
    assert("deadline"@.len() == 8);
    assert("opaque_ref"@.len() == 10);
    assert("hello"@.len() == 5);
    assert("welcome"@.len() == 7);
    assert("request"@.len() == 7);
    assert("response"@.len() == 8);
    assert("ping"@.len() == 4);
    assert("pong"@.len() == 4);
    assert("event"@.len() == 5);
    assert("error"@.len() == 5);
    assert("op"@[0] != "id"@[0]);
    assert("welcome"@[0] != "payload"@[0]);
    assert("request"@[0] != "payload"@[0]);
    assert("request"@[0] != "welcome"@[0]);
    assert("response"@[0] != "deadline"@[0]);
    assert("ping"@[0] != "type"@[0]);
    assert("pong"@[0] != "type"@[0]);
    assert("pong"@[1] != "ping"@[1]);
    assert("event"@[0] != "hello"@[0]);
    assert("error"@[0] != "hello"@[0]);
    assert("error"@[1] != "event"@[1]);
    let names = request_keys();
    assert(names[0] == "type"@);
    assert(names[1] == "id"@);
    assert(names[2] == "op"@);
    assert(names[3] == "payload"@);
    assert(names[4] == "deadline"@);
    assert(names[5] == "opaque_ref"@);
    let o = message_tree(m)->Object_0;
    assert(keys_within(no_fields(), names));
    assert(get(o, "type"@) == Some(Tree::Text("request"@)));
    if message_times(m).len() > 0 {
        assert(reads_back(message_times(m)[0]));
    }
    crate::op::names_are_distinct(m->op, m->op);
}

proof fn lemma_response_round_trip(m: Message)
    requires
        m is Response,
        short_ref(m),
        forall|i: int| 0 <= i < message_times(m).len() ==> reads_back(#[trigger] message_times(m)[i]),
    ensures
        message_tree(m) matches Tree::Object(o) && message_fits(o) && settled_message(o) == o,
{
    broadcast use {lemma_get_put, lemma_put_keys};

    reveal_strlit("type");
    reveal_strlit("id");
    reveal_strlit("ok");
    reveal_strlit("result");
    reveal_strlit("error");
    reveal_strlit("hello");
    reveal_strlit("welcome");
    reveal_strlit("request");
    reveal_strlit("response");
    reveal_strlit("ping");
    reveal_strlit("pong");
    reveal_strlit("event");
    assert("type"@.len() == 4);
    assert("id"@.len() == 2);
    assert("ok"@.len() == 2);
    assert("result"@.len() == 6);
    assert("error"@.len() == 5);
    assert("hello"@.len() == 5);
    assert("welcome"@.len() == 7);
    assert("request"@.len() == 7);
    assert("response"@.len() == 8);
    assert("ping"@.len() == 4);
    assert("pong"@.len() == 4);
    assert("event"@.len() == 5);
    assert("ok"@[0] != "id"@[0]);
    assert("hello"@[0] != "error"@[0]);
    assert("request"@[0] != "welcome"@[0]);
    assert("ping"@[0] != "type"@[0]);
    assert("pong"@[0] != "type"@[0]);
    assert("pong"@[1] != "ping"@[1]);
    assert("event"@[1] != "error"@[1]);
    assert("event"@[0] != "hello"@[0]);
    let names = response_keys();
    assert(names[0] == "type"@);
    assert(names[1] == "id"@);
    assert(names[2] == "ok"@);
    assert(names[3] == "result"@);
    assert(names[4] == "error"@);
    let o = message_tree(m)->Object_0;
    assert(keys_within(no_fields(), names));
    assert(get(o, "type"@) == Some(Tree::Text("response"@)));
    if let Some(e) = m->error {
        lemma_failure_round_trip(e);
    }
}

proof fn lemma_ping_round_trip(m: Message)
    requires
        m is Ping,
        short_ref(m),
        forall|i: int| 0 <= i < message_times(m).len() ==> reads_back(#[trigger] message_times(m)[i]),
    ensures
        message_tree(m) matches Tree::Object(o) && message_fits(o) && settled_message(o) == o,
{
    broadcast use {lemma_get_put, lemma_put_keys};

    reveal_strlit("type");
    reveal_strlit("timestamp");
    reveal_strlit("hello");
    reveal_strlit("welcome");
    reveal_strlit("request");
    reveal_strlit("response");
    reveal_strlit("ping");
    reveal_strlit("pong");
    reveal_strlit("event");
    reveal_strlit("error");
    assert("type"@.len() == 4);
    assert("timestamp"@.len() == 9);
    assert("hello"@.len() == 5);
    assert("welcome"@.len() == 7);
    assert("request"@.len() == 7);
    assert("response"@.len() == 8);
    assert("ping"@.len() == 4);
    assert("pong"@.len() == 4);
    assert("event"@.len() == 5);
    assert("error"@.len() == 5);
    assert("request"@[0] != "welcome"@[0]);
    assert("ping"@[0] != "type"@[0]);
    assert("pong"@[0] != "type"@[0]);
    assert("pong"@[1] != "ping"@[1]);
    assert("event"@[0] != "hello"@[0]);
    assert("error"@[0] != "hello"@[0]);
    assert("error"@[1] != "event"@[1]);
    let names = ping_keys();
    assert(names[0] == "type"@);
    assert(names[1] == "timestamp"@);
    let o = message_tree(m)->Object_0;
    assert(keys_within(no_fields(), names));
    assert(get(o, "type"@) == Some(Tree::Text("ping"@)));
    if message_times(m).len() > 0 {
        assert(reads_back(message_times(m)[0]));
    }
}

proof fn lemma_pong_round_trip(m: Message)
    requires
        m is Pong,
        short_ref(m),
        forall|i: int| 0 <= i < message_times(m).len() ==> reads_back(#[trigger] message_times(m)[i]),
    ensures
        message_tree(m) matches Tree::Object(o) && message_fits(o) && settled_message(o) == o,
{
    broadcast use {lemma_get_put, lemma_put_keys};

    reveal_strlit("type");
    reveal_strlit("timestamp");
    reveal_strlit("hello");
    reveal_strlit("welcome");
    reveal_strlit("request");
    reveal_strlit("response");
    reveal_strlit("ping");
    reveal_strlit("pong");
    reveal_strlit("event");
    reveal_strlit("error");
    assert("type"@.len() == 4);
    assert("timestamp"@.len() == 9);
    assert("hello"@.len() == 5);
    assert("welcome"@.len() == 7);
    assert("request"@.len() == 7);
    assert("response"@.len() == 8);
    assert("ping"@.len() == 4);
    assert("pong"@.len() == 4);
    assert("event"@.len() == 5);
    assert("error"@.len() == 5);
    assert("request"@[0] != "welcome"@[0]);
    assert("ping"@[0] != "type"@[0]);
    assert("pong"@[0] != "type"@[0]);
    assert("pong"@[1] != "ping"@[1]);
    assert("event"@[0] != "hello"@[0]);
    assert("error"@[0] != "hello"@[0]);
    assert("error"@[1] != "event"@[1]);
    let names = pong_keys();
    assert(names[0] == "type"@);
    assert(names[1] == "timestamp"@);
    let o = message_tree(m)->Object_0;
    assert(keys_within(no_fields(), names));
    assert(get(o, "type"@) == Some(Tree::Text("pong"@)));
    if message_times(m).len() > 0 {
        assert(reads_back(message_times(m)[0]));
    }
}

proof fn lemma_event_round_trip(m: Message)
    requires
        m is Event,
        short_ref(m),
        forall|i: int| 0 <= i < message_times(m).len() ==> reads_back(#[trigger] message_times(m)[i]),
    ensures
        message_tree(m) matches Tree::Object(o) && message_fits(o) && settled_message(o) == o,
{
    broadcast use {lemma_get_put, lemma_put_keys};

    reveal_strlit("type");
    reveal_strlit("kind");
    reveal_strlit("data");
    reveal_strlit("timestamp");
    reveal_strlit("hello");
    reveal_strlit("welcome");
    reveal_strlit("request");
    reveal_strlit("response");
    reveal_strlit("ping");
    reveal_strlit("pong");
    reveal_strlit("event");
    reveal_strlit("error");
    assert("type"@.len() == 4);
    assert("kind"@.len() == 4);
    assert("data"@.len() == 4);
    assert("timestamp"@.len() == 9);
    assert("hello"@.len() == 5);
    assert("welcome"@.len() == 7);
    assert("request"@.len() == 7);
    assert("response"@.len() == 8);
    assert("ping"@.len() == 4);
    assert("pong"@.len() == 4);
    assert("event"@.len() == 5);
    assert("error"@.len() == 5);
    assert("kind"@[0] != "type"@[0]);
    assert("data"@[0] != "type"@[0]);
    assert("data"@[0] != "kind"@[0]);
    assert("request"@[0] != "welcome"@[0]);
    assert("ping"@[0] != "type"@[0]);
    assert("ping"@[0] != "kind"@[0]);
    assert("ping"@[0] != "data"@[0]);
    assert("pong"@[0] != "type"@[0]);
    assert("pong"@[0] != "kind"@[0]);
    assert("pong"@[0] != "data"@[0]);
    assert("pong"@[1] != "ping"@[1]);
    assert("event"@[0] != "hello"@[0]);
    assert("error"@[0] != "hello"@[0]);
    assert("error"@[1] != "event"@[1]);
    let names = event_keys();
    assert(names[0] == "type"@);
    assert(names[1] == "kind"@);
    assert(names[2] == "data"@);
    assert(names[3] == "timestamp"@);
    let o = message_tree(m)->Object_0;
    assert(keys_within(no_fields(), names));
    assert(get(o, "type"@) == Some(Tree::Text("event"@)));
    if message_times(m).len() > 0 {
        assert(reads_back(message_times(m)[0]));
    }
}

proof fn lemma_error_round_trip(m: Message)
    requires
        m is Error,
        short_ref(m),
        forall|i: int| 0 <= i < message_times(m).len() ==> reads_back(#[trigger] message_times(m)[i]),
    ensures
        message_tree(m) matches Tree::Object(o) && message_fits(o) && settled_message(o) == o,
{
    broadcast use {lemma_get_put, lemma_put_keys};

    reveal_strlit("type");
    reveal_strlit("code");
    reveal_strlit("message");
    reveal_strlit("fatal");
    reveal_strlit("hello");
    reveal_strlit("welcome");
    reveal_strlit("request");
    reveal_strlit("response");
    reveal_strlit("ping");
    reveal_strlit("pong");
    reveal_strlit("event");
    reveal_strlit("error");
    assert("type"@.len() == 4);
    assert("code"@.len() == 4);
    assert("message"@.len() == 7);
    assert("fatal"@.len() == 5);
    assert("hello"@.len() == 5);
    assert("welcome"@.len() == 7);
    assert("request"@.len() == 7);
    assert("response"@.len() == 8);
    assert("ping"@.len() == 4);
    assert("pong"@.len() == 4);
    assert("event"@.len() == 5);
    assert("error"@.len() == 5);
    assert("code"@[0] != "type"@[0]);
    assert("hello"@[0] != "fatal"@[0]);
    assert("welcome"@[0] != "message"@[0]);
    assert("request"@[0] != "message"@[0]);
    assert("request"@[0] != "welcome"@[0]);
    assert("ping"@[0] != "type"@[0]);
    assert("ping"@[0] != "code"@[0]);
    assert("pong"@[0] != "type"@[0]);
    assert("pong"@[0] != "code"@[0]);
    assert("pong"@[1] != "ping"@[1]);
    assert("event"@[0] != "fatal"@[0]);
    assert("event"@[0] != "hello"@[0]);
    assert("error"@[0] != "fatal"@[0]);
    assert("error"@[0] != "hello"@[0]);
    assert("error"@[1] != "event"@[1]);
    let names = error_keys();
    assert(names[0] == "type"@);
    assert(names[1] == "code"@);
    assert(names[2] == "message"@);
    assert(names[3] == "fatal"@);
    let o = message_tree(m)->Object_0;
    assert(keys_within(no_fields(), names));
    assert(get(o, "type"@) == Some(Tree::Text("error"@)));
}

/// A message written as JSON is accepted, and reads back as itself: nothing in it
/// is left to be filled in.
pub proof fn message_round_trip(m: Message)
    requires
        short_ref(m),
        forall|i: int| 0 <= i < message_times(m).len() ==> reads_back(#[trigger] message_times(m)[i]),
    ensures
        message_tree(m) matches Tree::Object(o) && message_fits(o) && settled_message(o) == o,
{
    match m {
        Message::Hello { .. } => lemma_hello_round_trip(m),
        Message::Welcome { .. } => lemma_welcome_round_trip(m),
        Message::Request { .. } => lemma_request_round_trip(m),
        Message::Response { .. } => lemma_response_round_trip(m),
        Message::Ping { .. } => lemma_ping_round_trip(m),
        Message::Pong { .. } => lemma_pong_round_trip(m),
        Message::Event { .. } => lemma_event_round_trip(m),
        Message::Error { .. } => lemma_error_round_trip(m),
    }
}

/// A message that was sent as text is read as the message that it was.
pub proof fn sent_messages_are_read_back(m: Message, text: Seq<char>)
    requires
        short_ref(m),
        forall|i: int| 0 <= i < message_times(m).len() ==> reads_back(#[trigger] message_times(m)[i]),
        parsed_json(bytes_of(text)) == sound(message_tree(m)),
    ensures
        is_message_text(text),
        Tree::Object(settled_message(text_fields(text))) == message_tree(m),
{
    message_round_trip(m);
}

/// The fields that a message of a kind may have.
pub open spec fn message_keys(kind: Seq<char>) -> Seq<Seq<char>> {
    if kind == "hello"@ {
        hello_keys()
    } else if kind == "welcome"@ {
        welcome_keys()
    } else if kind == "request"@ {
        request_keys()
    } else if kind == "response"@ {
        response_keys()
    } else if kind == "ping"@ {
        ping_keys()
    } else if kind == "pong"@ {
        pong_keys()
    } else if kind == "event"@ {
        event_keys()
    } else if kind == "error"@ {
        error_keys()
    } else {
        Seq::empty()
    }
}

/// A message with a field that its kind does not have is refused, whatever else it
/// holds.
pub proof fn unknown_fields_are_refused(o: Fields, k: Seq<char>, v: Tree)
    requires
        k != "type"@,
        as_text(get(o, "type"@)) matches Some(kind) ==> !message_keys(kind).contains(k),
    ensures
        !message_fits(o.with(k, v)),
{
    let p = o.with(k, v);
    crate::json::put_then_get(o, k, v, "type"@);
    crate::json::put_then_get(o, k, v, k);
    crate::json::lemma_position(p, k);
    let i = crate::json::position(p, k);
    assert(p[i].0 == k);
    if let Some(kind) = as_text(get(p, "type"@)) {
        if message_fits(p) {
            assert(keys_within(p, message_keys(kind)));
        }
    }
}

/// A request with a reference that is too long is refused.
pub proof fn long_references_are_refused(o: Fields, s: Seq<char>)
    requires
        as_text(get(o, "type"@)) == Some("request"@),
        get(o, "opaque_ref"@) == Some(Tree::Text(s)),
        s.len() > MAX_OPAQUE_REF,
    ensures
        !message_fits(o),
{
    reveal_strlit("request");
    reveal_strlit("hello");
    reveal_strlit("welcome");
    assert("request"@[0] == 'r' && "hello"@[0] == 'h' && "welcome"@[0] == 'w');
}

/// A machine is told of by its facts, each under its name.
pub proof fn machines_are_told(h: HostInfo)
    ensures
        host_tree(h) matches Tree::Object(o) && {
            &&& get(o, "id"@) == Some(Tree::Text(h.id@))
            &&& get(o, "hostname"@) == Some(Tree::Text(h.hostname@))
            &&& get(o, "os"@) == Some(Tree::Text(h.os@))
            &&& h.kernel matches Some(t) ==> get(o, "kernel"@) == Some(Tree::Text(t@))
            &&& h.arch matches Some(t) ==> get(o, "arch"@) == Some(Tree::Text(t@))
            &&& h.cpu_model matches Some(t) ==> get(o, "cpu_model"@) == Some(Tree::Text(t@))
            &&& h.cpu_cores matches Some(n) ==> get(o, "cpu_cores"@) == Some(Tree::Number(Num::Pos(n)))
            &&& h.mem_total_bytes matches Some(n) ==> get(o, "mem_total_bytes"@) == Some(Tree::Number(Num::Pos(n)))
            &&& h.disk_total_bytes matches Some(n) ==> get(o, "disk_total_bytes"@) == Some(Tree::Number(Num::Pos(n)))
            &&& h.machine_type matches Some(t) ==> get(o, "machine_type"@) == Some(Tree::Text(t@))
            &&& h.distro matches Some(t) ==> get(o, "distro"@) == Some(Tree::Text(t@))
            &&& h.kernel is None ==> get(o, "kernel"@) == Some(Tree::Null)
        },
{
    broadcast use lemma_get_put;

    reveal_strlit("id");
    reveal_strlit("hostname");
    reveal_strlit("os");
    reveal_strlit("kernel");
    reveal_strlit("arch");
    reveal_strlit("cpu_model");
    reveal_strlit("cpu_cores");
    reveal_strlit("mem_total_bytes");
    reveal_strlit("disk_total_bytes");
    reveal_strlit("machine_type");
    reveal_strlit("distro");
    reveal_strlit("config_summary");
    assert("id"@.len() == 2 && "hostname"@.len() == 8 && "os"@.len() == 2 && "kernel"@.len() == 6
        && "arch"@.len() == 4 && "cpu_model"@.len() == 9 && "cpu_cores"@.len() == 9 && "mem_total_bytes"@.len() == 15
        && "disk_total_bytes"@.len() == 16 && "machine_type"@.len() == 12 && "distro"@.len() == 6
        && "config_summary"@.len() == 14 && "id"@[0] == 'i' && "os"@[0] == 'o' && "kernel"@[0] == 'k'
        && "distro"@[0] == 'd' && "cpu_model"@[4] == 'm' && "cpu_cores"@[4] == 'c');
}

/// The counts of a configuration are told each under its name.
pub proof fn configurations_are_told(s: ConfigSummary)
    ensures
        summary_tree(s) matches Tree::Object(o) && {
            &&& s.allowed_command_count matches Some(n) ==> get(o, "allowed_command_count"@) == Some(Tree::Number(Num::Pos(n)))
            &&& s.file_ops_path_count matches Some(n) ==> get(o, "file_ops_path_count"@) == Some(Tree::Number(Num::Pos(n)))
            &&& s.file_ops_rw_count matches Some(n) ==> get(o, "file_ops_rw_count"@) == Some(Tree::Number(Num::Pos(n)))
            &&& s.service_count matches Some(n) ==> get(o, "service_count"@) == Some(Tree::Number(Num::Pos(n)))
            &&& s.playbook_count matches Some(n) ==> get(o, "playbook_count"@) == Some(Tree::Number(Num::Pos(n)))
            &&& s.trusted_fetch_host_count matches Some(n) ==> get(o, "trusted_fetch_host_count"@) == Some(
                Tree::Number(Num::Pos(n)),
            )
            &&& s.exec_timeout_default matches Some(n) ==> get(o, "exec_timeout_default"@) == Some(Tree::Number(Num::Pos(n)))
            &&& s.exec_timeout_max matches Some(n) ==> get(o, "exec_timeout_max"@) == Some(Tree::Number(Num::Pos(n)))
        },
{
    broadcast use lemma_get_put;

    reveal_strlit("allowed_command_count");
    reveal_strlit("file_ops_path_count");
    reveal_strlit("file_ops_rw_count");
    reveal_strlit("service_count");
    reveal_strlit("playbook_count");
    reveal_strlit("trusted_fetch_host_count");
    reveal_strlit("exec_timeout_default");
    reveal_strlit("exec_timeout_max");
    assert("allowed_command_count"@.len() == 21 && "file_ops_path_count"@.len() == 19
        && "file_ops_rw_count"@.len() == 17 && "service_count"@.len() == 13 && "playbook_count"@.len() == 14
        && "trusted_fetch_host_count"@.len() == 24 && "exec_timeout_default"@.len() == 20
        && "exec_timeout_max"@.len() == 16);
}

/// A message tells of what kind it is, and holds its parts each under its name.
pub proof fn messages_are_told(m: Message)
    ensures
        message_tree(m) matches Tree::Object(o) && match m {
            Message::Hello { protocol_version, agent_version, host, capabilities, .. } => {
                &&& get(o, "type"@) == Some(Tree::Text("hello"@))
                &&& get(o, "protocol_version"@) == Some(Tree::Text(protocol_version@))
                &&& get(o, "agent_version"@) == Some(Tree::Text(agent_version@))
                &&& get(o, "host"@) == Some(host_tree(host))
                &&& get(o, "capabilities"@) == Some(text_list(views(capabilities@)))
            },
            Message::Welcome { session_id, server_time, heartbeat_interval_seconds } => {
                &&& get(o, "type"@) == Some(Tree::Text("welcome"@))
                &&& get(o, "session_id"@) == Some(Tree::Text(session_id@))
                &&& get(o, "heartbeat_interval_seconds"@) == Some(Tree::Number(Num::Pos(heartbeat_interval_seconds)))
            },
            Message::Request { id, op, payload, .. } => {
                &&& get(o, "type"@) == Some(Tree::Text("request"@))
                &&& get(o, "id"@) == Some(Tree::Text(id@))
                &&& get(o, "op"@) == Some(Tree::Text(op_name(op)))
                &&& get(o, "payload"@) == Some(Tree::Object(fields(payload@)))
            },
            Message::Response { id, ok, result, error } => {
                &&& get(o, "type"@) == Some(Tree::Text("response"@))
                &&& get(o, "id"@) == Some(Tree::Text(id@))
                &&& get(o, "ok"@) == Some(Tree::Bool(ok))
                &&& result matches Some(r) ==> get(o, "result"@) == Some(Tree::Object(fields(r@)))
                &&& result is None ==> get(o, "result"@) == Some(Tree::Null)
                &&& error matches Some(e) ==> (get(o, "error"@) matches Some(Tree::Object(f)) && get(f, "code"@) == Some(
                    Tree::Text(e.code@),
                ) && get(f, "message"@) == Some(Tree::Text(e.message@)))
                &&& error is None ==> get(o, "error"@) == Some(Tree::Null)
            },
            Message::Ping { timestamp } => get(o, "type"@) == Some(Tree::Text("ping"@)) && get(o, "timestamp"@) == Some(
                time_tree(timestamp),
            ),
            Message::Pong { timestamp } => get(o, "type"@) == Some(Tree::Text("pong"@)) && get(o, "timestamp"@) == Some(
                time_tree(timestamp),
            ),
            Message::Event { kind, data, timestamp } => {
                &&& get(o, "type"@) == Some(Tree::Text("event"@))
                &&& get(o, "kind"@) == Some(Tree::Text(kind@))
                &&& get(o, "data"@) == Some(Tree::Object(fields(data@)))
                &&& get(o, "timestamp"@) == Some(time_tree(timestamp))
            },
            Message::Error { code, message, fatal } => {
                &&& get(o, "type"@) == Some(Tree::Text("error"@))
                &&& get(o, "code"@) == Some(Tree::Text(code@))
                &&& get(o, "message"@) == Some(Tree::Text(message@))
                &&& get(o, "fatal"@) == Some(Tree::Bool(fatal))
            },
        },
{
    broadcast use lemma_get_put;

    match m {
        Message::Hello { .. } => {
    reveal_strlit("type");
    reveal_strlit("protocol_version");
    reveal_strlit("agent_version");
    reveal_strlit("agent_name");
    reveal_strlit("host");
    reveal_strlit("capabilities");
    reveal_strlit("preferred_profile");
    assert("type"@.len() == 4 && "protocol_version"@.len() == 16 && "agent_version"@.len() == 13
        && "agent_name"@.len() == 10 && "host"@.len() == 4 && "capabilities"@.len() == 12
        && "preferred_profile"@.len() == 17 && "type"@[0] == 't' && "host"@[0] == 'h');
        },
        Message::Welcome { .. } => {
    reveal_strlit("type");
    reveal_strlit("session_id");
    reveal_strlit("server_time");
    reveal_strlit("heartbeat_interval_seconds");
    assert("type"@.len() == 4 && "session_id"@.len() == 10 && "server_time"@.len() == 11
        && "heartbeat_interval_seconds"@.len() == 26);
        },
        Message::Request { .. } => {
    reveal_strlit("type");
    reveal_strlit("id");
    reveal_strlit("op");
    reveal_strlit("payload");
    reveal_strlit("deadline");
    reveal_strlit("opaque_ref");
    assert("type"@.len() == 4 && "id"@.len() == 2 && "op"@.len() == 2 && "payload"@.len() == 7
        && "deadline"@.len() == 8 && "opaque_ref"@.len() == 10 && "id"@[0] == 'i' && "op"@[0] == 'o');
        },
        Message::Response { .. } => {
    reveal_strlit("type");
    reveal_strlit("id");
    reveal_strlit("ok");
    reveal_strlit("result");
    reveal_strlit("error");
    assert("type"@.len() == 4 && "id"@.len() == 2 && "ok"@.len() == 2 && "result"@.len() == 6 && "error"@.len() == 5
        && "id"@[0] == 'i' && "ok"@[0] == 'o');
    reveal_strlit("code");
    reveal_strlit("message");
    reveal_strlit("details");
    assert("code"@.len() == 4 && "message"@.len() == 7 && "details"@.len() == 7 && "message"@[0] == 'm'
        && "details"@[0] == 'd');
        },
        Message::Ping { .. } | Message::Pong { .. } => {
    reveal_strlit("type");
    reveal_strlit("timestamp");
    assert("type"@.len() == 4 && "timestamp"@.len() == 9);
        },
        Message::Event { .. } => {
    reveal_strlit("type");
    reveal_strlit("kind");
    reveal_strlit("data");
    reveal_strlit("timestamp");
    assert("type"@.len() == 4 && "kind"@.len() == 4 && "data"@.len() == 4 && "timestamp"@.len() == 9
        && "type"@[0] == 't' && "kind"@[0] == 'k' && "data"@[0] == 'd');
        },
        Message::Error { .. } => {
    reveal_strlit("type");
    reveal_strlit("code");
    reveal_strlit("message");
    reveal_strlit("fatal");
    assert("type"@.len() == 4 && "code"@.len() == 4 && "message"@.len() == 7 && "fatal"@.len() == 5
        && "type"@[0] == 't' && "code"@[0] == 'c');
        },
    }
}

/// An error that says not whether it is fatal is, and a machine that names no system runs
/// Linux.
pub proof fn missing_parts_are_filled_in(o: Fields)
    ensures
        get(o, "type"@) == Some(Tree::Text("error"@)) && get(o, "fatal"@) is None ==> get(settled_message(o), "fatal"@) == Some(
            Tree::Bool(true),
        ),
        get(o, "os"@) is None ==> get(settled_host_fields(o), "os"@) == Some(Tree::Text("linux"@)),
        get(o, "type"@) == Some(Tree::Text("request"@)) && get(o, "payload"@) is None ==> get(settled_message(o), "payload"@)
            == Some(Tree::Object(no_fields())),
        get(o, "type"@) == Some(Tree::Text("welcome"@)) && get(o, "heartbeat_interval_seconds"@) is None ==> get(
            settled_message(o),
            "heartbeat_interval_seconds"@,
        ) == Some(Tree::Number(Num::Pos(30))),
{
    broadcast use lemma_get_put;

    reveal_strlit("hello");
    reveal_strlit("welcome");
    reveal_strlit("request");
    reveal_strlit("response");
    reveal_strlit("ping");
    reveal_strlit("pong");
    reveal_strlit("event");
    reveal_strlit("error");
    assert("hello"@.len() == 5 && "welcome"@.len() == 7 && "request"@.len() == 7 && "response"@.len() == 8
        && "ping"@.len() == 4 && "pong"@.len() == 4 && "event"@.len() == 5 && "error"@.len() == 5
        && "hello"@[0] == 'h' && "event"@[0] == 'e' && "error"@[0] == 'e' && "welcome"@[0] == 'w'
        && "request"@[0] == 'r' && "ping"@[1] == 'i' && "pong"@[1] == 'o' && "event"@[1] == 'v' && "error"@[1] == 'r');
    reveal_strlit("type");
    reveal_strlit("code");
    reveal_strlit("message");
    reveal_strlit("fatal");
    assert("type"@.len() == 4 && "code"@.len() == 4 && "message"@.len() == 7 && "fatal"@.len() == 5
        && "type"@[0] == 't' && "code"@[0] == 'c');
    reveal_strlit("type");
    reveal_strlit("id");
    reveal_strlit("op");
    reveal_strlit("payload");
    reveal_strlit("deadline");
    reveal_strlit("opaque_ref");
    assert("type"@.len() == 4 && "id"@.len() == 2 && "op"@.len() == 2 && "payload"@.len() == 7
        && "deadline"@.len() == 8 && "opaque_ref"@.len() == 10 && "id"@[0] == 'i' && "op"@[0] == 'o');
    reveal_strlit("type");
    reveal_strlit("session_id");
    reveal_strlit("server_time");
    reveal_strlit("heartbeat_interval_seconds");
    assert("type"@.len() == 4 && "session_id"@.len() == 10 && "server_time"@.len() == 11
        && "heartbeat_interval_seconds"@.len() == 26);
    reveal_strlit("id");
    reveal_strlit("hostname");
    reveal_strlit("os");
    reveal_strlit("kernel");
    reveal_strlit("arch");
    reveal_strlit("cpu_model");
    reveal_strlit("cpu_cores");
    reveal_strlit("mem_total_bytes");
    reveal_strlit("disk_total_bytes");
    reveal_strlit("machine_type");
    reveal_strlit("distro");
    reveal_strlit("config_summary");
    assert("id"@.len() == 2 && "hostname"@.len() == 8 && "os"@.len() == 2 && "kernel"@.len() == 6
        && "arch"@.len() == 4 && "cpu_model"@.len() == 9 && "cpu_cores"@.len() == 9 && "mem_total_bytes"@.len() == 15
        && "disk_total_bytes"@.len() == 16 && "machine_type"@.len() == 12 && "distro"@.len() == 6
        && "config_summary"@.len() == 14 && "id"@[0] == 'i' && "os"@[0] == 'o' && "kernel"@[0] == 'k'
        && "distro"@[0] == 'd' && "cpu_model"@[4] == 'm' && "cpu_cores"@[4] == 'c');
}

/// A message that lacks a part that its kind needs is not one.
pub proof fn incomplete_messages_are_refused(o: Fields)
    requires
        message_fits(o),
    ensures
        get(o, "type"@) is Some,
        get(o, "type"@) == Some(Tree::Text("request"@)) ==> (get(o, "id"@) matches Some(Tree::Text(_))) && (get(o, "op"@) matches Some(
            Tree::Text(name),
        ) && op_named(name) is Some),
        get(o, "type"@) == Some(Tree::Text("response"@)) ==> (get(o, "id"@) matches Some(Tree::Text(_))) && (get(o, "ok"@) matches Some(
            Tree::Bool(_),
        )),
        get(o, "type"@) == Some(Tree::Text("hello"@)) ==> (get(o, "protocol_version"@) matches Some(Tree::Text(_))) && (get(
            o,
            "host"@,
        ) matches Some(Tree::Object(h)) && (get(h, "id"@) matches Some(Tree::Text(_)))),
        get(o, "type"@) == Some(Tree::Text("welcome"@)) ==> (get(o, "session_id"@) matches Some(Tree::Text(_))) && (get(
            o,
            "server_time"@,
        ) matches Some(Tree::Text(t)) && parsed_time(t) is Some),
        get(o, "type"@) == Some(Tree::Text("ping"@)) || get(o, "type"@) == Some(Tree::Text("pong"@)) ==> (get(o, "timestamp"@)
            matches Some(Tree::Text(t)) && parsed_time(t) is Some),
        get(o, "type"@) == Some(Tree::Text("event"@)) ==> (get(o, "kind"@) matches Some(Tree::Text(_))),
        get(o, "type"@) == Some(Tree::Text("error"@)) ==> (get(o, "code"@) matches Some(Tree::Text(_))) && (get(o, "message"@)
            matches Some(Tree::Text(_))),
{
    reveal_strlit("hello");
    reveal_strlit("welcome");
    reveal_strlit("request");
    reveal_strlit("response");
    reveal_strlit("ping");
    reveal_strlit("pong");
    reveal_strlit("event");
    reveal_strlit("error");
    assert("hello"@.len() == 5 && "welcome"@.len() == 7 && "request"@.len() == 7 && "response"@.len() == 8
        && "ping"@.len() == 4 && "pong"@.len() == 4 && "event"@.len() == 5 && "error"@.len() == 5
        && "hello"@[0] == 'h' && "event"@[0] == 'e' && "error"@[0] == 'e' && "welcome"@[0] == 'w'
        && "request"@[0] == 'r' && "ping"@[1] == 'i' && "pong"@[1] == 'o' && "event"@[1] == 'v' && "error"@[1] == 'r');
}

} // verus!
