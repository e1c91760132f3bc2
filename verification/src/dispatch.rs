//! What an agent serves: which operations it has, how it answers them, and what it
//! runs for a command or a service.

use crate::agent::response_tree;
use crate::handler_error::{fault, outcome, require_str, required_text, Fault, HandlerError, HandlerResult};
use crate::host::{distro, kernel, load_of, loadavg, uptime_seconds};
use crate::jobs::BACKGROUND_TIMEOUT_MAX_SECS;
use crate::json::{
    as_flag, as_integer, count, field, fields, flag_field, get, group_json_views, integer_field, lemma_get_put,
    no_fields, no_object, set_field, string, strings, text_list, text_or_null, trees, Entries, Fields, Json, Num,
    Number, Object, Tree,
};
use crate::local_api::has_usable_endpoints;
use crate::local_audit::MAX_LINES;
use crate::message::{message_tree, Message};
use crate::op::{names_are_distinct, op_name, Op};
use crate::order::has;
use crate::policy::{allowed_command, find_named, name_list, named_at, names, names_are_found, Policy, ServiceSpec};
use crate::segment::{first_refused, has_substitution, segments, substitution, unauthorised_segment};
use crate::text::{
    blank, cat2, cat3, cat4, cat5, debug_text, first_word_of, lemma_word_end_is, lemma_words_skip, lines, opt_view,
    quoted, rows, same, split_words, strip_prefix, stripped, suffixed, trimmed, views, white, words,
};
use crate::time::{number_nanos, rfc3339, rfc3339_text, seconds_of, Duration, Timestamp};
use vstd::prelude::*;

verus! {

/// The operations that are served, in the order in which they are told.
pub open spec fn implemented() -> Seq<Op> {
    seq![
        Op::Ping,
        Op::Capabilities,
        Op::Help,
        Op::State,
        Op::Exec,
        Op::ScriptRun,
        Op::Service,
        Op::Restart,
        Op::Edit,
        Op::EditUploadInit,
        Op::EditUploadFile,
        Op::EditUploadComplete,
        Op::Git,
        Op::Read,
        Op::List,
        Op::Search,
        Op::Move,
        Op::Copy,
        Op::Delete,
        Op::Chmod,
        Op::Chown,
        Op::UploadInit,
        Op::UploadChunk,
        Op::UploadComplete,
        Op::UploadFile,
        Op::FileExportInit,
        Op::FileExportChunk,
        Op::FileExportComplete,
        Op::ProjectSnapshot,
        Op::ReadAudit,
        Op::LocalApi,
    ]
}

/// The operations that are served.
pub fn implemented_ops() -> (r: Vec<Op>)
    ensures
        r@ == implemented(),
{
    let r = vec![
        Op::Ping,
        Op::Capabilities,
        Op::Help,
        Op::State,
        Op::Exec,
        Op::ScriptRun,
        Op::Service,
        Op::Restart,
        Op::Edit,
        Op::EditUploadInit,
        Op::EditUploadFile,
        Op::EditUploadComplete,
        Op::Git,
        Op::Read,
        Op::List,
        Op::Search,
        Op::Move,
        Op::Copy,
        Op::Delete,
        Op::Chmod,
        Op::Chown,
        Op::UploadInit,
        Op::UploadChunk,
        Op::UploadComplete,
        Op::UploadFile,
        Op::FileExportInit,
        Op::FileExportChunk,
        Op::FileExportComplete,
        Op::ProjectSnapshot,
        Op::ReadAudit,
        Op::LocalApi,
    ];
    assert(r@ =~= implemented());
    r
}

proof fn lemma_all_implemented(op: Op)
    ensures
        implemented().contains(op),
{
    let s = implemented();
    assert(s[0] == Op::Ping && s[1] == Op::Capabilities && s[2] == Op::Help && s[3] == Op::State && s[4] == Op::Exec);
    assert(s[5] == Op::ScriptRun && s[6] == Op::Service && s[7] == Op::Restart && s[8] == Op::Edit);
    assert(s[9] == Op::EditUploadInit && s[10] == Op::EditUploadFile && s[11] == Op::EditUploadComplete && s[12] == Op::Git);
    assert(s[13] == Op::Read && s[14] == Op::List && s[15] == Op::Search && s[16] == Op::Move && s[17] == Op::Copy);
    assert(s[18] == Op::Delete && s[19] == Op::Chmod && s[20] == Op::Chown && s[21] == Op::UploadInit);
    assert(s[22] == Op::UploadChunk && s[23] == Op::UploadComplete && s[24] == Op::UploadFile);
    assert(s[25] == Op::FileExportInit && s[26] == Op::FileExportChunk && s[27] == Op::FileExportComplete);
    assert(s[28] == Op::ProjectSnapshot && s[29] == Op::ReadAudit && s[30] == Op::LocalApi);
}

/// An endpoint is there that this agent can reach.
pub open spec fn reaches_endpoint(policy: Policy) -> bool {
    exists|i: int|
        0 <= i < crate::endpoint::sites_of(policy.local_apis@, policy.local_apis@.len() as int).len() && (
        #[trigger] crate::endpoint::sites_of(policy.local_apis@, policy.local_apis@.len() as int)[i]).transport == "unix"@
}

/// Whether the policy leaves an operation on. Those that only tell about the agent
/// cannot be switched off; local programs need one that can be reached.
pub open spec fn enabled(policy: Policy, op: Op) -> bool {
    &&& op == Op::LocalApi ==> reaches_endpoint(policy)
    &&& op == Op::Ping || op == Op::Capabilities || op == Op::State || op == Op::Help || !views(
        policy.disabled_ops@,
    ).contains(op_name(op))
}

/// The names of the enabled ones among the first `n` operations.
pub open spec fn enabled_names(policy: Policy, n: int) -> Seq<Seq<char>>
    decreases n,
{
    if n <= 0 || n > implemented().len() {
        Seq::empty()
    } else if enabled(policy, implemented()[n - 1]) {
        enabled_names(policy, n - 1).push(op_name(implemented()[n - 1]))
    } else {
        enabled_names(policy, n - 1)
    }
}

/// What the agent says that it can do.
pub open spec fn capability_names(policy: Policy) -> Seq<Seq<char>> {
    enabled_names(policy, implemented().len() as int).push("opaque_ref"@)
}

/// An agent's policy and what it says of itself.
pub struct CoreDispatcher {
    pub policy: Policy,
    pub config_path: String,
    pub agent_version: String,
}

/// What is read on a host to tell its state.
pub struct HostState {
    pub hostname: String,
    pub release_file: Option<String>,
    pub os_release: Option<String>,
    pub arch: String,
    pub now: Timestamp,
    pub uptime: Option<String>,
    pub loadavg: Option<String>,
}

/// What runs for an operation: a command and how long it may take.
pub struct CommandPlan {
    pub command: String,
    pub timeout: Duration,
}

pub open spec fn planned(r: Result<CommandPlan, HandlerError>) -> Result<(Seq<char>, int), Fault> {
    match r {
        Ok(p) => Ok((p.command@, p.timeout.nanos as int)),
        Err(e) => Err(e@),
    }
}

/// A number as JSON carries one.
pub open spec fn number_or_null(text: Option<Seq<char>>) -> Tree {
    match text {
        Some(t) => Tree::Number(Num::Float(t)),
        None => Tree::Null,
    }
}

fn float_or_null(text: Option<String>) -> (r: Json)
    ensures
        r@ == number_or_null(opt_view(text)),
{
    broadcast use group_json_views;

    match text {
        Some(t) => Json::Number(Number::Float(t)),
        None => Json::Null,
    }
}

pub open spec fn kernel_of(file: Option<String>) -> Option<Seq<char>> {
    crate::host::trimmed_text(opt_view(file))
}

/// What tells a host's state.
pub open spec fn state_fields(h: HostState) -> Fields {
    let name = match crate::host::distro_of(h.os_release) {
        Some(n) => n,
        None => "linux"@,
    };
    let release = match kernel_of(h.release_file) {
        Some(k) => k,
        None => ""@,
    };
    no_fields().with("hostname"@, Tree::Text(h.hostname@)).with("kernel"@, text_or_null(kernel_of(h.release_file))).with(
        "arch"@,
        Tree::Text(h.arch@),
    ).with("platform"@, Tree::Text(name + " "@ + release + " "@ + h.arch@)).with(
        "now_utc"@,
        Tree::Text(rfc3339_text(h.now.secs, h.now.nanos, false, false)),
    ).with(
        "uptime_seconds"@,
        number_or_null(
            match h.uptime {
                Some(t) => if words(t@).len() > 0 {
                    crate::time::finite_text(words(t@)[0])
                } else {
                    None
                },
                None => None,
            },
        ),
    ).with(
        "loadavg"@,
        match load_of(opt_view(h.loadavg)) {
            Some((a, b, c)) => Tree::Array(seq![number_or_null(a), number_or_null(b), number_or_null(c)]),
            None => Tree::Null,
        },
    )
}

fn as_str_opt(s: &Option<String>) -> (r: Option<&str>)
    ensures
        crate::host::opt_str(r) == opt_view(*s),
{
    match s {
        Some(s) => Some(s.as_str()),
        None => None,
    }
}

/// The first line of a process's status that tells of it says that new privileges
/// are out of reach.
pub open spec fn says_no_new_privileges(line: Seq<char>) -> bool {
    match stripped(line, "NoNewPrivs:"@) {
        Some(rest) => words(rest).len() > 0 && words(rest)[0] == "1"@,
        None => false,
    }
}

pub open spec fn tells_no_new_privileges(lines: Seq<Seq<char>>) -> bool {
    exists|i: int| 0 <= i < lines.len() && says_no_new_privileges(#[trigger] lines[i])
}

/// Whether a process's status says that it cannot gain privileges.
pub fn no_new_privileges(status: Option<&str>) -> (r: bool)
    ensures
        r == (status matches Some(t) && tells_no_new_privileges(rows(t@))),
{
    let text = match status {
        Some(t) => t,
        None => return false,
    };
    let all = lines(text);
    let ghost known = rows(text@);
    let mut i: usize = 0;
    while i < all.len()
        invariant
            i <= all@.len(),
            known == views(all@),
            known == rows(text@),
            status == Some(text),
            forall|j: int| 0 <= j < i ==> !says_no_new_privileges(#[trigger] known[j]),
        decreases all@.len() - i,
    {
        assert(known[i as int] == all@[i as int]@);
        if let Some(rest) = strip_prefix(&all[i], "NoNewPrivs:") {
            let w = split_words(&rest);
            if w.len() > 0 {
                assert(w@[0]@ == words(rest@)[0]);
                if same(&w[0], "1") {
                    assert(known.len() == all@.len() && says_no_new_privileges(known[i as int]));
                    assert(tells_no_new_privileges(known));
                    return true;
                }
            }
        }
        i = i + 1;
    }
    false
}

/// Where a command is run under a policy that looks at every part of it.
pub open spec fn strict_refusal(policy: Policy, command: Seq<char>) -> Option<Fault> {
    match substitution(command, 0, None) {
        Some(sign) => Some(
            Fault {
                code: "command_not_allowed"@,
                message: "exec_strict is on and this command uses "@ + sign + " command substitution"@,
                details: no_fields().with("command"@, Tree::Text(command)).with("substitution"@, Tree::Text(sign)),
            },
        ),
        None => match first_refused(views(policy.allowed_commands@), segments(command, 0), 0) {
            Some(part) => Some(
                Fault {
                    code: "command_not_allowed"@,
                    message: "exec_strict is on and segment "@ + debug_text(part) + " is not covered by allowed_commands"@,
                    details: no_fields().with("command"@, Tree::Text(command)).with("offending_segment"@, Tree::Text(part)),
                },
            ),
            None => None,
        },
    }
}

/// Why a command may not run.
pub open spec fn command_refusal(policy: Policy, command: Seq<char>) -> Option<Fault> {
    if policy.exec_strict && strict_refusal(policy, command) is Some {
        strict_refusal(policy, command)
    } else if !allowed_command(views(policy.allowed_commands@), command) {
        Some(
            Fault {
                code: "command_not_allowed"@,
                message: "command not in allowlist: "@ + first_word_of(command),
                details: no_fields().with("command"@, Tree::Text(command)).with(
                    "allowed_commands"@,
                    text_list(views(policy.allowed_commands@)),
                ),
            },
        )
    } else {
        None
    }
}

/// The longest time that a command may take, in seconds.
pub open spec fn time_ceiling(policy: Policy, background: bool) -> u64 {
    if background && policy.exec_timeout_max < BACKGROUND_TIMEOUT_MAX_SECS {
        BACKGROUND_TIMEOUT_MAX_SECS
    } else {
        policy.exec_timeout_max
    }
}

/// How long a command may take, in nanoseconds: what the payload asks for, at least
/// a millisecond, and never more than the ceiling.
pub open spec fn time_allowed(v: Option<Tree>, default: u64, ceiling: u64) -> int {
    if ceiling == 0 {
        0
    } else {
        number_nanos(v, default * 1_000_000_000, 1_000_000, ceiling * 1_000_000_000)
    }
}

/// How long a command may take.
pub fn allowed_time(v: Option<&Json>, default: u64, ceiling: u64) -> (r: Duration)
    ensures
        r.nanos == time_allowed(
            match v {
                Some(j) => Some(j@),
                None => None,
            },
            default,
            ceiling,
        ),
        r.nanos <= ceiling * 1_000_000_000,
{
    if ceiling == 0 {
        return Duration::zero();
    }
    seconds_of(v, default as u128 * 1_000_000_000, 1_000_000, ceiling as u128 * 1_000_000_000)
}

/// What `exec` runs.
pub open spec fn exec_plan_of(policy: Policy, payload: Fields) -> Result<(Seq<char>, int), Fault> {
    match required_text(payload, "command"@) {
        Err(f) => Err(f),
        Ok(command) => match command_refusal(policy, command) {
            Some(f) => Err(f),
            None => Ok(
                (
                    command,
                    time_allowed(
                        get(payload, "timeout"@),
                        policy.exec_timeout_default,
                        time_ceiling(policy, as_flag(get(payload, "background"@)) == Some(true)),
                    ),
                ),
            ),
        },
    }
}

pub open spec fn only_looks(action: Seq<char>) -> bool {
    action == "status"@ || action == "is-active"@ || action == "is-enabled"@
}

/// How long a service may take to do something, in seconds.
pub const SERVICE_TIMEOUT_SECS: u64 = 30;

/// What controls a service.
pub open spec fn service_plan_of(policy: Policy, payload: Fields, force_restart: bool) -> Result<(Seq<char>, int), Fault> {
    match required_text(payload, "service"@) {
        Err(f) => Err(f),
        Ok(service) => match if force_restart {
            Ok("restart"@)
        } else {
            required_text(payload, "action"@)
        } {
            Err(f) => Err(f),
            Ok(action) => {
                let k = named_at(policy.services@, service);
                if !(0 <= k < policy.services@.len()) {
                    Err(
                        Fault {
                            code: "service_not_allowed"@,
                            message: "service "@ + debug_text(service) + " is not registered in policy"@,
                            details: no_fields().with("available"@, text_list(names(policy.services@))),
                        },
                    )
                } else {
                    service_command(policy.services@[k].1, service, action)
                }
            },
        },
    }
}

/// What makes a service do something, where it may.
pub open spec fn service_command(spec: ServiceSpec, service: Seq<char>, action: Seq<char>) -> Result<(Seq<char>, int), Fault> {
    if !views(spec.actions@).contains(action) {
        Err(
            Fault {
                code: "service_action_not_allowed"@,
                message: "action "@ + debug_text(action) + " is not allowed for service "@ + debug_text(service),
                details: no_fields().with("allowed_actions"@, text_list(views(spec.actions@))),
            },
        )
    } else if spec.backend@ != "service"@ {
        Err(
            fault(
                "unsupported_backend"@,
                "service backend "@ + debug_text(spec.backend@) + " is not supported on this Linux build"@,
            ),
        )
    } else if spec.requires_sudo && !only_looks(action) {
        Ok(("sudo systemctl "@ + action + " "@ + spec.unit@, SERVICE_TIMEOUT_SECS * 1_000_000_000))
    } else {
        Ok(("systemctl "@ + action + " "@ + spec.unit@, SERVICE_TIMEOUT_SECS * 1_000_000_000))
    }
}

/// How many entries of the record a payload asks for.
pub open spec fn audit_limit_of(payload: Fields) -> int {
    match as_integer(get(payload, "limit"@)) {
        Some(n) => if n < 1 {
            1
        } else if n > MAX_LINES {
            MAX_LINES as int
        } else {
            n as int
        },
        None => 200,
    }
}

/// How many entries of the record a payload asks for: at least one, and no more
/// than are kept.
pub fn audit_limit(payload: &Object) -> (r: usize)
    ensures
        r == audit_limit_of(fields(payload@)),
{
    match integer_field(payload, "limit") {
        Some(n) => if n < 1 {
            1
        } else if n > MAX_LINES as i64 {
            MAX_LINES
        } else {
            n as usize
        },
        None => 200,
    }
}

/// The entries of the record as they are answered.
pub fn audit_result(entries: Vec<Json>, source: &str) -> (r: Object)
    ensures
        fields(r@) == audit_fields(trees(entries@), source@),
{
    broadcast use group_json_views;

    let mut o = no_object();
    set_field(&mut o, "count", count(entries.len() as u64));
    set_field(&mut o, "entries", Json::Array(entries));
    set_field(&mut o, "source", string(source));
    set_field(&mut o, "max_retained", count(MAX_LINES as u64));
    o
}

/// A handler's result as a response.
pub open spec fn response_of(id: Seq<char>, result: Result<Fields, Fault>) -> Tree {
    match result {
        Ok(o) => response_tree(id, true, Tree::Object(o), Tree::Null),
        Err(f) => response_tree(
            id,
            false,
            Tree::Null,
            Tree::Object(
                no_fields().with("code"@, Tree::Text(f.code)).with("message"@, Tree::Text(f.message)).with(
                    "details"@,
                    if f.details.len() == 0 {
                        Tree::Null
                    } else {
                        Tree::Object(f.details)
                    },
                ),
            ),
        ),
    }
}

/// Errors whose message quotes a command or the contents of a file: a refused command,
/// and a file that a validator does not take.
pub open spec fn quoting(code: Seq<char>) -> bool {
    code == "command_not_allowed"@ || code == "validation_failed"@
}

/// What the record keeps of an error: its code, and its message unless that quotes what
/// the record does not store.
pub open spec fn kept_error(code: Seq<char>, message: Seq<char>) -> Seq<char> {
    if quoting(code) {
        code
    } else {
        code + ": "@ + message
    }
}

/// What the record keeps of a response: whether it was served, the error, and what
/// the result says of itself.
pub struct AuditFacts {
    pub dispatch_ok: bool,
    pub error: Option<String>,
    pub result_ok: Option<bool>,
    pub result_returncode: Option<i64>,
}

/// What the record keeps of a response.
pub fn audit_facts(message: &Message) -> (r: AuditFacts)
    ensures
        match message {
            Message::Response { ok, result, error, .. } => {
                &&& r.dispatch_ok == ok
                &&& opt_view(r.error) == match error {
                    Some(e) => Some(kept_error(e.code@, e.message@)),
                    None => None,
                }
                &&& r.result_ok == match result {
                    Some(o) => as_flag(get(fields(o@), "ok"@)),
                    None => None,
                }
                &&& r.result_returncode == match result {
                    Some(o) => as_integer(get(fields(o@), "returncode"@)),
                    None => None,
                }
            },
            _ => {
                &&& !r.dispatch_ok
                &&& opt_view(r.error) == Some("internal_error: non-response dispatch result"@)
                &&& r.result_ok is None
                &&& r.result_returncode is None
            },
        },
{
    match message {
        Message::Response { ok, result, error, .. } => {
            let said = match error {
                Some(e) => if same(&e.code, "command_not_allowed") || same(&e.code, "validation_failed") {
                    Some(e.code.clone())
                } else {
                    Some(cat3(&e.code, ": ", &e.message))
                },
                None => None,
            };
            let (result_ok, result_returncode) = match result {
                Some(o) => (flag_field(o, "ok"), integer_field(o, "returncode")),
                None => (None, None),
            };
            AuditFacts { dispatch_ok: *ok, error: said, result_ok, result_returncode }
        },
        _ => AuditFacts {
            dispatch_ok: false,
            error: Some("internal_error: non-response dispatch result".to_owned()),
            result_ok: None,
            result_returncode: None,
        },
    }
}

impl CoreDispatcher {
    pub fn new(policy: Policy, config_path: String, agent_version: String) -> (r: Self)
        ensures
            r.policy == policy,
            r.config_path == config_path,
            r.agent_version == agent_version,
    {
        CoreDispatcher { policy, config_path, agent_version }
    }

    pub fn policy(&self) -> (r: &Policy)
        ensures
            *r == self.policy,
    {
        &self.policy
    }

    /// Whether the policy leaves an operation on.
    pub fn op_enabled(&self, op: Op) -> (r: bool)
        ensures
            r == enabled(self.policy, op),
    {
        if op == Op::LocalApi && !has_usable_endpoints(&self.policy) {
            return false;
        }
        op == Op::Ping || op == Op::Capabilities || op == Op::State || op == Op::Help || !crate::order::has(
            &self.policy.disabled_ops,
            op.as_str(),
        )
    }

    /// The names of the operations that are on.
    pub fn enabled_ops(&self) -> (r: Vec<String>)
        ensures
            views(r@) == enabled_names(self.policy, implemented().len() as int),
    {
        let ops = implemented_ops();
        let mut names: Vec<String> = Vec::new();
        let mut i: usize = 0;
        assert(views(names@) =~= enabled_names(self.policy, 0));
        while i < ops.len()
            invariant
                i <= ops@.len(),
                ops@ == implemented(),
                views(names@) == enabled_names(self.policy, i as int),
            decreases ops@.len() - i,
        {
            let ghost before = views(names@);
            if self.op_enabled(ops[i]) {
                names.push(ops[i].as_str().to_owned());
                assert(views(names@) =~= before.push(op_name(ops@[i as int])));
            }
            i = i + 1;
        }
        names
    }

    /// What the agent says that it can do.
    pub fn capabilities(&self) -> (r: Vec<String>)
        ensures
            views(r@) == capability_names(self.policy),
    {
        let mut names = self.enabled_ops();
        let ghost before = views(names@);
        names.push("opaque_ref".to_owned());
        assert(views(names@) =~= before.push("opaque_ref"@));
        names
    }

    /// A handler's result as a response.
    pub fn response(id: &str, result: HandlerResult) -> (r: Message)
        ensures
            message_tree(r) == response_of(id@, outcome(result)),
            r is Response,
    {
        broadcast use group_json_views;

        match result {
            Ok(o) => Message::Response { id: id.to_owned(), ok: true, result: Some(o), error: None },
            Err(e) => {
                assert(fields(e.details@).len() == e.details@.len());
                Message::Response { id: id.to_owned(), ok: false, result: None, error: Some(e.response_error()) }
            },
        }
    }

    /// Refuses an operation that is not on.
    pub fn check_op(&self, op: Op) -> (r: Result<(), HandlerError>)
        ensures
            match r {
                Ok(_) => enabled(self.policy, op),
                Err(e) => !enabled(self.policy, op) && e@ == fault(
                    "unsupported_op"@,
                    "agent does not support op: "@ + op_name(op),
                ),
            },
    {
        if self.op_enabled(op) {
            Ok(())
        } else {
            Err(HandlerError::new("unsupported_op", &cat2("agent does not support op: ", op.as_str())))
        }
    }

    pub fn ping(&self) -> (r: Object)
        ensures
            fields(r@) == no_fields().with("pong"@, Tree::Bool(true)).with(
                "agent_version"@,
                Tree::Text(self.agent_version@),
            ),
    {
        let mut o = no_object();
        set_field(&mut o, "pong", Json::Bool(true));
        set_field(&mut o, "agent_version", string(&self.agent_version));
        o
    }

    /// The state of the host.
    pub fn state(&self, host: &HostState) -> (r: Object)
        ensures
            fields(r@) == state_fields(*host),
    {
        broadcast use group_json_views;

        let release = kernel(as_str_opt(&host.release_file));
        let shown = match &release {
            Some(k) => string(k),
            None => Json::Null,
        };
        let name = match distro(as_str_opt(&host.os_release)) {
            Some(n) => n,
            None => "linux".to_owned(),
        };
        let release = match release {
            Some(k) => k,
            None => "".to_owned(),
        };
        let uptime = float_or_null(uptime_seconds(as_str_opt(&host.uptime)));
        let load = match loadavg(as_str_opt(&host.loadavg)) {
            Some((a, b, c)) => {
                let ghost (x, y, z) = (opt_view(a), opt_view(b), opt_view(c));
                let items: Vec<Json> = vec![float_or_null(a), float_or_null(b), float_or_null(c)];
                assert(trees(items@) =~= seq![number_or_null(x), number_or_null(y), number_or_null(z)]);
                Json::Array(items)
            },
            None => Json::Null,
        };
        let mut o = no_object();
        set_field(&mut o, "hostname", string(&host.hostname));
        set_field(&mut o, "kernel", shown);
        set_field(&mut o, "arch", string(&host.arch));
        set_field(&mut o, "platform", Json::Text(cat5(&name, " ", &release, " ", &host.arch)));
        set_field(&mut o, "now_utc", Json::Text(rfc3339(host.now, false, false)));
        set_field(&mut o, "uptime_seconds", uptime);
        set_field(&mut o, "loadavg", load);
        o
    }

    fn refuse_command(&self, command: &str) -> (r: Option<HandlerError>)
        ensures
            match r {
                Some(e) => command_refusal(self.policy, command@) == Some(e@),
                None => command_refusal(self.policy, command@) is None,
            },
    {
        if self.policy.exec_strict {
            if let Some(sign) = has_substitution(command) {
                let mut details = no_object();
                set_field(&mut details, "command", string(command));
                set_field(&mut details, "substitution", string(sign));
                return Some(
                    HandlerError::with_details(
                        "command_not_allowed",
                        &cat3("exec_strict is on and this command uses ", sign, " command substitution"),
                        details,
                    ),
                );
            }
            if let Some(part) = unauthorised_segment(&self.policy, command) {
                let mut details = no_object();
                set_field(&mut details, "command", string(command));
                set_field(&mut details, "offending_segment", string(&part));
                return Some(
                    HandlerError::with_details(
                        "command_not_allowed",
                        &cat3("exec_strict is on and segment ", &quoted(&part), " is not covered by allowed_commands"),
                        details,
                    ),
                );
            }
        }
        if !self.policy.is_command_allowed(command) {
            let w = split_words(command);
            let first = if w.len() > 0 {
                assert(w@[0]@ == words(command@)[0]);
                w[0].clone()
            } else {
                "".to_owned()
            };
            proof {
                reveal_strlit("");
                assert(first@ =~= first_word_of(command@));
            }
            let mut details = no_object();
            set_field(&mut details, "command", string(command));
            set_field(&mut details, "allowed_commands", strings(&self.policy.allowed_commands));
            return Some(
                HandlerError::with_details(
                    "command_not_allowed",
                    &cat2("command not in allowlist: ", &first),
                    details,
                ),
            );
        }
        None
    }

    /// What `exec` runs, where it may.
    pub fn exec_plan(&self, payload: &Object) -> (r: Result<CommandPlan, HandlerError>)
        ensures
            planned(r) == exec_plan_of(self.policy, fields(payload@)),
    {
        let command = match require_str(payload, "command") {
            Ok(c) => c,
            Err(e) => return Err(e),
        };
        let background = match flag_field(payload, "background") {
            Some(b) => b,
            None => false,
        };
        let ceiling = if background && self.policy.exec_timeout_max < BACKGROUND_TIMEOUT_MAX_SECS {
            BACKGROUND_TIMEOUT_MAX_SECS
        } else {
            self.policy.exec_timeout_max
        };
        let timeout = allowed_time(field(payload, "timeout"), self.policy.exec_timeout_default, ceiling);
        match self.refuse_command(command) {
            Some(e) => Err(e),
            None => Ok(CommandPlan { command: command.to_owned(), timeout }),
        }
    }

    /// What controls a service, where it may.
    pub fn service_plan(&self, payload: &Object, force_restart: bool) -> (r: Result<CommandPlan, HandlerError>)
        ensures
            planned(r) == service_plan_of(self.policy, fields(payload@), force_restart),
    {
        let service = match require_str(payload, "service") {
            Ok(s) => s,
            Err(e) => return Err(e),
        };
        let action = if force_restart {
            "restart"
        } else {
            match require_str(payload, "action") {
                Ok(a) => a,
                Err(e) => return Err(e),
            }
        };
        let k = find_named(&self.policy.services, service);
        if k >= self.policy.services.len() {
            let mut details = no_object();
            set_field(&mut details, "available", strings(&name_list(&self.policy.services)));
            return Err(
                HandlerError::with_details(
                    "service_not_allowed",
                    &cat3("service ", &quoted(service), " is not registered in policy"),
                    details,
                ),
            );
        }
        let spec = &self.policy.services[k].1;
        if !crate::order::has(&spec.actions, action) {
            let mut details = no_object();
            set_field(&mut details, "allowed_actions", strings(&spec.actions));
            return Err(
                HandlerError::with_details(
                    "service_action_not_allowed",
                    &cat4("action ", &quoted(action), " is not allowed for service ", &quoted(service)),
                    details,
                ),
            );
        }
        if !same(&spec.backend, "service") {
            return Err(
                HandlerError::new(
                    "unsupported_backend",
                    &cat3("service backend ", &quoted(&spec.backend), " is not supported on this Linux build"),
                ),
            );
        }
        let looks = same(action, "status") || same(action, "is-active") || same(action, "is-enabled");
        let command = if spec.requires_sudo && !looks {
            cat4("sudo systemctl ", action, " ", &spec.unit)
        } else {
            cat4("systemctl ", action, " ", &spec.unit)
        };
        Ok(CommandPlan { command, timeout: Duration::from_secs(SERVICE_TIMEOUT_SECS) })
    }
}

proof fn lemma_enabled_names(policy: Policy, n: int, op: Op)
    requires
        0 <= n <= implemented().len(),
    ensures
        enabled_names(policy, n).contains(op_name(op)) <==> enabled(policy, op) && implemented().take(n).contains(op),
    decreases n,
{
    if n > 0 {
        lemma_enabled_names(policy, n - 1, op);
        let last = implemented()[n - 1];
        names_are_distinct(last, op);
        let before = enabled_names(policy, n - 1);
        let names = enabled_names(policy, n);
        let some = implemented().take(n);
        assert(some.drop_last() =~= implemented().take(n - 1));
        assert(some.last() == last);
        if names.contains(op_name(op)) {
            let i = choose|i: int| 0 <= i < names.len() && names[i] == op_name(op);
            if enabled(policy, last) && i == names.len() - 1 {
                assert(some[n - 1] == op);
            } else {
                assert(before[i] == op_name(op));
                let some_before = implemented().take(n - 1);
                let j = choose|j: int| 0 <= j < some_before.len() && some_before[j] == op;
                assert(some[j] == op);
            }
        }
        if enabled(policy, op) && some.contains(op) {
            let j = choose|j: int| 0 <= j < some.len() && some[j] == op;
            if j == n - 1 {
                assert(names[names.len() - 1] == op_name(op));
            } else {
                assert(implemented().take(n - 1)[j] == op);
                let i = choose|i: int| 0 <= i < before.len() && before[i] == op_name(op);
                assert(names[i] == op_name(op));
            }
        }
    }
}

/// The agent tells of exactly the operations that it serves: a name stands among
/// its capabilities if and only if a request for that operation is not refused as
/// unsupported.
pub proof fn capabilities_are_what_is_served(policy: Policy, op: Op)
    ensures
        capability_names(policy).contains(op_name(op)) <==> enabled(policy, op),
{
    let n = implemented().len() as int;
    lemma_all_implemented(op);
    lemma_enabled_names(policy, n, op);
    assert(implemented().take(n) =~= implemented());
    let names = enabled_names(policy, n);
    let told = capability_names(policy);
    if names.contains(op_name(op)) {
        let i = choose|i: int| 0 <= i < names.len() && names[i] == op_name(op);
        assert(told[i] == op_name(op));
    }
    if told.contains(op_name(op)) {
        let i = choose|i: int| 0 <= i < told.len() && told[i] == op_name(op);
        lemma_not_opaque_ref(op);
        assert(i < names.len());
        assert(names[i] == op_name(op));
    }
}

/// The way in which references are sent is no operation.
pub proof fn lemma_opaque_ref_apart(policy: Policy, n: int)
    ensures
        !enabled_names(policy, n).contains("opaque_ref"@),
    decreases n,
{
    if 0 < n <= implemented().len() {
        lemma_opaque_ref_apart(policy, n - 1);
        lemma_not_opaque_ref(implemented()[n - 1]);
        let front = enabled_names(policy, n - 1);
        let all = enabled_names(policy, n);
        if all.contains("opaque_ref"@) {
            let i = choose|i: int| 0 <= i < all.len() && all[i] == "opaque_ref"@;
            assert(i < front.len());
            assert(front[i] == "opaque_ref"@);
        }
    }
}

proof fn lemma_not_opaque_ref(op: Op)
    ensures
        op_name(op) != "opaque_ref"@,
{
    reveal_strlit("opaque_ref");
    reveal_strlit("ping");
    reveal_strlit("capabilities");
    reveal_strlit("help");
    reveal_strlit("state");
    reveal_strlit("exec");
    reveal_strlit("script_run");
    reveal_strlit("edit");
    reveal_strlit("edit_upload_init");
    reveal_strlit("edit_upload_file");
    reveal_strlit("edit_upload_complete");
    reveal_strlit("restart");
    reveal_strlit("service");
    reveal_strlit("upload_init");
    reveal_strlit("upload_chunk");
    reveal_strlit("upload_complete");
    reveal_strlit("upload_file");
    reveal_strlit("read");
    reveal_strlit("list");
    reveal_strlit("search");
    reveal_strlit("project_snapshot");
    reveal_strlit("read_audit");
    reveal_strlit("move");
    reveal_strlit("copy");
    reveal_strlit("delete");
    reveal_strlit("chmod");
    reveal_strlit("chown");
    reveal_strlit("git");
    reveal_strlit("file_export_init");
    reveal_strlit("file_export_chunk");
    reveal_strlit("file_export_complete");
    reveal_strlit("local_api");
    assert(op_name(op)[0] != 'o');
}

/// Under a strict policy a command runs only where each of its parts may.
pub proof fn strict_commands_have_no_hidden_parts(policy: Policy, payload: Fields)
    requires
        policy.exec_strict,
    ensures
        exec_plan_of(policy, payload) matches Ok((command, _)) ==> substitution(command, 0, None) is None && first_refused(
            views(policy.allowed_commands@),
            segments(command, 0),
            0,
        ) is None,
{
}

/// Looking at a service never asks for more privileges.
pub proof fn looking_needs_no_privileges(spec: ServiceSpec, service: Seq<char>, action: Seq<char>)
    requires
        only_looks(action),
    ensures
        service_command(spec, service, action) matches Ok((command, _)) ==> command == "systemctl "@ + action + " "@
            + spec.unit@,
{
}

/// What is answered to a request for the audit.
pub open spec fn audit_fields(entries: Seq<Tree>, source: Seq<char>) -> Fields {
    no_fields().with("count"@, Tree::Number(Num::Pos(entries.len() as u64))).with("entries"@, Tree::Array(entries)).with(
        "source"@,
        Tree::Text(source),
    ).with("max_retained"@, Tree::Number(Num::Pos(MAX_LINES as u64)))
}

/// What is answered to a request for the audit holds the entries, newest first as they
/// were read, and their number. As many are read as are asked for.
pub proof fn audits_are_told(entries: Seq<Tree>, source: Seq<char>, payload: Fields)
    ensures
        get(audit_fields(entries, source), "entries"@) == Some(Tree::Array(entries)),
        get(audit_fields(entries, source), "count"@) == Some(Tree::Number(Num::Pos(entries.len() as u64))),
        get(audit_fields(entries, source), "source"@) == Some(Tree::Text(source)),
        1 <= audit_limit_of(payload) <= MAX_LINES || audit_limit_of(payload) == 200,
        (get(payload, "limit"@) matches Some(Tree::Number(Num::Pos(n))) && 1 <= n <= MAX_LINES) ==> audit_limit_of(payload)
            == get(payload, "limit"@)->0->Number_0->Pos_0,
        get(payload, "limit"@) is None ==> audit_limit_of(payload) == 200,
{
    broadcast use lemma_get_put;

    reveal_strlit("count");
    reveal_strlit("entries");
    reveal_strlit("source");
    reveal_strlit("max_retained");
    assert("count"@.len() == 5 && "entries"@.len() == 7 && "source"@.len() == 6 && "max_retained"@.len() == 12);
}

/// What a handler gives is answered under the id of the request: a result with success, a
/// fault with its code and message without.
pub proof fn responses_tell_the_outcome(id: Seq<char>, o: Fields, f: Fault)
    ensures
        response_of(id, Ok(o)) matches Tree::Object(r) && {
            &&& get(r, "type"@) == Some(Tree::Text("response"@))
            &&& get(r, "id"@) == Some(Tree::Text(id))
            &&& get(r, "ok"@) == Some(Tree::Bool(true))
            &&& get(r, "result"@) == Some(Tree::Object(o))
            &&& get(r, "error"@) == Some(Tree::Null)
        },
        response_of(id, Err(f)) matches Tree::Object(r) && {
            &&& get(r, "type"@) == Some(Tree::Text("response"@))
            &&& get(r, "id"@) == Some(Tree::Text(id))
            &&& get(r, "ok"@) == Some(Tree::Bool(false))
            &&& get(r, "result"@) == Some(Tree::Null)
            &&& get(r, "error"@) matches Some(Tree::Object(e)) && get(e, "code"@) == Some(Tree::Text(f.code)) && get(
                e,
                "message"@,
            ) == Some(Tree::Text(f.message)) && get(e, "details"@) == Some(
                if f.details.len() == 0 {
                    Tree::Null
                } else {
                    Tree::Object(f.details)
                },
            )
        },
{
    broadcast use lemma_get_put;

    reveal_strlit("type");
    reveal_strlit("id");
    reveal_strlit("ok");
    reveal_strlit("result");
    reveal_strlit("error");
    reveal_strlit("code");
    reveal_strlit("message");
    reveal_strlit("details");
    assert("type"@.len() == 4 && "id"@.len() == 2 && "ok"@.len() == 2 && "result"@.len() == 6 && "error"@.len() == 5
        && "code"@.len() == 4 && "message"@.len() == 7 && "details"@.len() == 7 && "type"@[0] == 't'
        && "code"@[0] == 'c' && "id"@[0] == 'i' && "ok"@[0] == 'o' && "message"@[0] == 'm' && "details"@[0] == 'd');
}

/// An operation that the policy disables is refused, but for those that tell of the agent
/// itself; every other one is served, the local interfaces where one can be reached.
pub proof fn disabled_operations_are_refused(policy: Policy, op: Op)
    ensures
        op == Op::Ping || op == Op::Capabilities || op == Op::State || op == Op::Help ==> enabled(policy, op),
        op != Op::Ping && op != Op::Capabilities && op != Op::State && op != Op::Help && op != Op::LocalApi ==> (enabled(
            policy,
            op,
        ) <==> !views(policy.disabled_ops@).contains(op_name(op))),
        enabled(policy, Op::LocalApi) ==> reaches_endpoint(policy) && !views(policy.disabled_ops@).contains(
            op_name(Op::LocalApi),
        ),
{
}

/// A command is run as it was sent, and only where the policy allows it; it may take as
/// long as was asked for, at most as long as the policy says.
pub proof fn commands_are_run_as_sent(policy: Policy, payload: Fields)
    ensures
        exec_plan_of(policy, payload) matches Ok((command, nanos)) ==> {
            &&& get(payload, "command"@) == Some(Tree::Text(command))
            &&& allowed_command(views(policy.allowed_commands@), command)
            &&& get(payload, "background"@) is None ==> nanos <= policy.exec_timeout_max * 1_000_000_000
            &&& (get(payload, "timeout"@) matches Some(Tree::Number(Num::Pos(n))) && 0 < n <= policy.exec_timeout_max)
                ==> nanos == get(payload, "timeout"@)->0->Number_0->Pos_0 * 1_000_000_000
            &&& get(payload, "timeout"@) is None && get(payload, "background"@) is None && 0 < policy.exec_timeout_default
                <= policy.exec_timeout_max ==> nanos == policy.exec_timeout_default * 1_000_000_000
        },
        get(payload, "command"@) matches Some(Tree::Text(command)) ==> {
            &&& !blank(command) && !allowed_command(views(policy.allowed_commands@), command) ==> (exec_plan_of(policy, payload)
                matches Err(f) && f.code == "command_not_allowed"@)
            &&& !blank(command) && !policy.exec_strict && allowed_command(views(policy.allowed_commands@), command)
                ==> exec_plan_of(policy, payload) is Ok
        },
{
    let ceiling = time_ceiling(policy, as_flag(get(payload, "background"@)) == Some(true));
    assert(ceiling >= policy.exec_timeout_max);
    if ceiling > 0 {
        crate::time::lemma_number_nanos_bounds(
            get(payload, "timeout"@),
            policy.exec_timeout_default * 1_000_000_000,
            1_000_000,
            ceiling * 1_000_000_000,
        );
    }
}

/// A service is controlled through its unit with the action that was asked for, and only
/// with one that the policy lists for it.
pub proof fn services_are_controlled_as_asked(policy: Policy, payload: Fields, force_restart: bool)
    ensures
        service_plan_of(policy, payload, force_restart) matches Ok((command, nanos)) ==> {
            let action = if force_restart {
                "restart"@
            } else {
                get(payload, "action"@)->0->Text_0
            };
            &&& get(payload, "service"@) matches Some(Tree::Text(service)) && exists|k: int|
                {
                    let s = #[trigger] policy.services@[k];
                    &&& 0 <= k < policy.services@.len()
                    &&& s.0@ == service
                    &&& views(s.1.actions@).contains(action)
                    &&& s.1.backend@ == "service"@
                    &&& command == if s.1.requires_sudo && action != "status"@ && action != "is-active"@ && action
                        != "is-enabled"@ {
                        "sudo "@ + ("systemctl "@ + action + " "@ + s.1.unit@)
                    } else {
                        "systemctl "@ + action + " "@ + s.1.unit@
                    }
                }
            &&& !force_restart ==> get(payload, "action"@) == Some(Tree::Text(action))
            &&& nanos == 30_000_000_000
        },
        (get(payload, "service"@) matches Some(Tree::Text(service)) && !blank(service) && (forall|k: int|
            0 <= k < policy.services@.len() ==> (#[trigger] policy.services@[k]).0@ != service)) && force_restart ==> (
        service_plan_of(policy, payload, force_restart) matches Err(f) && f.code == "service_not_allowed"@),
{
    reveal_strlit("sudo systemctl ");
    reveal_strlit("sudo ");
    reveal_strlit("systemctl ");
    if let Some(Tree::Text(service)) = get(payload, "service"@) {
        names_are_found(policy.services@, service);
        let k = named_at(policy.services@, service);
        if let Ok((command, nanos)) = service_plan_of(policy, payload, force_restart) {
            let s = policy.services@[k];
            let action = if force_restart {
                "restart"@
            } else {
                get(payload, "action"@)->0->Text_0
            };
            assert("sudo "@ + ("systemctl "@ + action + " "@ + s.1.unit@) =~= "sudo systemctl "@ + action + " "@ + s.1.unit@);
        }
    }
}

/// What is told of a host is what was read on it.
pub proof fn states_are_told(h: HostState)
    ensures
        get(state_fields(h), "hostname"@) == Some(Tree::Text(h.hostname@)),
        get(state_fields(h), "arch"@) == Some(Tree::Text(h.arch@)),
        get(state_fields(h), "now_utc"@) == Some(Tree::Text(rfc3339_text(h.now.secs, h.now.nanos, false, false))),
        get(state_fields(h), "platform"@) matches Some(Tree::Text(t)) && suffixed(t, h.arch@),
        h.release_file matches Some(k) ==> !blank(k@) ==> get(state_fields(h), "kernel"@) == Some(Tree::Text(trimmed(k@))),
        h.release_file is None ==> get(state_fields(h), "kernel"@) == Some(Tree::Null),
        h.uptime is None ==> get(state_fields(h), "uptime_seconds"@) == Some(Tree::Null),
        h.loadavg is None ==> get(state_fields(h), "loadavg"@) == Some(Tree::Null),
{
    broadcast use lemma_get_put;

    reveal_strlit("hostname");
    reveal_strlit("kernel");
    reveal_strlit("arch");
    reveal_strlit("platform");
    reveal_strlit("now_utc");
    reveal_strlit("uptime_seconds");
    reveal_strlit("loadavg");
    assert("hostname"@.len() == 8 && "kernel"@.len() == 6 && "arch"@.len() == 4 && "platform"@.len() == 8
        && "now_utc"@.len() == 7 && "uptime_seconds"@.len() == 14 && "loadavg"@.len() == 7 && "hostname"@[0] == 'h'
        && "platform"@[0] == 'p' && "now_utc"@[0] == 'n' && "loadavg"@[0] == 'l');
    let t = get(state_fields(h), "platform"@)->0->Text_0;
    assert(t.skip(t.len() - h.arch@.len()) =~= h.arch@);
}

/// What an audit keeps of an error names its code, and quotes neither commands nor the
/// contents of files.
pub proof fn kept_errors_name_the_code(code: Seq<char>, message: Seq<char>)
    ensures
        code.is_prefix_of(kept_error(code, message)),
        code == "command_not_allowed"@ || code == "validation_failed"@ ==> kept_error(code, message) == code,
        code != "command_not_allowed"@ && code != "validation_failed"@ ==> kept_error(code, message) == code + seq![':', ' ']
            + message,
{
    reveal_strlit(": ");
    assert(": "@ =~= seq![':', ' ']);
}

/// Where the policy is strict, a command runs only without substitutions and with each of
/// its parts allowed; where it is not, its beginning decides alone.
pub proof fn strict_commands_are_looked_through(policy: Policy, payload: Fields, command: Seq<char>)
    requires
        get(payload, "command"@) == Some(Tree::Text(command)),
        !blank(command),
    ensures
        policy.exec_strict && exec_plan_of(policy, payload) is Ok ==> substitution(command, 0, None) is None && first_refused(
            views(policy.allowed_commands@),
            segments(command, 0),
            0,
        ) is None,
        policy.exec_strict && substitution(command, 0, None) is Some ==> (exec_plan_of(policy, payload) matches Err(f) && f.code
            == "command_not_allowed"@),
        policy.exec_strict && substitution(command, 0, None) is None ==> (first_refused(
            views(policy.allowed_commands@),
            segments(command, 0),
            0,
        ) matches Some(part) ==> (exec_plan_of(policy, payload) matches Err(f) && f.code == "command_not_allowed"@ && get(
            f.details,
            "offending_segment"@,
        ) == Some(Tree::Text(part)) && get(f.details, "command"@) == Some(Tree::Text(command)))),
        policy.exec_strict && substitution(command, 0, None) is None && first_refused(
            views(policy.allowed_commands@),
            segments(command, 0),
            0,
        ) is None && allowed_command(views(policy.allowed_commands@), command) ==> exec_plan_of(policy, payload) is Ok,
{
    broadcast use lemma_get_put;

    reveal_strlit("command");
    reveal_strlit("offending_segment");
    reveal_strlit("substitution");
    assert("command"@.len() == 7 && "offending_segment"@.len() == 17 && "substitution"@.len() == 12);
}

/// The kernel tells that no new privileges can be had by a one behind the name.
pub proof fn privileges_are_read(gap: Seq<char>, value: char)
    requires
        forall|i: int| 0 <= i < gap.len() ==> white(#[trigger] gap[i]),
        !white(value),
    ensures
        says_no_new_privileges("NoNewPrivs:"@ + (gap + seq![value])) <==> value == '1',
{
    reveal_strlit("1");
    let rest = gap + seq![value];
    let line = "NoNewPrivs:"@ + rest;
    assert(line.take("NoNewPrivs:"@.len() as int) =~= "NoNewPrivs:"@);
    assert(line.skip("NoNewPrivs:"@.len() as int) =~= rest);
    lemma_words_skip(rest, gap.len() as int);
    let from = rest.skip(gap.len() as int);
    assert(from =~= seq![value]);
    lemma_word_end_is(from, 1);
    assert(from.take(1) =~= seq![value]);
    assert(words(from)[0] == seq![value]);
    if value == '1' {
        assert(seq![value] =~= "1"@);
    } else {
        assert(seq![value][0] != "1"@[0]);
    }
}

} // verus!
