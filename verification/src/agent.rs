//! The agent's connection to its hub: what it needs to start, how it reconnects,
//! and what it does with each thing that happens in a session.

use crate::ascii::{drop_trailing, without_trailing};
use crate::bounding::{bound_response_default, bounded, RESPONSE_SOFT_LIMIT_BYTES};
use crate::coding::{base64_bytes, decode_base64};
use crate::digits::{hex, hex_bytes, padded, padded_text};
use crate::frame::{decode_binary_frame, decode_transfer_id_hex, encode_binary_frame, frame_bytes, transfer_id_of};
use crate::jobs::{build_completed_event_data, completed_event, ending};
use crate::json::{
    as_count, as_flag, as_text, count, count_field, fields, flag_field, get, group_json_views, has_field, lemma_get_put,
    no_fields, no_object, remove_field, set_field, string, text_field, without, Entries, Fields, Json, Num, Number,
    Object, Tree,
};
use crate::message::{
    message_fits, message_tree, opt_failure_tree, settled_message, HostInfo, MalformedMessage, Message,
    PreferredProfile, ResponseError,
};
use crate::op::{op_name, Op};
use crate::text::{
    blank, cat2, cat3, cat4, chars_of, is_blank, lemma_first_index, lemma_first_index_is, once, pieces, same, split,
    split_once, text_of, trim, trimmed, views, white,
};
use crate::time::{clamp_seconds, clamped_nanos, micros_form, seconds_form, seconds_text, Duration, Timestamp};
use vstd::prelude::*;

verus! {

/// What authorizes an agent at its hub.
#[derive(Clone)]
pub struct AuthToken(String);

/// A text that may stand in an HTTP header: no control character of ASCII but the
/// tab.
pub open spec fn header_text(s: Seq<char>) -> bool {
    forall|i: int| 0 <= i < s.len() ==> (' ' <= #[trigger] s[i] && s[i] != '\u{7f}') || s[i] == '\t'
}

/// `http::HeaderValue::from_str`: whether it takes the text. It takes the bytes from
/// 32 on but for 127, and the tab, and nothing else.
#[verifier::external_body]
fn is_header_text(s: &str) -> (r: bool)
    ensures
        r == header_text(s@),
{
    http::HeaderValue::from_str(s).is_ok()
}

impl AuthToken {
    pub closed spec fn view(&self) -> Seq<char> {
        self.0@
    }

    pub fn new(value: String) -> (r: Self)
        ensures
            r@ == value@,
    {
        AuthToken(value)
    }

    /// What is shown in place of the token.
    pub fn redacted(&self) -> (r: &'static str)
        ensures
            r@ == "[redacted]"@,
    {
        "[redacted]"
    }

    pub fn duplicate(&self) -> (r: Self)
        ensures
            r@ == self@,
    {
        AuthToken(self.0.clone())
    }

    /// The value of the authorization header, or the reason why there is none.
    pub fn bearer_header(&self) -> (r: Result<String, &'static str>)
        ensures
            match r {
                Ok(h) => h@ == "Bearer "@ + self@ && header_text("Bearer "@ + self@),
                Err(e) => !header_text("Bearer "@ + self@) && e@ == "failed to parse header value"@,
            },
    {
        let header = cat2("Bearer ", &self.0);
        if is_header_text(&header) {
            Ok(header)
        } else {
            Err("failed to parse header value")
        }
    }
}

/// How long an agent waits before it connects again.
#[derive(Debug, Clone, PartialEq, Eq)]
pub struct ReconnectPolicy {
    pub steps: Vec<Duration>,
    pub jitter: bool,
}

/// The waiting times, in seconds, of the protocol.
pub open spec fn default_steps() -> Seq<u64> {
    seq![0, 1, 2, 5, 10, 20, 30, 60, 120, 300]
}

impl Default for ReconnectPolicy {
    fn default() -> (r: Self)
        ensures
            r.jitter,
            r.steps@.len() == default_steps().len(),
            forall|i: int|
                0 <= i < default_steps().len() ==> (#[trigger] r.steps@[i]).nanos == default_steps()[i] * 1_000_000_000,
    {
        let steps = vec![
            Duration::from_secs(0),
            Duration::from_secs(1),
            Duration::from_secs(2),
            Duration::from_secs(5),
            Duration::from_secs(10),
            Duration::from_secs(20),
            Duration::from_secs(30),
            Duration::from_secs(60),
            Duration::from_secs(120),
            Duration::from_secs(300),
        ];
        ReconnectPolicy { steps, jitter: true }
    }
}

/// `rand::random_range` over `0..=max`: some number in the range.
#[verifier::external_body]
fn random_up_to(max: u128) -> (r: u128)
    ensures
        r <= max,
{
    rand::random_range(0..=max)
}

/// `rand::random`: any number.
#[verifier::external_body]
pub(crate) fn random_number() -> u64 {
    rand::random()
}

impl ReconnectPolicy {
    /// The longest wait before the given attempt: the step of that number, or the
    /// last; nothing where there are no steps.
    pub open spec fn window(self, attempt: int) -> u128 {
        if self.steps@.len() == 0 {
            0
        } else if attempt < self.steps@.len() {
            self.steps@[attempt].nanos
        } else {
            self.steps@.last().nanos
        }
    }

    /// The wait before the given attempt: the window, or where there is jitter any
    /// time up to it.
    pub fn delay(&self, attempt: usize) -> (r: Duration)
        ensures
            r.nanos <= self.window(attempt as int),
            !self.jitter ==> r.nanos == self.window(attempt as int),
    {
        if self.steps.len() == 0 {
            return Duration::zero();
        }
        let raw = if attempt < self.steps.len() {
            self.steps[attempt]
        } else {
            self.steps[self.steps.len() - 1]
        };
        if !self.jitter || raw.is_zero() {
            return raw;
        }
        Duration { nanos: random_up_to(raw.nanos) }
    }
}

/// What an agent needs to run.
#[derive(Clone)]
pub struct AgentConfig {
    pub hub_ws_base: String,
    pub token: AuthToken,
    pub host: HostInfo,
    pub agent_version: String,
    pub capabilities: Vec<String>,
    pub preferred_profile: Option<PreferredProfile>,
    pub upload_base: String,
    pub reconnect: ReconnectPolicy,
    pub connect_timeout: Duration,
    pub welcome_timeout: Duration,
    pub heartbeat_interval: Duration,
    pub heartbeat_timeout: Duration,
}

/// Why an agent cannot start.
#[derive(Debug, PartialEq, Eq)]
pub enum ConfigError {
    EmptyHubUrl,
    EmptyToken,
    InvalidTokenHeader,
    ZeroDuration(&'static str),
    HeartbeatTimeoutTooShort,
}

impl ConfigError {
    pub open spec fn text(self) -> Seq<char> {
        match self {
            ConfigError::EmptyHubUrl => "hub WebSocket base URL must not be empty"@,
            ConfigError::EmptyToken => "authorization token must not be empty"@,
            ConfigError::InvalidTokenHeader => "authorization token cannot be represented as an HTTP header"@,
            ConfigError::ZeroDuration(name) => name@ + " must be greater than zero"@,
            ConfigError::HeartbeatTimeoutTooShort => "heartbeat_timeout must be greater than heartbeat_interval"@,
        }
    }

    pub fn message(&self) -> (r: String)
        ensures
            r@ == self.text(),
    {
        match self {
            ConfigError::EmptyHubUrl => "hub WebSocket base URL must not be empty".to_owned(),
            ConfigError::EmptyToken => "authorization token must not be empty".to_owned(),
            ConfigError::InvalidTokenHeader => {
                "authorization token cannot be represented as an HTTP header".to_owned()
            },
            ConfigError::ZeroDuration(name) => cat2(name, " must be greater than zero"),
            ConfigError::HeartbeatTimeoutTooShort => {
                "heartbeat_timeout must be greater than heartbeat_interval".to_owned()
            },
        }
    }
}

/// What is wrong with a configuration, the first thing first.
pub open spec fn config_fault(c: AgentConfig) -> Option<ConfigError> {
    if blank(c.hub_ws_base@) {
        Some(ConfigError::EmptyHubUrl)
    } else if c.token@.len() == 0 {
        Some(ConfigError::EmptyToken)
    } else if !header_text("Bearer "@ + c.token@) {
        Some(ConfigError::InvalidTokenHeader)
    } else if c.connect_timeout.nanos == 0 {
        Some(ConfigError::ZeroDuration("connect_timeout"))
    } else if c.welcome_timeout.nanos == 0 {
        Some(ConfigError::ZeroDuration("welcome_timeout"))
    } else if c.heartbeat_interval.nanos == 0 {
        Some(ConfigError::ZeroDuration("heartbeat_interval"))
    } else if c.heartbeat_timeout.nanos == 0 {
        Some(ConfigError::ZeroDuration("heartbeat_timeout"))
    } else if c.heartbeat_timeout.nanos <= c.heartbeat_interval.nanos {
        Some(ConfigError::HeartbeatTimeoutTooShort)
    } else {
        None
    }
}

impl AgentConfig {
    pub fn validate(&self) -> (r: Result<(), ConfigError>)
        ensures
            match r {
                Ok(_) => config_fault(*self) is None,
                Err(e) => config_fault(*self) == Some(e),
            },
    {
        if is_blank(&self.hub_ws_base) {
            return Err(ConfigError::EmptyHubUrl);
        }
        if self.token.0.as_str().is_empty() {
            return Err(ConfigError::EmptyToken);
        }
        if self.token.bearer_header().is_err() {
            return Err(ConfigError::InvalidTokenHeader);
        }
        if self.connect_timeout.is_zero() {
            return Err(ConfigError::ZeroDuration("connect_timeout"));
        }
        if self.welcome_timeout.is_zero() {
            return Err(ConfigError::ZeroDuration("welcome_timeout"));
        }
        if self.heartbeat_interval.is_zero() {
            return Err(ConfigError::ZeroDuration("heartbeat_interval"));
        }
        if self.heartbeat_timeout.is_zero() {
            return Err(ConfigError::ZeroDuration("heartbeat_timeout"));
        }
        if self.heartbeat_timeout.nanos <= self.heartbeat_interval.nanos {
            return Err(ConfigError::HeartbeatTimeoutTooShort);
        }
        Ok(())
    }

    /// Where the agent connects.
    pub fn connect_url(&self) -> (r: String)
        ensures
            r@ == connect_address(self.hub_ws_base@),
    {
        connect_url(&self.hub_ws_base)
    }

    /// The first message that the agent sends.
    pub fn hello(&self) -> (r: Message)
        ensures
            match r {
                Message::Hello {
                    protocol_version,
                    agent_version,
                    agent_name: Some(name),
                    host,
                    capabilities,
                    preferred_profile,
                } => protocol_version@ == crate::message::PROTOCOL_VERSION@ && agent_version@ == self.agent_version@
                    && name@ == "sentinelx-core"@ && crate::message::host_tree(host) == crate::message::host_tree(self.host)
                    && views(capabilities@) == views(self.capabilities@) && preferred_profile == self.preferred_profile,
                _ => false,
            },
    {
        Message::hello_with_profile(
            crate::message::copy_host(&self.host),
            self.agent_version.clone(),
            crate::text::copy_texts(&self.capabilities),
            self.preferred_profile,
        )
    }
}

/// Where an agent of the hub connects.
pub open spec fn connect_address(hub: Seq<char>) -> Seq<char> {
    without_trailing(hub, '/') + "/agent/connect"@
}

pub fn connect_url(hub_ws_base: &str) -> (r: String)
    ensures
        r@ == connect_address(hub_ws_base@),
{
    cat2(&drop_trailing(hub_ws_base, '/'), "/agent/connect")
}

/// The WebSocket form of a hub's address.
pub open spec fn socket_base(hub: Seq<char>) -> Seq<char> {
    match crate::text::stripped(hub, "https://"@) {
        Some(rest) => "wss://"@ + rest,
        None => match crate::text::stripped(hub, "http://"@) {
            Some(rest) => "ws://"@ + rest,
            None => hub,
        },
    }
}

pub fn ws_base(hub: &str) -> (r: String)
    ensures
        r@ == socket_base(hub@),
{
    match crate::text::strip_prefix(hub, "https://") {
        Some(rest) => cat2("wss://", &rest),
        None => match crate::text::strip_prefix(hub, "http://") {
            Some(rest) => cat2("ws://", &rest),
            None => hub.to_owned(),
        },
    }
}

/// Why a session could not be had.
#[derive(Debug, PartialEq, Eq)]
pub enum AgentError {
    InvalidHeader(String),
    WebSocket(String),
    Json(String),
    Rejected { code: String, message: String },
    EnrollmentRejected(String),
    ExpectedWelcome,
    ClosedBeforeWelcome,
    Timeout(&'static str),
}

impl AgentError {
    pub open spec fn text(self) -> Seq<char> {
        match self {
            AgentError::InvalidHeader(e) => "bad authorization header: "@ + e@,
            AgentError::WebSocket(e) => "websocket: "@ + e@,
            AgentError::Json(e) => "protocol JSON: "@ + e@,
            AgentError::Rejected { code, message } => "hub rejected agent: "@ + code@ + ": "@ + message@,
            AgentError::EnrollmentRejected(e) => "enrollment rejected: "@ + e@,
            AgentError::ExpectedWelcome => "expected welcome as first hub message"@,
            AgentError::ClosedBeforeWelcome => "hub closed before welcome"@,
            AgentError::Timeout(what) => what@ + " timed out"@,
        }
    }

    pub fn message(&self) -> (r: String)
        ensures
            r@ == self.text(),
    {
        match self {
            AgentError::InvalidHeader(e) => cat2("bad authorization header: ", e),
            AgentError::WebSocket(e) => cat2("websocket: ", e),
            AgentError::Json(e) => cat2("protocol JSON: ", e),
            AgentError::Rejected { code, message } => cat4("hub rejected agent: ", code, ": ", message),
            AgentError::EnrollmentRejected(e) => cat2("enrollment rejected: ", e),
            AgentError::ExpectedWelcome => "expected welcome as first hub message".to_owned(),
            AgentError::ClosedBeforeWelcome => "hub closed before welcome".to_owned(),
            AgentError::Timeout(what) => cat2(what, " timed out"),
        }
    }
}

/// How a session ended, and when the hub wants the agent back.
#[derive(Debug, Clone, Copy, PartialEq, Eq, Structural)]
pub enum SessionEnd {
    Clean,
    Restart(Option<Duration>),
    Lost(Option<Duration>),
}

/// An agent with what it needs to run and what answers its requests.
pub struct Agent<D> {
    pub config: AgentConfig,
    pub dispatcher: D,
}

impl<D> Agent<D> {
    pub fn new(config: AgentConfig, dispatcher: D) -> (r: Result<Self, ConfigError>)
        ensures
            match r {
                Ok(agent) => config_fault(config) is None && agent.config == config && agent.dispatcher == dispatcher,
                Err(e) => config_fault(config) == Some(e),
            },
    {
        match config.validate() {
            Ok(_) => Ok(Agent { config, dispatcher }),
            Err(e) => Err(e),
        }
    }
}

/// Where an agent stands between sessions: how many attempts failed, and when the
/// hub wants it back.
#[derive(Debug, Clone, Copy, PartialEq, Eq, Structural)]
pub struct RetryState {
    pub attempt: usize,
    pub hint: Option<Duration>,
}

/// What an agent does after a session.
#[derive(Debug, PartialEq, Eq)]
pub enum Next {
    Retry(RetryState),
    Stop(AgentError),
}

/// What follows a session that ended: a clean or announced end starts over, a lost
/// session counts as one attempt whatever came before it, a failure as one more,
/// and a rejection is final.
pub open spec fn after_session(state: RetryState, outcome: Result<SessionEnd, AgentError>) -> Next {
    match outcome {
        Ok(SessionEnd::Clean) => Next::Retry(RetryState { attempt: 0, hint: None }),
        Ok(SessionEnd::Restart(hint)) => Next::Retry(RetryState { attempt: 0, hint }),
        Ok(SessionEnd::Lost(hint)) => Next::Retry(RetryState { attempt: 1, hint }),
        Err(AgentError::Rejected { code, message }) => Next::Stop(AgentError::Rejected { code, message }),
        Err(_) => Next::Retry(
            RetryState {
                attempt: if state.attempt < usize::MAX {
                    (state.attempt + 1) as usize
                } else {
                    usize::MAX
                },
                hint: None,
            },
        ),
    }
}

impl RetryState {
    /// Before the first session.
    pub fn start() -> (r: Self)
        ensures
            r.attempt == 0,
            r.hint is None,
    {
        RetryState { attempt: 0, hint: None }
    }

    /// How long to wait now: what the hub asked for, else what the policy says.
    pub fn wait(&self, policy: &ReconnectPolicy) -> (r: Duration)
        ensures
            match self.hint {
                Some(d) => r == d,
                None => r.nanos <= policy.window(self.attempt as int) && (!policy.jitter ==> r.nanos == policy.window(
                    self.attempt as int,
                )),
            },
    {
        match self.hint {
            Some(d) => d,
            None => policy.delay(self.attempt),
        }
    }

    /// What follows the session that ended so.
    pub fn after(&self, outcome: Result<SessionEnd, AgentError>) -> (r: Next)
        ensures
            r == after_session(*self, outcome),
    {
        match outcome {
            Ok(SessionEnd::Clean) => Next::Retry(RetryState { attempt: 0, hint: None }),
            Ok(SessionEnd::Restart(hint)) => Next::Retry(RetryState { attempt: 0, hint }),
            Ok(SessionEnd::Lost(hint)) => Next::Retry(RetryState { attempt: 1, hint }),
            Err(AgentError::Rejected { code, message }) => Next::Stop(AgentError::Rejected { code, message }),
            Err(_) => Next::Retry(RetryState { attempt: self.attempt.saturating_add(1), hint: None }),
        }
    }
}

/// What comes of an agent that keeps connecting: its state after a series of ends.
pub open spec fn after_sessions(state: RetryState, ends: Seq<Result<SessionEnd, AgentError>>) -> Next
    decreases ends.len(),
{
    if ends.len() == 0 {
        Next::Retry(state)
    } else {
        match after_session(state, ends[0]) {
            Next::Retry(s) => after_sessions(s, ends.drop_first()),
            Next::Stop(e) => Next::Stop(e),
        }
    }
}

proof fn lemma_after_sessions(state: RetryState, before: Seq<Result<SessionEnd, AgentError>>, end: Result<SessionEnd, AgentError>)
    ensures
        after_sessions(state, before.push(end)) == match after_sessions(state, before) {
            Next::Retry(s) => after_session(s, end),
            Next::Stop(e) => Next::Stop(e),
        },
    decreases before.len(),
{
    reveal_with_fuel(after_sessions, 2);
    let all = before.push(end);
    if before.len() == 0 {
        assert(all.drop_first() =~= Seq::empty());
    } else {
        assert(all.drop_first() =~= before.drop_first().push(end));
        if let Next::Retry(s) = after_session(state, before[0]) {
            lemma_after_sessions(s, before.drop_first(), end);
        }
    }
}

/// An established session that is lost leaves nothing of the failures before it,
/// however many they were.
pub proof fn lost_session_forgets_failures(
    state: RetryState,
    before: Seq<Result<SessionEnd, AgentError>>,
    hint: Option<Duration>,
)
    requires
        after_sessions(state, before) is Retry,
    ensures
        after_sessions(state, before.push(Ok(SessionEnd::Lost(hint)))) == Next::Retry(RetryState { attempt: 1, hint }),
{
    lemma_after_sessions(state, before, Ok(SessionEnd::Lost(hint)));
}

/// An end that is not a rejection, before a session was established.
pub open spec fn failed(end: Result<SessionEnd, AgentError>) -> bool {
    end matches Err(e) && !(e is Rejected)
}

/// Every failure in a row moves the agent one step on in its schedule.
pub proof fn failures_add_up(state: RetryState, ends: Seq<Result<SessionEnd, AgentError>>)
    requires
        forall|i: int| 0 <= i < ends.len() ==> failed(#[trigger] ends[i]),
        state.attempt + ends.len() <= usize::MAX,
    ensures
        after_sessions(state, ends) matches Next::Retry(s) && s.attempt == state.attempt + ends.len() && (ends.len() > 0
            ==> s.hint is None),
    decreases ends.len(),
{
    if ends.len() > 0 {
        assert(failed(ends[0]));
        let next = after_session(state, ends[0])->Retry_0;
        let rest = ends.drop_first();
        assert forall|i: int| 0 <= i < rest.len() implies failed(#[trigger] rest[i]) by {
            assert(failed(ends[i + 1]));
        }
        failures_add_up(next, rest);
    }
}

/// An agent goes on connecting whatever happens, until a hub rejects it for good.
pub proof fn only_a_rejection_stops(state: RetryState, ends: Seq<Result<SessionEnd, AgentError>>)
    ensures
        after_sessions(state, ends) matches Next::Stop(e) ==> e is Rejected && ends.contains(Err(e)),
    decreases ends.len(),
{
    if ends.len() > 0 {
        match after_session(state, ends[0]) {
            Next::Retry(s) => {
                let rest = ends.drop_first();
                only_a_rejection_stops(s, rest);
                if let Next::Stop(e) = after_sessions(s, rest) {
                    let i = choose|i: int| 0 <= i < rest.len() && rest[i] == Err::<SessionEnd, AgentError>(e);
                    assert(ends[i + 1] == rest[i]);
                }
            },
            Next::Stop(e) => {
                assert(ends[0] == Err::<SessionEnd, AgentError>(e));
            },
        }
    }
}

/// However long a hub asks an agent to stay away, it comes back within five minutes.
pub proof fn hints_are_clamped(reason: Seq<char>)
    ensures
        retry_hint(reason) matches Some(n) ==> 0 <= n <= MAX_RETRY_AFTER_SECS * 1_000_000_000,
{
}

/// A rejected enrollment does not stop the agent.
pub proof fn rejected_enrollment_is_retried(state: RetryState, message: String)
    ensures
        after_session(state, Err(AgentError::EnrollmentRejected(message))) is Retry,
{
}

/// What comes first from the hub.
#[derive(Debug, PartialEq, Eq)]
pub enum Greeting {
    Cancelled,
    TimedOut,
    Closed,
    Broken(String),
    Text(Result<Message, String>),
    Other,
}

/// What the agent does about it.
#[derive(Debug, PartialEq, Eq)]
pub enum Welcome {
    Proceed,
    Finish(SessionEnd),
    Fail(AgentError),
}

/// A welcome begins the session; anything else ends it before it began.
pub open spec fn welcome_of(g: Greeting) -> Welcome {
    match g {
        Greeting::Cancelled => Welcome::Finish(SessionEnd::Clean),
        Greeting::TimedOut => Welcome::Fail(AgentError::Timeout("welcome")),
        Greeting::Closed => Welcome::Fail(AgentError::ClosedBeforeWelcome),
        Greeting::Broken(e) => Welcome::Fail(AgentError::WebSocket(e)),
        Greeting::Text(Err(e)) => Welcome::Fail(AgentError::Json(e)),
        Greeting::Text(Ok(Message::Welcome { .. })) => Welcome::Proceed,
        Greeting::Text(Ok(Message::Error { code, message, .. })) => if code@ == "enrollment_rejected"@ {
            Welcome::Fail(AgentError::EnrollmentRejected(message))
        } else {
            Welcome::Fail(AgentError::Rejected { code, message })
        },
        _ => Welcome::Fail(AgentError::ExpectedWelcome),
    }
}

pub fn greet(greeting: Greeting) -> (r: Welcome)
    ensures
        r == welcome_of(greeting),
{
    match greeting {
        Greeting::Cancelled => Welcome::Finish(SessionEnd::Clean),
        Greeting::TimedOut => Welcome::Fail(AgentError::Timeout("welcome")),
        Greeting::Closed => Welcome::Fail(AgentError::ClosedBeforeWelcome),
        Greeting::Broken(e) => Welcome::Fail(AgentError::WebSocket(e)),
        Greeting::Text(Err(e)) => Welcome::Fail(AgentError::Json(e)),
        Greeting::Text(Ok(Message::Welcome { .. })) => Welcome::Proceed,
        Greeting::Text(Ok(Message::Error { code, message, .. })) => if same(&code, "enrollment_rejected") {
            Welcome::Fail(AgentError::EnrollmentRejected(message))
        } else {
            Welcome::Fail(AgentError::Rejected { code, message })
        },
        _ => Welcome::Fail(AgentError::ExpectedWelcome),
    }
}

/// Something that happens in a session.
pub enum Event {
    Cancelled,
    /// The heartbeat is due; `now` is in nanoseconds on the session's own clock.
    Tick { now: u128, timestamp: Timestamp },
    /// The connection ended, or something could not be sent.
    Broken,
    Close { code: Option<u16>, reason: String },
    Text { message: Result<Message, MalformedMessage>, now: u128, timestamp: Timestamp },
    Binary(Vec<u8>),
    Other,
}

/// What the agent does about it.
pub enum Action {
    Ignore,
    /// Close the connection, then end the session.
    Close(SessionEnd),
    End(SessionEnd),
    Fail(AgentError),
    Send(Message),
    /// Carry out the request and answer it.
    Dispatch { id: String, op: Op, payload: Object },
    /// Send the acknowledgement, then carry out the request in the background.
    Background { ack: Message, id: String, op: Op, payload: Object, job_id: String },
    /// Keep a chunk of a transfer, then acknowledge it.
    Store { transfer_id: String, chunk_index: u32, chunk: Vec<u8> },
}

/// A session: when the hub last answered.
#[derive(Debug, Clone, Copy, PartialEq, Eq, Structural)]
pub struct Session {
    pub last_pong: u128,
}

/// The code with which a hub announces its restart.
pub const CLOSE_RESTART: u16 = 1012;

/// How a session ends when the hub closes it.
pub open spec fn closed_by_hub(code: Option<u16>, reason: Seq<char>) -> (bool, Option<int>) {
    match code {
        None => (false, None),
        Some(c) => (c == CLOSE_RESTART, retry_hint(reason)),
    }
}

/// Whether a payload asks to be carried out in the background.
pub open spec fn wants_background(payload: Fields) -> bool {
    as_flag(get(payload, "background"@)) == Some(true)
}

/// The identifier of a job made from a random number.
pub open spec fn made_job_id(random: u64) -> Seq<char> {
    "job_"@ + padded((random % 0x1000000000000) as nat, 16, 12)
}

/// The identifier of a job: the one that the payload gives, or one that is made.
pub open spec fn job_id_of(payload: Fields, random: u64) -> Seq<char> {
    match as_text(get(payload, "job_id"@)) {
        Some(id) => id,
        None => made_job_id(random),
    }
}

pub fn job_id_from(payload: &Object, random: u64) -> (r: String)
    ensures
        r@ == job_id_of(fields(payload@), random),
{
    match text_field(payload, "job_id") {
        Some(id) => id.to_owned(),
        None => cat2("job_", &padded_text(random % 0x1000000000000, 16, 12)),
    }
}

/// What acknowledges a request that goes on in the background.
pub open spec fn running_result(job_id: Seq<char>, op: Op, host: Seq<char>) -> Fields {
    no_fields().with("status"@, Tree::Text("running"@)).with("job_id"@, Tree::Text(job_id)).with(
        "tool"@,
        Tree::Text(op_name(op)),
    ).with("host"@, Tree::Text(host))
}

pub open spec fn is_ack(m: Message, id: Seq<char>, job_id: Seq<char>, op: Op, host: Seq<char>) -> bool {
    match m {
        Message::Response { id: i, ok: true, result: Some(o), error: None } => i@ == id && fields(o@) == running_result(
            job_id,
            op,
            host,
        ),
        _ => false,
    }
}

/// The acknowledgement of a request that goes on in the background.
pub fn running_ack(id: &str, job_id: &str, op: Op, host: &str) -> (r: Message)
    ensures
        is_ack(r, id@, job_id@, op, host@),
{
    let mut o = no_object();
    set_field(&mut o, "status", string("running"));
    set_field(&mut o, "job_id", string(job_id));
    set_field(&mut o, "tool", string(op.as_str()));
    set_field(&mut o, "host", string(host));
    Message::Response { id: id.to_owned(), ok: true, result: Some(o), error: None }
}

/// The time from `since` to `now`; none where the clock went back.
pub open spec fn elapsed(since: u128, now: u128) -> int {
    if now >= since {
        now - since
    } else {
        0
    }
}

/// What an agent may do about an event, given when it last heard of the hub, how long it
/// waits for that, and what its host is called.
pub open spec fn answers(last_pong: u128, heartbeat_timeout: Duration, host_id: Seq<char>, event: Event, r: Action) -> bool {
    match event {
        Event::Cancelled => r == Action::Close(SessionEnd::Clean),
        Event::Tick { now, timestamp } => if elapsed(last_pong, now) >= heartbeat_timeout.nanos {
            r == Action::End(SessionEnd::Lost(None))
        } else {
            r == Action::Send(Message::Ping { timestamp })
        },
        Event::Broken => r == Action::End(SessionEnd::Lost(None)),
        Event::Close { code, reason } => {
            let (restart, hint) = closed_by_hub(code, reason@);
            match r {
                Action::End(SessionEnd::Restart(h)) => restart && nanos_of(h) == hint,
                Action::End(SessionEnd::Lost(h)) => !restart && nanos_of(h) == hint,
                _ => false,
            }
        },
        Event::Text { message: Ok(Message::Ping { .. }), timestamp, .. } => r == Action::Send(
            Message::Pong { timestamp },
        ),
        Event::Text { message: Ok(Message::Request { id, op, payload, .. }), .. } => if wants_background(
            fields(payload@),
        ) {
            match r {
                Action::Background { ack, id: i, op: o, payload: p, job_id } => i == id && o == op && p == payload
                    && (exists|n: u64| job_id@ == #[trigger] job_id_of(fields(payload@), n)) && is_ack(
                    ack,
                    id@,
                    job_id@,
                    op,
                    host_id,
                ),
                _ => false,
            }
        } else {
            r == (Action::Dispatch { id, op, payload })
        },
        Event::Text { message: Ok(Message::Error { code, message, fatal: true }), .. } => r == Action::Fail(
            AgentError::Rejected { code, message },
        ),
        Event::Text { .. } => r == Action::Ignore,
        Event::Binary(raw) => if raw@.len() < crate::frame::BINARY_HEADER_BYTES {
            r == Action::Ignore
        } else {
            match r {
                Action::Store { transfer_id, chunk_index, chunk } => transfer_id@ == hex(raw@.take(16)) && raw@
                    == frame_bytes(raw@.take(16), chunk_index, chunk@),
                _ => false,
            }
        },
        Event::Other => r == Action::Ignore,
    }
}

/// When an agent has last heard of the hub.
pub open spec fn heard(last_pong: u128, event: Event) -> u128 {
    match event {
        Event::Text { message: Ok(Message::Pong { .. }), now, .. } => now,
        _ => last_pong,
    }
}

impl Session {
    /// What the agent does about an event, given how long it waits for an answer to
    /// its heartbeat and what its host is called.
    pub fn step(&mut self, heartbeat_timeout: Duration, host_id: &str, event: Event) -> (r: Action)
        ensures
            final(self).last_pong == heard(old(self).last_pong, event),
            answers(old(self).last_pong, heartbeat_timeout, host_id@, event, r),
    {
        match event {
            Event::Cancelled => Action::Close(SessionEnd::Clean),
            Event::Tick { now, timestamp } => if now.saturating_sub(self.last_pong) >= heartbeat_timeout.nanos {
                Action::End(SessionEnd::Lost(None))
            } else {
                Action::Send(Message::Ping { timestamp })
            },
            Event::Broken => Action::End(SessionEnd::Lost(None)),
            Event::Close { code, reason } => match code {
                None => Action::End(SessionEnd::Lost(None)),
                Some(c) => {
                    let hint = parse_retry_after(&reason);
                    if c == CLOSE_RESTART {
                        Action::End(SessionEnd::Restart(hint))
                    } else {
                        Action::End(SessionEnd::Lost(hint))
                    }
                },
            },
            Event::Text { message, now, timestamp } => match message {
                Ok(Message::Ping { .. }) => Action::Send(Message::Pong { timestamp }),
                Ok(Message::Request { id, op, payload, .. }) => {
                    let background = match flag_field(&payload, "background") {
                        Some(b) => b,
                        None => false,
                    };
                    if background {
                        let random = random_number();
                        let job_id = job_id_from(&payload, random);
                        assert(job_id@ == job_id_of(fields(payload@), random));
                        let ack = running_ack(&id, &job_id, op, host_id);
                        Action::Background { ack, id, op, payload, job_id }
                    } else {
                        Action::Dispatch { id, op, payload }
                    }
                },
                Ok(Message::Pong { .. }) => {
                    self.last_pong = now;
                    Action::Ignore
                },
                Ok(Message::Error { code, message, fatal }) => if fatal {
                    Action::Fail(AgentError::Rejected { code, message })
                } else {
                    Action::Ignore
                },
                _ => Action::Ignore,
            },
            Event::Binary(raw) => match decode_binary_frame(raw.as_slice()) {
                Err(_) => Action::Ignore,
                Ok(frame) => {
                    let transfer_id = hex_bytes(frame.transfer_id.as_slice());
                    assert(raw@.take(16) =~= frame.transfer_id@);
                    let mut chunk: Vec<u8> = Vec::new();
                    chunk.extend_from_slice(frame.payload);
                    assert(chunk@ =~= frame.payload@);
                    Action::Store { transfer_id, chunk_index: frame.chunk_index, chunk }
                },
            },
            Event::Other => Action::Ignore,
        }
    }
}

pub open spec fn nanos_of(d: Option<Duration>) -> Option<int> {
    match d {
        Some(d) => Some(d.nanos as int),
        None => None,
    }
}

/// The longest wait that a hub may ask for, in seconds.
pub const MAX_RETRY_AFTER_SECS: u64 = 300;

pub fn max_retry_after() -> (r: Duration)
    ensures
        r.nanos == MAX_RETRY_AFTER_SECS * 1_000_000_000,
{
    Duration::from_secs(MAX_RETRY_AFTER_SECS)
}

/// `s` with semicolons for commas.
pub open spec fn semicolons(s: Seq<char>) -> Seq<char> {
    Seq::new(
        s.len(),
        |i: int|
            if s[i] == ',' {
                ';'
            } else {
                s[i]
            },
    )
}

/// The value that a part gives for `retry_after`.
pub open spec fn retry_value(part: Seq<char>) -> Option<Seq<char>> {
    match once(trimmed(part), '=') {
        Some((key, value)) => if trimmed(key) == "retry_after"@ {
            Some(trimmed(value))
        } else {
            None
        },
        None => None,
    }
}

/// The first value for `retry_after` among parts, from `i` on.
pub open spec fn first_retry_value(parts: Seq<Seq<char>>, i: int) -> Option<Seq<char>>
    decreases parts.len() - i,
{
    if i < 0 || i >= parts.len() {
        None
    } else {
        match retry_value(parts[i]) {
            Some(v) => Some(v),
            None => first_retry_value(parts, i + 1),
        }
    }
}

/// When the hub wants the agent back, in nanoseconds: what `retry_after` says among
/// the parts of the reason, at least zero and at most the longest wait.
pub open spec fn retry_hint(reason: Seq<char>) -> Option<int> {
    match first_retry_value(pieces(semicolons(reason), ';'), 0) {
        Some(v) => clamped_nanos(v, 0, MAX_RETRY_AFTER_SECS * 1_000_000_000),
        None => None,
    }
}

fn with_semicolons(s: &str) -> (r: String)
    ensures
        r@ == semicolons(s@),
{
    let chars = chars_of(s);
    let mut out: Vec<char> = Vec::new();
    let mut i: usize = 0;
    while i < chars.len()
        invariant
            i <= chars@.len(),
            chars@ == s@,
            out@ == semicolons(s@).take(i as int),
        decreases chars@.len() - i,
    {
        out.push(
            if chars[i] == ',' {
                ';'
            } else {
                chars[i]
            },
        );
        i = i + 1;
        assert(out@ =~= semicolons(s@).take(i as int));
    }
    assert(semicolons(s@).take(i as int) =~= semicolons(s@));
    text_of(&out)
}

/// When the hub wants the agent back, as the reason of its close says.
pub fn parse_retry_after(reason: &str) -> (r: Option<Duration>)
    ensures
        nanos_of(r) == retry_hint(reason@),
        r matches Some(d) ==> d.nanos <= MAX_RETRY_AFTER_SECS * 1_000_000_000,
{
    let parts = split(&with_semicolons(reason), ';');
    let ghost all = views(parts@);
    let mut i: usize = 0;
    while i < parts.len()
        invariant
            i <= parts@.len(),
            all == views(parts@),
            all == pieces(semicolons(reason@), ';'),
            first_retry_value(all, i as int) == first_retry_value(all, 0),
        decreases parts@.len() - i,
    {
        assert(all[i as int] == parts@[i as int]@);
        if let Some((key, value)) = split_once(&trim(&parts[i]), '=') {
            if same(&trim(&key), "retry_after") {
                return clamp_seconds(&trim(&value), 0, MAX_RETRY_AFTER_SECS as u128 * 1_000_000_000);
            }
        }
        i = i + 1;
    }
    None
}

/// What answers an operation that is not known here.
#[derive(Debug, Default)]
pub struct UnsupportedDispatcher;

pub open spec fn unsupported_error(op: Op) -> Tree {
    Tree::Object(
        no_fields().with("code"@, Tree::Text("unsupported_op"@)).with(
            "message"@,
            Tree::Text("agent does not support op: "@ + op_name(op)),
        ).with("details"@, Tree::Null),
    )
}

/// What a response with an error and nothing else is.
pub open spec fn refusal(id: Seq<char>, error: Tree) -> Tree {
    response_tree(id, false, Tree::Null, error)
}

/// A response as JSON.
pub open spec fn response_tree(id: Seq<char>, ok: bool, result: Tree, error: Tree) -> Tree {
    Tree::Object(
        no_fields().with("type"@, Tree::Text("response"@)).with("id"@, Tree::Text(id)).with("ok"@, Tree::Bool(ok)).with(
            "result"@,
            result,
        ).with("error"@, error),
    )
}

fn refuse(id: &str, code: &str, message: &str) -> (r: Message)
    ensures
        message_tree(r) == refusal(
            id@,
            Tree::Object(
                no_fields().with("code"@, Tree::Text(code@)).with("message"@, Tree::Text(message@)).with(
                    "details"@,
                    Tree::Null,
                ),
            ),
        ),
        r is Response,
{
    Message::Response {
        id: id.to_owned(),
        ok: false,
        result: None,
        error: Some(ResponseError { code: code.to_owned(), message: message.to_owned(), details: None }),
    }
}

impl UnsupportedDispatcher {
    pub fn dispatch(&self, id: &str, op: Op) -> (r: Message)
        ensures
            message_tree(r) == refusal(id@, unsupported_error(op)),
            r is Response,
    {
        refuse(id, "unsupported_op", &cat2("agent does not support op: ", op.as_str()))
    }
}

/// What answers a request whose handler broke down.
pub fn broken_handler(id: &str) -> (r: Message)
    ensures
        message_tree(r) == refusal(
            id@,
            Tree::Object(
                no_fields().with("code"@, Tree::Text("internal_error"@)).with(
                    "message"@,
                    Tree::Text("operation handler panicked"@),
                ).with("details"@, Tree::Null),
            ),
        ),
        r is Response,
{
    refuse(id, "internal_error", "operation handler panicked")
}

pub const BINARY_KEY: &'static str = "__binary_payload__";

/// What goes over the wire for a message: a binary frame first where the result
/// carries one, then the message.
pub struct Outgoing {
    pub frame: Option<Vec<u8>>,
    pub wire: Json,
}

/// The frame that a result calls for, or why there is none.
pub open spec fn called_frame(result: Fields, encoded: Seq<char>) -> Result<Seq<u8>, Seq<char>> {
    match as_text(get(result, "transfer_id"@)) {
        None => Err("missing transfer_id"@),
        Some(id) => match as_count(get(result, "chunk_index"@)) {
            None => Err("missing chunk_index"@),
            Some(n) => if n > u32::MAX {
                Err("chunk_index exceeds u32"@)
            } else {
                match transfer_id_of(id) {
                    Err(e) => Err(e),
                    Ok(bytes) => match base64_bytes(encoded) {
                        Err(e) => Err("invalid internal binary payload: "@ + e),
                        Ok(payload) => Ok(frame_bytes(bytes, n as u32, payload)),
                    },
                }
            },
        },
    }
}

/// The frame that a result calls for, given the bytes that it carries.
pub fn frame_for(result: &Object, encoded: &str) -> (r: Result<Vec<u8>, String>)
    ensures
        match r {
            Ok(f) => called_frame(fields(result@), encoded@) == Ok::<Seq<u8>, Seq<char>>(f@),
            Err(e) => called_frame(fields(result@), encoded@) == Err::<Seq<u8>, Seq<char>>(e@),
        },
{
    let id = match text_field(result, "transfer_id") {
        Some(id) => id,
        None => return Err("missing transfer_id".to_owned()),
    };
    let n = match count_field(result, "chunk_index") {
        Some(n) => n,
        None => return Err("missing chunk_index".to_owned()),
    };
    if n > 0xffff_ffff {
        return Err("chunk_index exceeds u32".to_owned());
    }
    let bytes = match decode_transfer_id_hex(id) {
        Ok(bytes) => bytes,
        Err(e) => return Err(e),
    };
    let payload = match decode_base64(encoded) {
        Ok(payload) => payload,
        Err(e) => return Err(cat2("invalid internal binary payload: ", &e)),
    };
    Ok(encode_binary_frame(bytes, n as u32, payload.as_slice()))
}

pub open spec fn emit_error(e: Seq<char>) -> Tree {
    Tree::Object(
        no_fields().with("code"@, Tree::Text("binary_emit_error"@)).with("message"@, Tree::Text(e)).with(
            "details"@,
            Tree::Null,
        ),
    )
}

/// A response within the limit of the protocol.
pub open spec fn fitted(t: Tree) -> Tree {
    bounded(t, RESPONSE_SOFT_LIMIT_BYTES).0
}

/// The frame and the JSON that a message goes out as. A response is kept within
/// the limit; the internal binary payload never goes out in it.
pub open spec fn outgoing_of(m: Message) -> (Option<Seq<u8>>, Tree) {
    match m {
        Message::Response { id, ok: true, result: Some(result), error } => {
            let rest = without(fields(result@), BINARY_KEY@);
            let plain = response_tree(id@, true, Tree::Object(rest), opt_failure_tree(error));
            match as_text(get(fields(result@), BINARY_KEY@)) {
                Some(encoded) => match called_frame(rest, encoded) {
                    Ok(frame) => (Some(frame), fitted(plain)),
                    Err(e) => (None, fitted(refusal(id@, emit_error(e)))),
                },
                None => (None, fitted(plain)),
            }
        },
        Message::Response { .. } => (None, fitted(message_tree(m))),
        _ => (None, message_tree(m)),
    }
}

pub open spec fn opt_bytes(b: Option<Vec<u8>>) -> Option<Seq<u8>> {
    match b {
        Some(b) => Some(b@),
        None => None,
    }
}

/// What a message goes out as.
pub fn outgoing(message: Message) -> (r: Outgoing)
    ensures
        opt_bytes(r.frame) == outgoing_of(message).0,
        r.wire@ == outgoing_of(message).1,
{
    let is_response = match &message {
        Message::Response { .. } => true,
        _ => false,
    };
    let (frame, last) = match message {
        Message::Response { id, ok: true, result: Some(result), error } => {
            let mut rest = result;
            let taken = remove_field(&mut rest, BINARY_KEY);
            match taken {
                Some(Json::Text(encoded)) => match frame_for(&rest, &encoded) {
                    Ok(frame) => (Some(frame), Message::Response { id, ok: true, result: Some(rest), error }),
                    Err(e) => (None, refuse(&id, "binary_emit_error", &e)),
                },
                _ => (None, Message::Response { id, ok: true, result: Some(rest), error }),
            }
        },
        other => (None, other),
    };
    let mut wire = last.to_json();
    if is_response {
        let _ = bound_response_default(&mut wire);
    }
    Outgoing { frame, wire }
}

/// When a request came in and was done, in microseconds after 1970.
pub open spec fn timing(received: nat, finished: nat) -> Tree {
    Tree::Object(
        no_fields().with("received_at"@, Tree::Number(Num::Float(seconds_form(received, 1_000_000, 6)))).with(
            "finished_at"@,
            Tree::Number(Num::Float(seconds_form(finished, 1_000_000, 6))),
        ),
    )
}

/// A result with its timing, unless it carries a binary payload.
pub open spec fn timed_result(result: Fields, received: nat, finished: nat) -> Fields {
    if get(result, BINARY_KEY@) is Some {
        result
    } else {
        result.with("_sx_timing"@, timing(received, finished))
    }
}

/// A response with the timing of its request.
pub fn with_timing(response: Message, received: u64, finished: u64) -> (r: Message)
    ensures
        match response {
            Message::Response { id, ok, result: Some(result), error } => match r {
                Message::Response { id: i, ok: k, result: Some(o), error: e } => i == id && k == ok && e == error && fields(o@)
                    == timed_result(fields(result@), received as nat, finished as nat),
                _ => false,
            },
            _ => r == response,
        },
{
    broadcast use group_json_views;

    match response {
        Message::Response { id, ok, result: Some(result), error } => {
            let mut o = result;
            if !has_field(&o, BINARY_KEY) {
                let mut t = no_object();
                set_field(&mut t, "received_at", Json::Number(Number::Float(seconds_text(received, 1_000_000, 6))));
                set_field(&mut t, "finished_at", Json::Number(Number::Float(seconds_text(finished, 1_000_000, 6))));
                set_field(&mut o, "_sx_timing", Json::Object(t));
            }
            Message::Response { id, ok, result: Some(o), error }
        },
        other => other,
    }
}

/// A response within the limit, read back as a message; where that is no message
/// any more, the response as it was.
pub fn fit_response(response: Message) -> (r: Message)
    ensures
        match fitted(message_tree(response)) {
            Tree::Object(o) => if message_fits(o) {
                message_tree(r) == Tree::Object(settled_message(o))
            } else {
                r == response
            },
            _ => r == response,
        },
{
    let mut wire = response.to_json();
    let _ = bound_response_default(&mut wire);
    match Message::from_json(&wire) {
        Ok(m) => m,
        Err(_) => response,
    }
}

/// The event that tells of a completed job.
pub fn completion(
    job_id: &str,
    op: Op,
    host: &str,
    response: &Message,
    started: Timestamp,
    finished: Timestamp,
    now: Timestamp,
) -> (r: Message)
    requires
        started.dated(),
        finished.dated(),
    ensures
        match r {
            Message::Event { kind, data, timestamp } => kind@ == "job_completed"@ && timestamp == now && fields(data@)
                == completed_event(job_id@, op_name(op), host@, ending(*response), started, finished),
            _ => false,
        },
{
    let data = build_completed_event_data(job_id, op.as_str(), host, response, started, finished);
    Message::Event { kind: "job_completed".to_owned(), data, timestamp: now }
}

/// What came of keeping a chunk.
pub enum ChunkOutcome {
    Stored(u64),
    Refused { code: String, message: String },
    Broken(String),
}

/// What the acknowledgement of a chunk tells.
pub open spec fn chunk_ack_data(transfer_id: Seq<char>, chunk_index: u32, outcome: ChunkOutcome) -> Fields {
    let base = no_fields().with("transfer_id"@, Tree::Text(transfer_id)).with(
        "chunk_index"@,
        Tree::Number(Num::Pos(chunk_index as u64)),
    );
    match outcome {
        ChunkOutcome::Stored(bytes) => base.with("ok"@, Tree::Bool(true)).with("bytes"@, Tree::Number(Num::Pos(bytes))),
        ChunkOutcome::Refused { code, message } => base.with("ok"@, Tree::Bool(false)).with(
            "error"@,
            Tree::Text(code@ + ": "@ + message@),
        ),
        ChunkOutcome::Broken(e) => base.with("ok"@, Tree::Bool(false)).with("error"@, Tree::Text("ingest_error: "@ + e@)),
    }
}

/// The acknowledgement of a chunk.
pub fn chunk_ack(transfer_id: &str, chunk_index: u32, outcome: ChunkOutcome, now: Timestamp) -> (r: Message)
    ensures
        match r {
            Message::Event { kind, data, timestamp } => kind@ == "transfer_chunk_ack"@ && timestamp == now && fields(data@)
                == chunk_ack_data(transfer_id@, chunk_index, outcome),
            _ => false,
        },
{
    let mut o = no_object();
    set_field(&mut o, "transfer_id", string(transfer_id));
    set_field(&mut o, "chunk_index", count(chunk_index as u64));
    match outcome {
        ChunkOutcome::Stored(bytes) => {
            set_field(&mut o, "ok", Json::Bool(true));
            set_field(&mut o, "bytes", count(bytes));
        },
        ChunkOutcome::Refused { code, message } => {
            set_field(&mut o, "ok", Json::Bool(false));
            set_field(&mut o, "error", Json::Text(cat3(&code, ": ", &message)));
        },
        ChunkOutcome::Broken(e) => {
            set_field(&mut o, "ok", Json::Bool(false));
            set_field(&mut o, "error", Json::Text(cat2("ingest_error: ", &e)));
        },
    }
    Message::Event { kind: "transfer_chunk_ack".to_owned(), data: o, timestamp: now }
}

/// Where the delivery of a completion stands.
#[derive(Debug, Clone, Copy, PartialEq, Eq, Structural)]
pub enum Delivery {
    /// It is to be kept.
    Persist,
    /// It is to be sent; `kept` tells whether it was kept before.
    Send { kept: bool },
    /// It was sent and is to be taken out of the store.
    Clear,
    /// Nothing is left to do.
    Done,
    /// It was not sent and stays in the store.
    Waiting,
}

/// What follows a step that went well or did not.
pub open spec fn delivery_after(d: Delivery, ok: bool) -> Delivery {
    match d {
        Delivery::Persist => Delivery::Send { kept: ok },
        Delivery::Send { kept } => if !kept {
            Delivery::Done
        } else if ok {
            Delivery::Clear
        } else {
            Delivery::Waiting
        },
        Delivery::Clear => Delivery::Done,
        Delivery::Done => Delivery::Done,
        Delivery::Waiting => Delivery::Waiting,
    }
}

impl Delivery {
    pub fn after(self, ok: bool) -> (r: Delivery)
        ensures
            r == delivery_after(self, ok),
    {
        match self {
            Delivery::Persist => Delivery::Send { kept: ok },
            Delivery::Send { kept } => if !kept {
                Delivery::Done
            } else if ok {
                Delivery::Clear
            } else {
                Delivery::Waiting
            },
            Delivery::Clear => Delivery::Done,
            Delivery::Done => Delivery::Done,
            Delivery::Waiting => Delivery::Waiting,
        }
    }
}

/// A completion is taken out of the store only right after it was sent, and is sent
/// only after the attempt to keep it.
pub proof fn completion_is_cleared_only_after_it_was_sent(d: Delivery, ok: bool)
    ensures
        delivery_after(d, ok) is Clear ==> ok && d == (Delivery::Send { kept: true }),
        delivery_after(d, ok) is Send ==> d is Persist,
        d == (Delivery::Send { kept: true }) && !ok ==> delivery_after(d, ok) is Waiting,
{
}

/// Whatever a result holds, the internal binary payload does not go out as JSON: a
/// result that goes out whole has no such field.
pub proof fn binary_payload_is_taken_out(result: Fields)
    requires
        crate::json::in_order(result),
    ensures
        get(without(result, BINARY_KEY@), BINARY_KEY@) is None,
{
    let k = BINARY_KEY@;
    crate::json::lemma_position(result, k);
    let p = crate::json::position(result, k);
    if p < result.len() {
        let r = without(result, k);
        assert forall|i: int| 0 <= i < r.len() implies #[trigger] r[i].0 != k by {
            if i < p {
                assert(r[i] == result[i]);
            } else {
                assert(r[i] == result[i + 1]);
                assert(crate::order::less(result[p].0, result[i + 1].0));
                crate::order::lemma_less_irreflexive(k);
            }
        }
        crate::json::lemma_position_is(r, k, r.len() as int);
    }
}

/// A hub that has not answered the heartbeat for too long is given up, and one that has is
/// sent another; only an answer to it counts.
pub proof fn silent_hubs_are_given_up(
    last_pong: u128,
    timeout: Duration,
    host: Seq<char>,
    now: u128,
    timestamp: Timestamp,
    r: Action,
)
    requires
        answers(last_pong, timeout, host, Event::Tick { now, timestamp }, r),
    ensures
        r == Action::End(SessionEnd::Lost(None)) <==> now >= last_pong + timeout.nanos || timeout.nanos == 0,
        r != Action::End(SessionEnd::Lost(None)) ==> r == Action::Send(Message::Ping { timestamp }),
        heard(last_pong, Event::Tick { now, timestamp }) == last_pong,
        heard(last_pong, Event::Text { message: Ok(Message::Pong { timestamp }), now, timestamp }) == now,
        heard(last_pong, Event::Text { message: Ok(Message::Ping { timestamp }), now, timestamp }) == last_pong,
{
}

/// A request is carried out as it was sent, and a ping is answered with the time of the
/// answer.
pub proof fn requests_are_carried_out(
    last_pong: u128,
    timeout: Duration,
    host: Seq<char>,
    id: String,
    op: Op,
    payload: Object,
    deadline: Option<Timestamp>,
    opaque_ref: Option<String>,
    sent: Timestamp,
    now: u128,
    timestamp: Timestamp,
    r: Action,
)
    ensures
        answers(
            last_pong,
            timeout,
            host,
            Event::Text { message: Ok(Message::Request { id, op, payload, deadline, opaque_ref }), now, timestamp },
            r,
        ) && get(fields(payload@), "background"@) != Some(Tree::Bool(true)) ==> r == (Action::Dispatch { id, op, payload }),
        answers(
            last_pong,
            timeout,
            host,
            Event::Text { message: Ok(Message::Request { id, op, payload, deadline, opaque_ref }), now, timestamp },
            r,
        ) && get(fields(payload@), "background"@) == Some(Tree::Bool(true)) ==> (r matches Action::Background {
            ack,
            id: i,
            op: o,
            payload: p,
            job_id,
        } && i == id && o == op && p == payload && (get(fields(payload@), "job_id"@) matches Some(Tree::Text(given))
            ==> job_id@ == given) && (ack matches Message::Response { id: j, ok, result: Some(told), error } && j@ == id@
            && ok && error is None && get(fields(told@), "status"@) == Some(Tree::Text("running"@)) && get(
            fields(told@),
            "job_id"@,
        ) == Some(Tree::Text(job_id@)) && get(fields(told@), "tool"@) == Some(Tree::Text(op_name(op))) && get(
            fields(told@),
            "host"@,
        ) == Some(Tree::Text(host)))),
        answers(
            last_pong,
            timeout,
            host,
            Event::Text { message: Ok(Message::Ping { timestamp: sent }), now, timestamp },
            r,
        ) ==> r == Action::Send(Message::Pong { timestamp }),
{
    broadcast use lemma_get_put;

    reveal_strlit("status");
    reveal_strlit("job_id");
    reveal_strlit("tool");
    reveal_strlit("host");
    assert("status"@.len() == 6 && "job_id"@.len() == 6 && "tool"@.len() == 4 && "host"@.len() == 4
        && "status"@[0] == 's' && "job_id"@[0] == 'j' && "tool"@[0] == 't' && "host"@[0] == 'h');
}

/// A session ends where the hub closes it: one that is restarted is told as such, and the
/// wait that the hub asks for is kept. A fatal error ends the agent; malformed messages and
/// short frames change nothing.
pub proof fn sessions_end_as_the_hub_says(
    last_pong: u128,
    timeout: Duration,
    host: Seq<char>,
    code: u16,
    reason: String,
    error_code: String,
    error_message: String,
    malformed: MalformedMessage,
    raw: Vec<u8>,
    now: u128,
    timestamp: Timestamp,
    r: Action,
)
    ensures
        answers(last_pong, timeout, host, Event::Close { code: Some(code), reason }, r) ==> match r {
            Action::End(SessionEnd::Restart(hint)) => code == 1012 && nanos_of(hint) == retry_hint(reason@),
            Action::End(SessionEnd::Lost(hint)) => code != 1012 && nanos_of(hint) == retry_hint(reason@),
            _ => false,
        },
        answers(last_pong, timeout, host, Event::Cancelled, r) ==> r == Action::Close(SessionEnd::Clean),
        answers(last_pong, timeout, host, Event::Broken, r) ==> r == Action::End(SessionEnd::Lost(None)),
        answers(
            last_pong,
            timeout,
            host,
            Event::Text {
                message: Ok(Message::Error { code: error_code, message: error_message, fatal: true }),
                now,
                timestamp,
            },
            r,
        ) ==> r == Action::Fail(AgentError::Rejected { code: error_code, message: error_message }),
        answers(
            last_pong,
            timeout,
            host,
            Event::Text {
                message: Ok(Message::Error { code: error_code, message: error_message, fatal: false }),
                now,
                timestamp,
            },
            r,
        ) ==> r == Action::Ignore,
        answers(last_pong, timeout, host, Event::Text { message: Err(malformed), now, timestamp }, r) ==> r == Action::Ignore,
        answers(last_pong, timeout, host, Event::Binary(raw), r) && raw@.len() < 20 ==> r == Action::Ignore,
        answers(last_pong, timeout, host, Event::Binary(raw), r) && raw@.len() >= 20 ==> (r matches Action::Store {
            transfer_id,
            chunk_index,
            chunk,
        } && transfer_id@ == hex(raw@.take(16)) && raw@ == frame_bytes(raw@.take(16), chunk_index, chunk@)),
{
}

/// The wait between two attempts follows the steps of the schedule and stays at the last.
pub proof fn waits_follow_the_schedule(p: ReconnectPolicy, attempt: int)
    requires
        0 <= attempt,
    ensures
        attempt < p.steps@.len() ==> p.window(attempt) == p.steps@[attempt].nanos,
        attempt >= p.steps@.len() > 0 ==> p.window(attempt) == p.steps@.last().nanos,
        p.steps@.len() == 0 ==> p.window(attempt) == 0,
        default_steps() == seq![0u64, 1, 2, 5, 10, 20, 30, 60, 120, 300],
{
}

/// A session that ended well, or that is restarted, is taken up again at once by the
/// schedule; one that was lost after the first step.
pub proof fn sessions_are_taken_up_again(state: RetryState, hint: Option<Duration>, code: String, message: String)
    ensures
        after_session(state, Ok(SessionEnd::Clean)) == Next::Retry(RetryState { attempt: 0, hint: None }),
        after_session(state, Ok(SessionEnd::Restart(hint))) == Next::Retry(RetryState { attempt: 0, hint }),
        after_session(state, Ok(SessionEnd::Lost(hint))) == Next::Retry(RetryState { attempt: 1, hint }),
        after_session(state, Err(AgentError::Rejected { code, message })) == Next::Stop(
            AgentError::Rejected { code, message },
        ),
        after_session(state, Err(AgentError::ClosedBeforeWelcome)) matches Next::Retry(s) && s.hint is None && (state.attempt
            < usize::MAX ==> s.attempt == state.attempt + 1),
{
}

/// A session begins with a welcome and nothing else; a refused enrollment is told apart
/// from any other refusal.
pub proof fn sessions_begin_with_a_welcome(g: Greeting, code: String, message: String, fatal: bool)
    ensures
        welcome_of(g) == Welcome::Proceed <==> (g matches Greeting::Text(Ok(Message::Welcome { .. }))),
        code@ == "enrollment_rejected"@ ==> welcome_of(Greeting::Text(Ok(Message::Error { code, message, fatal })))
            == Welcome::Fail(AgentError::EnrollmentRejected(message)),
        code@ != "enrollment_rejected"@ ==> welcome_of(Greeting::Text(Ok(Message::Error { code, message, fatal })))
            == Welcome::Fail(AgentError::Rejected { code, message }),
        welcome_of(Greeting::Cancelled) == Welcome::Finish(SessionEnd::Clean),
        welcome_of(Greeting::Closed) == Welcome::Fail(AgentError::ClosedBeforeWelcome),
{
}

/// The agent connects to the hub's address over a socket as safe as the address is, and
/// never names its token there.
pub proof fn hubs_are_reached_over_sockets(rest: Seq<char>)
    ensures
        socket_base("https://"@ + rest) == "wss://"@ + rest,
        socket_base("http://"@ + rest) == "ws://"@ + rest,
        rest.len() > 0 && rest.last() != '/' ==> connect_address(rest) == rest + "/agent/connect"@ && connect_address(
            rest.push('/'),
        ) == rest + "/agent/connect"@,
{
    reveal_strlit("https://");
    reveal_strlit("http://");
    let a = "https://"@ + rest;
    let b = "http://"@ + rest;
    assert(a.take(8) =~= "https://"@);
    assert(a.skip(8) =~= rest);
    assert(b.take(7) =~= "http://"@);
    assert(b.skip(7) =~= rest);
    assert(b[4] == ':');
    assert(!crate::text::prefixed(b, "https://"@)) by {
        if crate::text::prefixed(b, "https://"@) {
            assert(b.take(8)[4] == 's');
        }
    }
    if rest.len() > 0 && rest.last() != '/' {
        assert(rest.push('/').drop_last() =~= rest);
        reveal_with_fuel(without_trailing, 3);
    }
}

/// A configuration is taken only where it can work: with an address and a token, and with
/// a heartbeat that is waited for longer than it takes.
pub proof fn configurations_can_work(c: AgentConfig)
    ensures
        config_fault(c) is None <==> !blank(c.hub_ws_base@) && c.token@.len() > 0 && header_text("Bearer "@ + c.token@)
            && c.connect_timeout.nanos > 0 && c.welcome_timeout.nanos > 0 && c.heartbeat_interval.nanos > 0
            && c.heartbeat_timeout.nanos > c.heartbeat_interval.nanos,
{
}

/// The wait that a hub asks for is read from its reason, whatever stands around it.
pub proof fn asked_waits_are_read(value: Seq<char>)
    requires
        value.len() > 0,
        forall|i: int|
            0 <= i < value.len() ==> !white(#[trigger] value[i]) && value[i] != ';' && value[i] != ',' && value[i] != '=',
    ensures
        retry_hint("retry_after="@ + value) == clamped_nanos(value, 0, 300_000_000_000),
{
    reveal_strlit("retry_after=");
    reveal_strlit("retry_after");
    let s = "retry_after="@ + value;
    assert(semicolons(s) =~= s);
    lemma_first_index(s, ';');
    assert(!s.contains(';')) by {
        if s.contains(';') {
            let i = choose|i: int| 0 <= i < s.len() && s[i] == ';';
            if i >= 12 {
                assert(s[i] == value[i - 12]);
            }
        }
    }
    assert(pieces(s, ';') =~= seq![s]);
    let key = "retry_after"@;
    lemma_unspaced_is_trimmed(s);
    lemma_unspaced_is_trimmed(key);
    lemma_unspaced_is_trimmed(value);
    lemma_first_index_is(s, '=', 11);
    assert(s.take(11) =~= key);
    assert(s.skip(12) =~= value);
    reveal_with_fuel(first_retry_value, 2);
}

proof fn lemma_unspaced_is_trimmed(s: Seq<char>)
    requires
        s.len() > 0,
        !white(s[0]),
        !white(s.last()),
    ensures
        trimmed(s) == s,
{
}

/// What is answered to a chunk of a transfer names the chunk and says whether it was kept.
pub proof fn chunks_are_acknowledged(transfer_id: Seq<char>, index: u32, bytes: u64, code: String, message: String)
    ensures
        ({
            let r = chunk_ack_data(transfer_id, index, ChunkOutcome::Stored(bytes));
            &&& get(r, "transfer_id"@) == Some(Tree::Text(transfer_id))
            &&& get(r, "chunk_index"@) == Some(Tree::Number(Num::Pos(index as u64)))
            &&& get(r, "ok"@) == Some(Tree::Bool(true))
            &&& get(r, "bytes"@) == Some(Tree::Number(Num::Pos(bytes)))
            &&& get(r, "error"@) is None
        }),
        ({
            let r = chunk_ack_data(transfer_id, index, ChunkOutcome::Refused { code, message });
            &&& get(r, "transfer_id"@) == Some(Tree::Text(transfer_id))
            &&& get(r, "chunk_index"@) == Some(Tree::Number(Num::Pos(index as u64)))
            &&& get(r, "ok"@) == Some(Tree::Bool(false))
            &&& get(r, "error"@) == Some(Tree::Text(code@ + seq![':', ' '] + message@))
        }),
{
    broadcast use lemma_get_put;

    reveal_strlit("transfer_id");
    reveal_strlit("chunk_index");
    reveal_strlit("ok");
    reveal_strlit("bytes");
    reveal_strlit("error");
    assert("transfer_id"@.len() == 11 && "chunk_index"@.len() == 11 && "ok"@.len() == 2 && "bytes"@.len() == 5
        && "error"@.len() == 5 && "transfer_id"@[0] == 't' && "chunk_index"@[0] == 'c' && "bytes"@[0] == 'b'
        && "error"@[0] == 'e');
    reveal_strlit(": ");
    assert(": "@ =~= seq![':', ' ']);
}

/// A result that carries no bytes is told with the times at which its request came and was
/// done; all else of it stays.
pub proof fn results_are_timed(result: Fields, received: nat, finished: nat, key: Seq<char>)
    requires
        get(result, "__binary_payload__"@) is None,
    ensures
        get(timed_result(result, received, finished), "_sx_timing"@) matches Some(Tree::Object(t)) && get(t, "received_at"@)
            == Some(Tree::Number(Num::Float(micros_form(received)))) && get(t, "finished_at"@) == Some(
            Tree::Number(Num::Float(micros_form(finished))),
        ),
        key != "_sx_timing"@ ==> get(timed_result(result, received, finished), key) == get(result, key),
{
    broadcast use lemma_get_put;

    reveal_strlit("received_at");
    reveal_strlit("finished_at");
    reveal_strlit("_sx_timing");
    assert("received_at"@.len() == 11 && "finished_at"@.len() == 11 && "_sx_timing"@.len() == 10
        && "received_at"@[0] == 'r' && "finished_at"@[0] == 'f');
}

/// A chunk leaves as a frame of its own, and the answer without it; where no frame can be
/// made of it, that is the answer.
pub proof fn chunks_leave_as_frames(m: Message, id: String, result: Object, encoded: Seq<char>)
    requires
        m == (Message::Response { id, ok: true, result: Some(result), error: None }),
        get(fields(result@), "__binary_payload__"@) == Some(Tree::Text(encoded)),
    ensures
        match called_frame(without(fields(result@), "__binary_payload__"@), encoded) {
            Ok(frame) => outgoing_of(m).0 == Some(frame),
            Err(_) => outgoing_of(m).0 is None,
        },
        called_frame(without(fields(result@), "__binary_payload__"@), encoded) matches Ok(frame) ==> {
            let rest = without(fields(result@), "__binary_payload__"@);
            &&& get(rest, "transfer_id"@) matches Some(Tree::Text(t)) && transfer_id_of(t) matches Ok(name) && get(
                rest,
                "chunk_index"@,
            ) matches Some(Tree::Number(Num::Pos(n))) && base64_bytes(encoded) matches Ok(payload) && frame == frame_bytes(
                name,
                n as u32,
                payload,
            )
        },
{
}

/// What is answered to a refused request names it, and tells the error.
pub proof fn refusals_name_the_request(id: Seq<char>, error: Tree)
    ensures
        refusal(id, error) matches Tree::Object(o) && get(o, "id"@) == Some(Tree::Text(id)) && get(o, "ok"@) == Some(
            Tree::Bool(false),
        ) && get(o, "error"@) == Some(error) && get(o, "type"@) == Some(Tree::Text("response"@)) && get(o, "result"@) == Some(
            Tree::Null,
        ),
{
    broadcast use lemma_get_put;

    reveal_strlit("type");
    reveal_strlit("id");
    reveal_strlit("ok");
    reveal_strlit("result");
    reveal_strlit("error");
    assert("type"@.len() == 4 && "id"@.len() == 2 && "ok"@.len() == 2 && "result"@.len() == 6 && "error"@.len() == 5
        && "id"@[0] == 'i' && "ok"@[0] == 'o');
}

/// A job that runs in the background is told with its name, its operation and its machine.
pub proof fn running_jobs_are_told(payload: Fields, job_id: Seq<char>, op: Op, host: Seq<char>, random: u64)
    ensures
        get(running_result(job_id, op, host), "status"@) == Some(Tree::Text("running"@)),
        get(running_result(job_id, op, host), "job_id"@) == Some(Tree::Text(job_id)),
        get(running_result(job_id, op, host), "tool"@) == Some(Tree::Text(op_name(op))),
        get(running_result(job_id, op, host), "host"@) == Some(Tree::Text(host)),
        get(payload, "job_id"@) == Some(Tree::Text(job_id)) ==> job_id_of(payload, random) == job_id,
{
    broadcast use lemma_get_put;

    reveal_strlit("status");
    reveal_strlit("job_id");
    reveal_strlit("tool");
    reveal_strlit("host");
    assert("status"@.len() == 6 && "job_id"@.len() == 6 && "tool"@.len() == 4 && "host"@.len() == 4
        && "status"@[0] == 's' && "job_id"@[0] == 'j' && "tool"@[0] == 't' && "host"@[0] == 'h');
}

} // verus!
