//! Whether a hub takes the enrollment, found out by connecting once.

use crate::digits::{decimal, decimal_text};
use crate::json::{as_text, get, group_json_views, text_field, Json, Tree};
use crate::text::{cat2, cat3};
use vstd::prelude::*;

verus! {

#[derive(Debug, Clone, PartialEq, Eq)]
pub struct PreflightResult {
    pub ok: bool,
    pub reason: String,
    pub detail: String,
}

/// How long the connection may take, in seconds.
pub const CONNECT_SECS: u64 = 15;

/// How long the hub has for an objection, in seconds.
pub const OBJECTION_SECS: u64 = 6;

/// What happens on the way.
pub enum Contact {
    InvalidUrl(String),
    InvalidToken(String),
    ConnectTimedOut,
    Unreachable(String),
    /// The hub answered with a status other than that of a WebSocket.
    Status(String),
    Failed(String),
    /// Connected, and no objection came.
    Silence,
    Ended,
    Broken(String),
    /// A text came; the value where it is JSON.
    Text(Option<Json>),
    Close(Option<(u16, String)>),
    Other,
}

/// The reason and the detail of a refusal; nothing where the hub takes the enrollment.
pub open spec fn objection(c: Contact) -> Option<(Seq<char>, Seq<char>)> {
    match c {
        Contact::InvalidUrl(e) => Some(("invalid_hub_url"@, e@)),
        Contact::InvalidToken(e) => Some(("invalid_token_header"@, e@)),
        Contact::ConnectTimedOut => Some(("unreachable"@, "connection timed out"@)),
        Contact::Unreachable(e) => Some(("unreachable"@, e@)),
        Contact::Status(s) => Some(("rejected_by_hub"@, "HTTP "@ + s@)),
        Contact::Failed(e) => Some(("error"@, e@)),
        Contact::Silence => None,
        Contact::Ended => Some(("closed"@, "hub closed before hello"@)),
        Contact::Broken(e) => Some(("closed"@, e@)),
        Contact::Text(Some(v)) => {
            let o = match v@ {
                Tree::Object(o) => o,
                _ => crate::json::no_fields(),
            };
            Some(
                (
                    match as_text(get(o, "code"@)) {
                        Some(code) => code,
                        None => "rejected"@,
                    },
                    match as_text(get(o, "message"@)) {
                        Some(m) => m,
                        None => ""@,
                    },
                ),
            )
        },
        Contact::Text(None) | Contact::Other => Some(("rejected"@, "hub sent data before hello"@)),
        Contact::Close(None) => Some(("closed"@, ""@)),
        Contact::Close(Some((code, reason))) => Some(("closed"@, decimal(code as nat) + ": "@ + reason@)),
    }
}

impl PreflightResult {
    pub fn accepted() -> (r: Self)
        ensures
            r.ok,
            r.reason@ == "accepted"@,
            r.detail@ == ""@,
    {
        PreflightResult { ok: true, reason: "accepted".to_owned(), detail: "".to_owned() }
    }

    pub fn failed(reason: &str, detail: &str) -> (r: Self)
        ensures
            !r.ok,
            r.reason@ == reason@,
            r.detail@ == detail@,
    {
        PreflightResult { ok: false, reason: reason.to_owned(), detail: detail.to_owned() }
    }

    /// What a contact tells of the enrollment.
    pub fn of(contact: Contact) -> (r: Self)
        ensures
            match objection(contact) {
                None => r.ok && r.reason@ == "accepted"@ && r.detail@ == ""@,
                Some((reason, detail)) => !r.ok && r.reason@ == reason && r.detail@ == detail,
            },
    {
        broadcast use group_json_views;

        match contact {
            Contact::InvalidUrl(e) => PreflightResult::failed("invalid_hub_url", &e),
            Contact::InvalidToken(e) => PreflightResult::failed("invalid_token_header", &e),
            Contact::ConnectTimedOut => PreflightResult::failed("unreachable", "connection timed out"),
            Contact::Unreachable(e) => PreflightResult::failed("unreachable", &e),
            Contact::Status(s) => PreflightResult::failed("rejected_by_hub", &cat2("HTTP ", &s)),
            Contact::Failed(e) => PreflightResult::failed("error", &e),
            Contact::Silence => PreflightResult::accepted(),
            Contact::Ended => PreflightResult::failed("closed", "hub closed before hello"),
            Contact::Broken(e) => PreflightResult::failed("closed", &e),
            Contact::Text(Some(v)) => {
                let o = crate::json::into_object(v);
                let code = match text_field(&o, "code") {
                    Some(code) => code,
                    None => "rejected",
                };
                let message = match text_field(&o, "message") {
                    Some(m) => m,
                    None => "",
                };
                PreflightResult::failed(code, message)
            },
            Contact::Text(None) | Contact::Other => PreflightResult::failed("rejected", "hub sent data before hello"),
            Contact::Close(None) => PreflightResult::failed("closed", ""),
            Contact::Close(Some((code, reason))) => PreflightResult::failed(
                "closed",
                &cat3(&decimal_text(code as u64), ": ", &reason),
            ),
        }
    }
}

/// A hub is taken to accept the agent where it is silent, and only there.
pub proof fn silence_is_acceptance(c: Contact)
    ensures
        objection(c) is None <==> c is Silence,
{
}

/// An objection of the hub is told as the hub words it.
pub proof fn objections_are_told(c: Contact)
    ensures
        c matches Contact::Text(Some(v)) ==> (v@ matches Tree::Object(o) ==> (get(o, "code"@) matches Some(Tree::Text(code))
            ==> (get(o, "message"@) matches Some(Tree::Text(message)) ==> objection(c) == Some((code, message))))),
        c matches Contact::Close(Some((code, reason))) ==> objection(c) == Some(
            ("closed"@, decimal(code as nat) + ": "@ + reason@),
        ),
        c matches Contact::Status(s) ==> (objection(c) matches Some((reason, detail)) && reason == "rejected_by_hub"@ && detail
            == "HTTP "@ + s@),
{
}

} // verus!
