//! How an operation fails: a code, a message and details.

use crate::json::{as_text, fields, get, no_fields, no_object, text_field, Fields, Object, Tree};
use crate::message::ResponseError;
use crate::text::{blank, cat3, is_blank};
use vstd::prelude::*;

verus! {

#[derive(Debug, PartialEq, Eq)]
pub struct HandlerError {
    pub code: String,
    pub message: String,
    pub details: Object,
}

/// What a `HandlerError` says.
pub struct Fault {
    pub code: Seq<char>,
    pub message: Seq<char>,
    pub details: Fields,
}

/// A failure without details.
pub open spec fn fault(code: Seq<char>, message: Seq<char>) -> Fault {
    Fault { code, message, details: no_fields() }
}

impl View for HandlerError {
    type V = Fault;

    open spec fn view(&self) -> Fault {
        Fault { code: self.code@, message: self.message@, details: fields(self.details@) }
    }
}

/// What an operation gives.
pub type HandlerResult = Result<Object, HandlerError>;

/// What a result says.
pub open spec fn outcome(r: HandlerResult) -> Result<Fields, Fault> {
    match r {
        Ok(o) => Ok(fields(o@)),
        Err(e) => Err(e@),
    }
}

impl HandlerError {
    pub fn new(code: &str, message: &str) -> (r: Self)
        ensures
            r@ == fault(code@, message@),
    {
        HandlerError { code: code.to_owned(), message: message.to_owned(), details: no_object() }
    }

    pub fn with_details(code: &str, message: &str, details: Object) -> (r: Self)
        ensures
            r@ == (Fault { code: code@, message: message@, details: fields(details@) }),
    {
        HandlerError { code: code.to_owned(), message: message.to_owned(), details }
    }

    /// The failure as a response carries it: details only where there are any.
    pub fn response_error(self) -> (r: ResponseError)
        ensures
            r.code@ == self@.code,
            r.message@ == self@.message,
            match r.details {
                Some(d) => fields(d@) == self@.details && d@.len() > 0,
                None => self@.details.len() == 0,
            },
    {
        let details = if self.details.len() == 0 {
            None
        } else {
            Some(self.details)
        };
        ResponseError { code: self.code, message: self.message, details }
    }
}

/// What is said of a text that a payload lacks.
pub open spec fn missing_text(key: Seq<char>) -> Fault {
    fault("invalid_payload"@, "missing or non-string '"@ + key + "'"@)
}

/// The text under `key`, where there is one that is not blank.
pub open spec fn required_text(payload: Fields, key: Seq<char>) -> Result<Seq<char>, Fault> {
    match as_text(get(payload, key)) {
        Some(s) => if blank(s) {
            Err(missing_text(key))
        } else {
            Ok(s)
        },
        None => Err(missing_text(key)),
    }
}

/// The text under `key` in `payload`; it must not be blank.
pub fn require_str<'a>(payload: &'a Object, key: &str) -> (r: Result<&'a str, HandlerError>)
    ensures
        match r {
            Ok(s) => required_text(fields(payload@), key@) == Ok::<Seq<char>, Fault>(s@),
            Err(e) => required_text(fields(payload@), key@) == Err::<Seq<char>, Fault>(e@),
        },
{
    match text_field(payload, key) {
        Some(s) => if is_blank(s) {
            Err(HandlerError::new("invalid_payload", &cat3("missing or non-string '", key, "'")))
        } else {
            Ok(s)
        },
        None => Err(HandlerError::new("invalid_payload", &cat3("missing or non-string '", key, "'"))),
    }
}

/// A text that is required is the one that was sent; where none was, or a blank one, that is
/// told.
pub proof fn required_texts_are_as_sent(payload: Fields, key: Seq<char>)
    ensures
        required_text(payload, key) matches Ok(s) ==> get(payload, key) == Some(Tree::Text(s)) && !blank(s),
        required_text(payload, key) matches Err(f) ==> f.code == "invalid_payload"@,
        get(payload, key) matches Some(Tree::Text(s)) && !blank(s) ==> required_text(payload, key) is Ok,
{
}

} // verus!
