//! Who a host is to its hub.

use crate::agent::AuthToken;
use crate::json::{Json, Tree};
use crate::text::{
    cat2, cat3, cat4, chars_of, is_white, lemma_first_index, lemma_pieces_joined, pieces, split, trim, trimmed, views,
    white,
};
use crate::wire::{carried, printed_json, write_json};
use vstd::prelude::*;

verus! {

#[derive(Clone)]
pub struct Identity {
    pub host_id: String,
    pub token: AuthToken,
    pub hub: String,
}

/// The fields of an identity file as they were read; `null` counts as missing.
#[derive(Debug, PartialEq, Eq)]
pub struct RawIdentity {
    pub host_id: Option<Json>,
    pub token: Option<Json>,
    pub hub: Option<Json>,
}

/// Why there is no identity.
#[derive(Debug, PartialEq, Eq)]
pub enum IdentityError {
    Missing(String),
    Read { path: String, reason: String },
    Parse { path: String, reason: String },
    MissingField(&'static str),
    EmptyToken { path: String },
    NonAsciiToken { path: String },
    WhitespaceToken { path: String },
    MalformedToken { path: String },
}

impl IdentityError {
    pub open spec fn text(self) -> Seq<char> {
        match self {
            IdentityError::Missing(path) => "identity file not found at "@ + path@
                + " — run sentinelx-enroll to enroll this host"@,
            IdentityError::Read { path, reason } => "could not read "@ + path@ + ": "@ + reason@,
            IdentityError::Parse { path, reason } => "could not parse "@ + path@ + ": "@ + reason@,
            IdentityError::MissingField(name) => "identity file missing field: "@ + name@,
            IdentityError::EmptyToken { path } => "enrollment token in "@ + path@
                + " is empty — re-run enrollment for this host"@,
            IdentityError::NonAsciiToken { path } => "enrollment token in "@ + path@
                + " contains non-ASCII characters — re-run enrollment and paste the token exactly"@,
            IdentityError::WhitespaceToken { path } => "enrollment token in "@ + path@
                + " contains whitespace — copy the token as one unbroken string"@,
            IdentityError::MalformedToken { path } => "enrollment token in "@ + path@
                + " is not a well-formed token (expected three dot-separated parts)"@,
        }
    }

    pub fn message(&self) -> (r: String)
        ensures
            r@ == self.text(),
    {
        match self {
            IdentityError::Missing(path) => cat3(
                "identity file not found at ",
                path,
                " — run sentinelx-enroll to enroll this host",
            ),
            IdentityError::Read { path, reason } => cat4("could not read ", path, ": ", reason),
            IdentityError::Parse { path, reason } => cat4("could not parse ", path, ": ", reason),
            IdentityError::MissingField(name) => cat2("identity file missing field: ", name),
            IdentityError::EmptyToken { path } => cat3(
                "enrollment token in ",
                path,
                " is empty — re-run enrollment for this host",
            ),
            IdentityError::NonAsciiToken { path } => cat3(
                "enrollment token in ",
                path,
                " contains non-ASCII characters — re-run enrollment and paste the token exactly",
            ),
            IdentityError::WhitespaceToken { path } => cat3(
                "enrollment token in ",
                path,
                " contains whitespace — copy the token as one unbroken string",
            ),
            IdentityError::MalformedToken { path } => cat3(
                "enrollment token in ",
                path,
                " is not a well-formed token (expected three dot-separated parts)",
            ),
        }
    }
}

/// A text as it is, any other value as JSON.
pub open spec fn scalar_text(t: Tree) -> Seq<char> {
    match t {
        Tree::Text(s) => s,
        _ => printed_json(carried(t)),
    }
}

pub fn scalar_string(value: &Json) -> (r: String)
    ensures
        r@ == scalar_text(value@),
{
    match value {
        Json::Text(s) => s.clone(),
        other => write_json(other),
    }
}

pub open spec fn ascii(s: Seq<char>) -> bool {
    forall|i: int| 0 <= i < s.len() ==> (#[trigger] s[i] as u32) < 128
}

pub open spec fn has_white(s: Seq<char>) -> bool {
    exists|i: int| 0 <= i < s.len() && white(#[trigger] s[i])
}

/// Three parts with dots between them, none empty.
pub open spec fn three_parts(s: Seq<char>) -> bool {
    let p = pieces(s, '.');
    p.len() == 3 && p[0].len() > 0 && p[1].len() > 0 && p[2].len() > 0
}

/// A token that a hub can take, trimmed; or what is wrong with it.
pub fn validate_token(token: &str, path: &str) -> (r: Result<String, IdentityError>)
    ensures
        ({
            let t = trimmed(token@);
            match r {
                Ok(s) => s@ == t && t.len() > 0 && ascii(t) && !has_white(t) && three_parts(t),
                Err(IdentityError::EmptyToken { path: p }) => p@ == path@ && t.len() == 0,
                Err(IdentityError::NonAsciiToken { path: p }) => p@ == path@ && t.len() > 0 && !ascii(t),
                Err(IdentityError::WhitespaceToken { path: p }) => p@ == path@ && t.len() > 0 && ascii(t) && has_white(t),
                Err(IdentityError::MalformedToken { path: p }) => p@ == path@ && t.len() > 0 && ascii(t) && !has_white(t)
                    && !three_parts(t),
                _ => false,
            }
        }),
{
    let t = trim(token);
    let chars = chars_of(&t);
    if chars.len() == 0 {
        return Err(IdentityError::EmptyToken { path: path.to_owned() });
    }
    let mut plain = true;
    let mut spaced = false;
    let mut i: usize = 0;
    while i < chars.len()
        invariant
            i <= chars@.len(),
            plain == forall|j: int| 0 <= j < i ==> (#[trigger] chars@[j] as u32) < 128,
            spaced == exists|j: int| 0 <= j < i && white(#[trigger] chars@[j]),
        decreases chars@.len() - i,
    {
        if chars[i] as u32 >= 128 {
            plain = false;
        }
        if is_white(chars[i]) {
            spaced = true;
        }
        i = i + 1;
    }
    if !plain {
        return Err(IdentityError::NonAsciiToken { path: path.to_owned() });
    }
    if spaced {
        return Err(IdentityError::WhitespaceToken { path: path.to_owned() });
    }
    let parts = split(&t, '.');
    assert(forall|i: int| 0 <= i < parts@.len() ==> #[trigger] parts@[i]@ == views(parts@)[i]);
    if parts.len() == 3 && !parts[0].as_str().is_empty() && !parts[1].as_str().is_empty() && !parts[2].as_str().is_empty() {
        Ok(t)
    } else {
        Err(IdentityError::MalformedToken { path: path.to_owned() })
    }
}

/// The identity in a file that was read. Its fields are looked for in the order
/// host, token, hub; then the token is examined.
pub fn identity_from(raw: RawIdentity, path: &str) -> (r: Result<Identity, IdentityError>)
    ensures
        match (raw.host_id, raw.token, raw.hub) {
            (None, _, _) => r == Err::<Identity, IdentityError>(IdentityError::MissingField("host_id")),
            (Some(_), None, _) => r == Err::<Identity, IdentityError>(IdentityError::MissingField("token")),
            (Some(_), Some(_), None) => r == Err::<Identity, IdentityError>(IdentityError::MissingField("hub")),
            (Some(h), Some(k), Some(b)) => {
                let t = trimmed(scalar_text(k@));
                match r {
                    Ok(id) => id.host_id@ == trimmed(scalar_text(h@)) && id.hub@ == trimmed(scalar_text(b@)) && id.token@ == t
                        && t.len() > 0 && ascii(t) && !has_white(t) && three_parts(t),
                    Err(IdentityError::EmptyToken { path: p }) => p@ == path@ && t.len() == 0,
                    Err(IdentityError::NonAsciiToken { path: p }) => p@ == path@ && t.len() > 0 && !ascii(t),
                    Err(IdentityError::WhitespaceToken { path: p }) => p@ == path@ && t.len() > 0 && ascii(t) && has_white(t),
                    Err(IdentityError::MalformedToken { path: p }) => p@ == path@ && t.len() > 0 && ascii(t) && !has_white(t)
                        && !three_parts(t),
                    _ => false,
                }
            },
        },
{
    let host = match &raw.host_id {
        Some(h) => trim(&scalar_string(h)),
        None => return Err(IdentityError::MissingField("host_id")),
    };
    let token = match &raw.token {
        Some(k) => scalar_string(k),
        None => return Err(IdentityError::MissingField("token")),
    };
    let hub = match &raw.hub {
        Some(b) => trim(&scalar_string(b)),
        None => return Err(IdentityError::MissingField("hub")),
    };
    match validate_token(&token, path) {
        Ok(token) => Ok(Identity { host_id: host, token: AuthToken::new(token), hub }),
        Err(e) => Err(e),
    }
}

/// A token has three parts with dots between them: one that has is well formed.
pub proof fn tokens_have_three_parts(a: Seq<char>, b: Seq<char>, c: Seq<char>)
    requires
        !a.contains('.'),
        !b.contains('.'),
        !c.contains('.'),
    ensures
        three_parts(a + seq!['.'] + (b + seq!['.'] + c)) <==> a.len() > 0 && b.len() > 0 && c.len() > 0,
        !three_parts(a),
        !three_parts(a + seq!['.'] + b),
{
    lemma_one_piece(a);
    lemma_one_piece(b);
    lemma_one_piece(c);
    lemma_pieces_joined(b, c, '.');
    lemma_pieces_joined(a, b + seq!['.'] + c, '.');
    lemma_pieces_joined(a, b, '.');
    let p = pieces(a + seq!['.'] + (b + seq!['.'] + c), '.');
    assert(p =~= seq![a, b, c]);
}

proof fn lemma_one_piece(s: Seq<char>)
    requires
        !s.contains('.'),
    ensures
        pieces(s, '.') == seq![s],
{
    lemma_first_index(s, '.');
}

} // verus!
