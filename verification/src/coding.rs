//! Base64 and SHA-256, computed by the `base64` and `sha2` crates.

use crate::digits::{hex, hex_bytes};
use vstd::prelude::*;

verus! {

/// The bytes that standard Base64 text stands for, or what is wrong with it.
pub uninterp spec fn base64_bytes(text: Seq<char>) -> Result<Seq<u8>, Seq<char>>;

/// Bytes in standard Base64.
pub uninterp spec fn base64_text(bytes: Seq<u8>) -> Seq<char>;

/// Text that stands for `bytes`.
pub open spec fn sound(bytes: Seq<u8>) -> Result<Seq<u8>, Seq<char>> {
    Ok(bytes)
}

/// `base64::engine::general_purpose::STANDARD.decode`, the error by its `to_string`.
#[verifier::external_body]
pub(crate) fn decode_base64(text: &str) -> (r: Result<Vec<u8>, String>)
    ensures
        match r {
            Ok(bytes) => base64_bytes(text@) == Ok::<Seq<u8>, Seq<char>>(bytes@),
            Err(e) => base64_bytes(text@) == Err::<Seq<u8>, Seq<char>>(e@),
        },
{
    base64::Engine::decode(&base64::engine::general_purpose::STANDARD, text).map_err(|error| error.to_string())
}

/// `base64::engine::general_purpose::STANDARD.encode`; what it makes decodes to the
/// same bytes.
#[verifier::external_body]
pub(crate) fn encode_base64(bytes: &[u8]) -> (r: String)
    ensures
        r@ == base64_text(bytes@),
        base64_bytes(r@) == sound(bytes@),
{
    base64::Engine::encode(&base64::engine::general_purpose::STANDARD, bytes)
}

/// A SHA-256 computation of `sha2`, whose state is a type of that crate that has
/// no declaration here.
#[verifier::external_body]
pub struct Hasher {
    state: sha2::Sha256,
}

/// The bytes that a computation was fed.
pub uninterp spec fn absorbed(h: Hasher) -> Seq<u8>;

/// The SHA-256 digest of bytes.
pub uninterp spec fn sha256(bytes: Seq<u8>) -> Seq<u8>;

/// `sha2::Sha256::new`: nothing was fed yet.
#[verifier::external_body]
pub(crate) fn new_hasher() -> (r: Hasher)
    ensures
        absorbed(r) == Seq::<u8>::empty(),
{
    Hasher { state: sha2::Digest::new() }
}

/// `sha2::Digest::update`: the bytes are fed behind those before.
#[verifier::external_body]
pub(crate) fn feed(h: &mut Hasher, bytes: &[u8])
    ensures
        absorbed(*final(h)) == absorbed(*old(h)) + bytes@,
{
    sha2::Digest::update(&mut h.state, bytes)
}

/// `sha2::Digest::finalize` on a copy: the digest, of 32 bytes, of all that was fed.
#[verifier::external_body]
fn finish(h: &Hasher) -> (r: Vec<u8>)
    ensures
        r@ == sha256(absorbed(*h)),
        r@.len() == 32,
{
    sha2::Digest::finalize(h.state.clone()).to_vec()
}

/// The digest of all that a computation was fed, in hexadecimal.
pub fn hex_digest(h: &Hasher) -> (r: String)
    ensures
        r@ == hex(sha256(absorbed(*h))),
{
    hex_bytes(&finish(h))
}

/// The SHA-256 digest of `bytes` in hexadecimal.
pub fn sha256_hex(bytes: &[u8]) -> (r: String)
    ensures
        r@ == hex(sha256(bytes@)),
{
    let mut h = new_hasher();
    feed(&mut h, bytes);
    assert(Seq::<u8>::empty() + bytes@ =~= bytes@);
    hex_digest(&h)
}

} // verus!
