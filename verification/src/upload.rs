//! Uploads: where a file may land, how its parts are kept and put together, and
//! what is answered.

use crate::agent::random_number;
use crate::ascii::{drop_leading, lower_char, lowered, to_lower, without_leading};
use crate::coding::{absorbed, base64_bytes, decode_base64, feed, hex_digest, new_hasher, sha256, Hasher};
use crate::digits::{decimal, decimal_text, digit_char, hex, padded, padded_text};
use crate::handler_error::{fault, require_str, required_text, Fault, HandlerError};
use crate::json::{
    as_count, as_flag, as_integer, as_text, copy, count, count_field, field, fields, get, integer, integer_field,
    integer_num, lemma_get_put, no_fields, no_object, read_flag, set_field, string, text_field, text_or_null, Entries,
    Fields, Json, Num, Object, Tree,
};
use crate::order::{less, sort, sorted};
use crate::paths::{climbs, extension, extension_of, has_parent_part, is_under, under};
use crate::policy::{resolved, Policy, Resolution};
use crate::text::{
    blank, byte_len, bytes_of, cat2, cat3, cat4, chars_of, is_blank, opt_view, same, trim, trimmed, views, white,
};
use vstd::prelude::*;

verus! {

/// The largest file that is taken, in bytes.
pub const MAX_UPLOAD_BYTES: u64 = 10_737_418_240;

/// An upload that is under way.
#[derive(Debug, PartialEq, Eq)]
pub struct UploadMeta {
    pub upload_id: String,
    pub target_path: String,
    pub landed_in_place: bool,
    pub overwrite: bool,
    pub total_size: u64,
    pub filename: Option<String>,
}

/// A hexadecimal digit.
pub open spec fn hex_digit(c: char) -> bool {
    '0' <= c <= '9' || 'a' <= c <= 'f' || 'A' <= c <= 'F'
}

/// Hexadecimal digits and nothing else.
pub open spec fn all_hex(s: Seq<char>) -> bool {
    forall|i: int| 0 <= i < s.len() ==> hex_digit(#[trigger] s[i])
}

/// Whether a text has hexadecimal digits and nothing else.
pub fn is_all_hex(s: &str) -> (r: bool)
    ensures
        r == all_hex(s@),
{
    let chars = chars_of(s);
    let mut i: usize = 0;
    while i < chars.len()
        invariant
            i <= chars@.len(),
            chars@ == s@,
            forall|j: int| 0 <= j < i ==> hex_digit(#[trigger] chars@[j]),
        decreases chars@.len() - i,
    {
        let c = chars[i];
        if !(('0' <= c && c <= '9') || ('a' <= c && c <= 'f') || ('A' <= c && c <= 'F')) {
            assert(!hex_digit(s@[i as int]));
            return false;
        }
        i = i + 1;
    }
    true
}

/// The name of an upload that is accepted.
pub open spec fn upload_id_ok(s: Seq<char>) -> bool {
    16 <= bytes_of(s).len() <= 64 && all_hex(s)
}

pub open spec fn bad_upload_id() -> Fault {
    fault("invalid_payload"@, "upload_id, when provided, must be a 16-64 char hex string"@)
}

/// The name of an upload: the given one in lower case, or one made of two random
/// numbers.
pub open spec fn upload_id_of(value: Option<Tree>, a: u64, b: u64) -> Result<Seq<char>, Fault> {
    match value {
        None | Some(Tree::Null) => Ok(padded(a as nat, 16, 16) + padded(b as nat, 16, 16)),
        Some(Tree::Text(s)) => if upload_id_ok(s) {
            Ok(lowered(s))
        } else {
            Err(bad_upload_id())
        },
        _ => Err(bad_upload_id()),
    }
}

pub open spec fn opt_tree(v: Option<&Json>) -> Option<Tree> {
    match v {
        Some(v) => Some(v@),
        None => None,
    }
}

pub open spec fn id_view(r: Result<String, HandlerError>) -> Result<Seq<char>, Fault> {
    match r {
        Ok(s) => Ok(s@),
        Err(e) => Err(e@),
    }
}

/// The name of an upload, given two random numbers.
pub fn upload_id_from(value: Option<&Json>, a: u64, b: u64) -> (r: Result<String, HandlerError>)
    ensures
        id_view(r) == upload_id_of(opt_tree(value), a, b),
{
    match value {
        None | Some(Json::Null) => Ok(cat2(&padded_text(a, 16, 16), &padded_text(b, 16, 16))),
        Some(Json::Text(s)) => {
            let n = byte_len(s);
            if 16 <= n && n <= 64 && is_all_hex(s) {
                Ok(to_lower(s))
            } else {
                Err(
                    HandlerError::new(
                        "invalid_payload",
                        "upload_id, when provided, must be a 16-64 char hex string",
                    ),
                )
            }
        },
        Some(_) => Err(
            HandlerError::new("invalid_payload", "upload_id, when provided, must be a 16-64 char hex string"),
        ),
    }
}

/// The name of an upload: the given one, or a random one.
pub fn valid_upload_id(value: Option<&Json>) -> (r: Result<String, HandlerError>)
    ensures
        exists|a: u64, b: u64|
            id_view(r) == #[trigger] upload_id_of(opt_tree(value), a, b),
{
    let a = random_number();
    let b = random_number();
    upload_id_from(value, a, b)
}

/// The name of a given upload.
pub open spec fn known_id(s: Seq<char>) -> Result<Seq<char>, Fault> {
    if upload_id_ok(s) {
        Ok(lowered(s))
    } else {
        Err(bad_upload_id())
    }
}

/// The name of an upload that a request or a frame gives.
pub fn known_upload_id(id: &str) -> (r: Result<String, HandlerError>)
    ensures
        id_view(r) == known_id(id@),
{
    let value = string(id);
    upload_id_from(Some(&value), 0, 0)
}

/// A target below the directory for uploads: a leading slash is dropped.
pub open spec fn relative_target_of(target: Seq<char>) -> Result<Seq<char>, Fault> {
    let rest = without_leading(trimmed(target), '/');
    if blank(target) {
        Err(fault("invalid_payload"@, "missing 'target_path'"@))
    } else if rest.len() == 0 || climbs(rest) {
        Err(
            fault(
                "path_traversal"@,
                "target_path must remain under upload_base and must not contain '..'"@,
            ),
        )
    } else {
        Ok(rest)
    }
}

/// The target of an upload below the directory for uploads.
pub fn relative_target(target: &str) -> (r: Result<String, HandlerError>)
    ensures
        id_view(r) == relative_target_of(target@),
{
    if is_blank(target) {
        return Err(HandlerError::new("invalid_payload", "missing 'target_path'"));
    }
    let rest = drop_leading(&trim(target), '/');
    if rest.as_str().is_empty() || has_parent_part(&rest) {
        return Err(
            HandlerError::new(
                "path_traversal",
                "target_path must remain under upload_base and must not contain '..'",
            ),
        );
    }
    Ok(rest)
}

/// Whether a target still lies in the directory for uploads, once the file system
/// has resolved both.
pub fn check_dest(base: &str, dest: &str) -> (r: Result<(), HandlerError>)
    ensures
        match r {
            Ok(_) => under(dest@, base@),
            Err(e) => !under(dest@, base@) && e@ == fault(
                "path_traversal"@,
                "target_path resolves outside upload_base"@,
            ),
        },
{
    if is_under(dest, base) {
        Ok(())
    } else {
        Err(HandlerError::new("path_traversal", "target_path resolves outside upload_base"))
    }
}

/// A file that is in the way.
pub fn conflict(dest: &str) -> (r: HandlerError)
    ensures
        r@ == fault("conflict"@, "a file already exists at "@ + dest@),
{
    HandlerError::new("conflict", &cat2("a file already exists at ", dest))
}

/// Whether a file may be put where one may already be.
pub fn check_free(dest: &str, present: bool, overwrite: bool) -> (r: Result<(), HandlerError>)
    ensures
        match r {
            Ok(_) => !present || overwrite,
            Err(e) => present && !overwrite && e@ == fault("conflict"@, "a file already exists at "@ + dest@),
        },
{
    if present && !overwrite {
        Err(conflict(dest))
    } else {
        Ok(())
    }
}

/// A whole upload: its target, whether it replaces a file, and its encoded content
/// or its URL.
pub struct SinglePlan {
    pub target: String,
    pub overwrite: bool,
    pub content: Option<String>,
    pub file_url: Option<String>,
}

pub open spec fn single_of(payload: Fields) -> Result<(Seq<char>, bool, Option<Seq<char>>, Option<Seq<char>>), Fault> {
    match required_text(payload, "target_path"@) {
        Err(f) => Err(f),
        Ok(target) => {
            let content = as_text(get(payload, "content_base64"@));
            let file_url = as_text(get(payload, "file_url"@));
            if (content is Some) == (file_url is Some) {
                Err(fault("invalid_payload"@, "provide exactly one of 'content_base64' or 'file_url'"@))
            } else {
                Ok((target, as_flag(get(payload, "overwrite"@)) == Some(true), content, file_url))
            }
        },
    }
}

fn owned(s: Option<&str>) -> (r: Option<String>)
    ensures
        opt_view(r) == match s {
            Some(t) => Some(t@),
            None => None,
        },
{
    match s {
        Some(t) => Some(t.to_owned()),
        None => None,
    }
}

/// What a request to upload a whole file asks for.
pub fn single_plan(payload: &Object) -> (r: Result<SinglePlan, HandlerError>)
    ensures
        match r {
            Ok(p) => single_of(fields(payload@)) == Ok::<(Seq<char>, bool, Option<Seq<char>>, Option<Seq<char>>), Fault>(
                (p.target@, p.overwrite, opt_view(p.content), opt_view(p.file_url)),
            ),
            Err(e) => single_of(fields(payload@)) == Err::<(Seq<char>, bool, Option<Seq<char>>, Option<Seq<char>>), Fault>(
                e@,
            ),
        },
{
    let target = match require_str(payload, "target_path") {
        Ok(t) => t,
        Err(e) => return Err(e),
    };
    let content = owned(text_field(payload, "content_base64"));
    let file_url = owned(text_field(payload, "file_url"));
    if content.is_some() == file_url.is_some() {
        return Err(
            HandlerError::new("invalid_payload", "provide exactly one of 'content_base64' or 'file_url'"),
        );
    }
    Ok(SinglePlan { target: target.to_owned(), overwrite: read_flag(payload, "overwrite"), content, file_url })
}

/// What encoded content holds.
pub open spec fn decoded(encoded: Seq<char>) -> Result<Seq<u8>, Fault> {
    match base64_bytes(encoded) {
        Ok(b) => Ok(b),
        Err(e) => Err(fault("invalid_payload"@, "bad base64: "@ + e)),
    }
}

pub open spec fn bytes_view(r: Result<Vec<u8>, HandlerError>) -> Result<Seq<u8>, Fault> {
    match r {
        Ok(b) => Ok(b@),
        Err(e) => Err(e@),
    }
}

/// The bytes that encoded content holds.
pub fn decode_content(encoded: &str) -> (r: Result<Vec<u8>, HandlerError>)
    ensures
        bytes_view(r) == decoded(encoded@),
{
    match decode_base64(encoded) {
        Ok(b) => Ok(b),
        Err(e) => Err(HandlerError::new("invalid_payload", &cat2("bad base64: ", &e))),
    }
}

/// Content that is not too large.
pub open spec fn within_cap(bytes: Seq<u8>) -> Result<Seq<u8>, Fault> {
    if bytes.len() > MAX_UPLOAD_BYTES {
        Err(fault("file_too_large"@, "decoded file exceeds upload cap"@))
    } else {
        Ok(bytes)
    }
}

/// The bytes of a whole file, where they are not too many.
pub fn single_content(encoded: &str) -> (r: Result<Vec<u8>, HandlerError>)
    ensures
        bytes_view(r) == match decoded(encoded@) {
            Ok(b) => within_cap(b),
            Err(f) => Err(f),
        },
{
    let bytes = match decode_content(encoded) {
        Ok(b) => b,
        Err(e) => return Err(e),
    };
    if bytes.len() as u64 > MAX_UPLOAD_BYTES {
        return Err(HandlerError::new("file_too_large", "decoded file exceeds upload cap"));
    }
    Ok(bytes)
}

/// The name under which a whole upload is kept until it is complete.
pub fn single_name(random: u64) -> (r: String)
    ensures
        r@ == "single-"@ + padded(random as nat, 16, 16) + ".upload"@,
{
    cat3("single-", &padded_text(random, 16, 16), ".upload")
}

/// What is answered to a whole upload.
pub fn single_result(payload: &Object, dest: &str, size: u64, digest: &str) -> (r: Object)
    ensures
        fields(r@) == single_fields(fields(payload@), dest@, size, digest@),
{
    let filename = match field(payload, "filename") {
        Some(v) => copy(v),
        None => Json::Null,
    };
    let mut o = no_object();
    set_field(&mut o, "ok", Json::Bool(true));
    set_field(&mut o, "mode", string("single"));
    set_field(&mut o, "target_path", string(dest));
    set_field(&mut o, "size", count(size));
    set_field(&mut o, "sha256", string(digest));
    set_field(&mut o, "filename", filename);
    o
}

/// Bytes as they come in: how many there were, and their digest.
pub struct Intake {
    pub size: u64,
    pub hasher: Hasher,
}

impl Intake {
    /// All that came in.
    pub open spec fn taken(self) -> Seq<u8> {
        absorbed(self.hasher)
    }

    pub open spec fn sound(self) -> bool {
        self.size == self.taken().len() && self.size <= MAX_UPLOAD_BYTES
    }

    pub fn new() -> (r: Self)
        ensures
            r.sound(),
            r.taken() == Seq::<u8>::empty(),
    {
        Intake { size: 0, hasher: new_hasher() }
    }

    /// Takes in the next bytes; nothing where that would be too many.
    pub fn take_bytes(&mut self, bytes: &[u8]) -> (r: bool)
        requires
            old(self).sound(),
        ensures
            final(self).sound(),
            r == (old(self).taken().len() + bytes@.len() <= MAX_UPLOAD_BYTES),
            final(self).taken() == if r {
                old(self).taken() + bytes@
            } else {
                old(self).taken()
            },
    {
        if bytes.len() as u64 > MAX_UPLOAD_BYTES - self.size {
            return false;
        }
        self.size = self.size + bytes.len() as u64;
        feed(&mut self.hasher, bytes);
        true
    }

    /// The digest of all that came in.
    pub fn digest(&self) -> (r: String)
        ensures
            r@ == hex(sha256(self.taken())),
    {
        hex_digest(&self.hasher)
    }
}

/// A fetched file that is too large.
pub fn fetch_too_large() -> (r: HandlerError)
    ensures
        r@ == fault(
            "file_too_large"@,
            "file exceeds upload cap of "@ + decimal(MAX_UPLOAD_BYTES as nat) + " bytes"@,
        ),
{
    HandlerError::new(
        "file_too_large",
        &cat3("file exceeds upload cap of ", &decimal_text(MAX_UPLOAD_BYTES), " bytes"),
    )
}

/// Parts that are too large together.
pub fn parts_too_large() -> (r: HandlerError)
    ensures
        r@ == fault("file_too_large"@, "reassembled upload exceeds cap"@),
{
    HandlerError::new("file_too_large", "reassembled upload exceeds cap")
}

/// An upload in parts that is to begin.
pub struct UploadStart {
    pub target: String,
    pub overwrite: bool,
    pub total_size: u64,
    /// Where the upload lands directly, where the request asks for that and the
    /// policy lets it.
    pub in_place: Option<String>,
}

pub open spec fn upload_start_of(policy: Policy, payload: Fields, seen: Resolution) -> Result<
    (Seq<char>, bool, u64, Option<Seq<char>>),
    Fault,
> {
    match required_text(payload, "target_path"@) {
        Err(f) => Err(f),
        Ok(target) => {
            let total_size = match as_count(get(payload, "total_size"@)) {
                Some(n) => n,
                None => 0u64,
            };
            if total_size > MAX_UPLOAD_BYTES {
                Err(
                    fault(
                        "file_too_large"@,
                        "declared total_size exceeds upload cap of "@ + decimal(MAX_UPLOAD_BYTES as nat) + " bytes"@,
                    ),
                )
            } else {
                Ok(
                    (
                        target,
                        as_flag(get(payload, "overwrite"@)) == Some(true),
                        total_size,
                        if as_flag(get(payload, "land_in_place"@)) == Some(true) {
                            resolved(policy, target, true, seen)
                        } else {
                            None
                        },
                    ),
                )
            }
        },
    }
}

/// What a request to begin an upload in parts asks for. `seen` is what the file
/// system says of the target.
pub fn upload_start(policy: &Policy, payload: &Object, seen: &Resolution) -> (r: Result<UploadStart, HandlerError>)
    ensures
        match r {
            Ok(s) => upload_start_of(*policy, fields(payload@), *seen) == Ok::<
                (Seq<char>, bool, u64, Option<Seq<char>>),
                Fault,
            >((s.target@, s.overwrite, s.total_size, opt_view(s.in_place))),
            Err(e) => upload_start_of(*policy, fields(payload@), *seen) == Err::<
                (Seq<char>, bool, u64, Option<Seq<char>>),
                Fault,
            >(e@),
        },
{
    let target = match require_str(payload, "target_path") {
        Ok(t) => t,
        Err(e) => return Err(e),
    };
    let total_size = match count_field(payload, "total_size") {
        Some(n) => n,
        None => 0,
    };
    if total_size > MAX_UPLOAD_BYTES {
        return Err(
            HandlerError::new(
                "file_too_large",
                &cat3(
                    "declared total_size exceeds upload cap of ",
                    &decimal_text(MAX_UPLOAD_BYTES),
                    " bytes",
                ),
            ),
        );
    }
    let in_place = if read_flag(payload, "land_in_place") {
        policy.resolve_path(target, true, seen)
    } else {
        None
    };
    Ok(UploadStart { target: target.to_owned(), overwrite: read_flag(payload, "overwrite"), total_size, in_place })
}

/// What is kept of an upload while it is under way.
pub fn upload_meta(payload: &Object, start: &UploadStart, upload_id: &str, dest: &str) -> (r: UploadMeta)
    ensures
        r.upload_id@ == upload_id@,
        r.target_path@ == dest@,
        r.landed_in_place == start.in_place is Some,
        r.overwrite == start.overwrite,
        r.total_size == start.total_size,
        opt_view(r.filename) == as_text(get(fields(payload@), "filename"@)),
{
    UploadMeta {
        upload_id: upload_id.to_owned(),
        target_path: dest.to_owned(),
        landed_in_place: start.in_place.is_some(),
        overwrite: start.overwrite,
        total_size: start.total_size,
        filename: owned(text_field(payload, "filename")),
    }
}

/// What is answered to the beginning of an upload in parts.
pub fn init_result(meta: &UploadMeta) -> (r: Object)
    ensures
        fields(r@) == init_fields(meta.upload_id@, meta.target_path@, meta.total_size),
{
    let mut o = no_object();
    set_field(&mut o, "ok", Json::Bool(true));
    set_field(&mut o, "mode", string("chunked"));
    set_field(&mut o, "upload_id", string(&meta.upload_id));
    set_field(&mut o, "target_path", string(&meta.target_path));
    set_field(&mut o, "total_size", count(meta.total_size));
    o
}

pub open spec fn part_name_of(index: u32) -> Seq<char> {
    padded(index as nat, 10, 8) + ".part"@
}

/// The name of the file that holds a part.
pub fn part_name(index: u32) -> (r: String)
    ensures
        r@ == part_name_of(index),
{
    cat2(&padded_text(index as u64, 10, 8), ".part")
}

/// An upload that is not known.
pub fn upload_not_found(id: &str) -> (r: HandlerError)
    ensures
        r@ == fault("not_found"@, "upload_id not found: "@ + id@),
{
    HandlerError::new("not_found", &cat2("upload_id not found: ", id))
}

/// A part of an upload in a request.
pub struct ChunkPlan {
    pub id: String,
    pub index: i64,
    pub bytes: Vec<u8>,
}

pub open spec fn chunk_of(payload: Fields) -> Result<(Seq<char>, i64, Seq<u8>), Fault> {
    match required_text(payload, "upload_id"@) {
        Err(f) => Err(f),
        Ok(id) => match as_integer(get(payload, "index"@)) {
            None => Err(fault("invalid_payload"@, "index must be int"@)),
            Some(index) => if index < 0 {
                Err(fault("invalid_payload"@, "index must be >= 0"@))
            } else {
                match required_text(payload, "content_base64"@) {
                    Err(f) => Err(f),
                    Ok(encoded) => match decoded(encoded) {
                        Err(f) => Err(f),
                        Ok(bytes) => Ok((id, index, bytes)),
                    },
                }
            },
        },
    }
}

/// The part of an upload that a request carries.
pub fn chunk_plan(payload: &Object) -> (r: Result<ChunkPlan, HandlerError>)
    ensures
        match r {
            Ok(p) => chunk_of(fields(payload@)) == Ok::<(Seq<char>, i64, Seq<u8>), Fault>((p.id@, p.index, p.bytes@))
                && p.index >= 0,
            Err(e) => chunk_of(fields(payload@)) == Err::<(Seq<char>, i64, Seq<u8>), Fault>(e@),
        },
{
    let id = match require_str(payload, "upload_id") {
        Ok(s) => s,
        Err(e) => return Err(e),
    };
    let index = match integer_field(payload, "index") {
        Some(n) => n,
        None => return Err(HandlerError::new("invalid_payload", "index must be int")),
    };
    if index < 0 {
        return Err(HandlerError::new("invalid_payload", "index must be >= 0"));
    }
    let encoded = match require_str(payload, "content_base64") {
        Ok(s) => s,
        Err(e) => return Err(e),
    };
    match decode_content(encoded) {
        Ok(bytes) => Ok(ChunkPlan { id: id.to_owned(), index, bytes }),
        Err(e) => Err(e),
    }
}

/// The number under which a part is kept: the lower half of its index.
pub fn part_number(index: i64) -> (r: u32)
    requires
        index >= 0,
    ensures
        r == index as int % 4_294_967_296,
{
    (index % 4_294_967_296) as u32
}

/// What is answered to a part.
pub fn chunk_result(plan: &ChunkPlan) -> (r: Object)
    ensures
        fields(r@) == chunk_fields(plan.id@, plan.index, plan.bytes@.len()),
{
    let mut o = no_object();
    set_field(&mut o, "ok", Json::Bool(true));
    set_field(&mut o, "upload_id", string(&plan.id));
    set_field(&mut o, "index", integer(plan.index));
    set_field(&mut o, "chunk_size", count(plan.bytes.len() as u64));
    o
}

/// The names of parts among those in a directory.
pub open spec fn parts_among(names: Seq<Seq<char>>) -> Seq<Seq<char>>
    decreases names.len(),
{
    if names.len() == 0 {
        Seq::empty()
    } else if extension(names.last()) == Some("part"@) {
        parts_among(names.drop_last()).push(names.last())
    } else {
        parts_among(names.drop_last())
    }
}

/// The parts of an upload in their order, by the names in its directory.
pub fn part_files(names: &Vec<String>) -> (r: Result<Vec<String>, HandlerError>)
    ensures
        match r {
            Ok(list) => views(list@) == sorted(parts_among(views(names@))) && parts_among(views(names@)).len() > 0,
            Err(e) => parts_among(views(names@)).len() == 0 && e@ == fault("invalid_state"@, "no chunks uploaded"@),
        },
{
    let ghost all = views(names@);
    let mut parts: Vec<String> = Vec::new();
    let mut i: usize = 0;
    assert(views(parts@) =~= parts_among(all.take(0)));
    while i < names.len()
        invariant
            i <= names@.len(),
            all == views(names@),
            views(parts@) == parts_among(all.take(i as int)),
        decreases names@.len() - i,
    {
        assert(all.take(i + 1).drop_last() =~= all.take(i as int));
        assert(all.take(i + 1).last() == names@[i as int]@);
        let ghost before = views(parts@);
        let wanted = match extension_of(&names[i]) {
            Some(e) => same(&e, "part"),
            None => false,
        };
        if wanted {
            parts.push(names[i].clone());
            assert(views(parts@) =~= before.push(all[i as int]));
        }
        i = i + 1;
    }
    assert(all.take(i as int) =~= all);
    assert(views(parts@).len() == parts@.len());
    if parts.len() == 0 {
        return Err(HandlerError::new("invalid_state", "no chunks uploaded"));
    }
    Ok(sort(parts))
}

/// What is wrong with a complete upload.
pub open spec fn complete_fault(payload: Fields, declared: u64, total: u64, digest: Seq<char>) -> Option<Fault> {
    if declared != 0 && declared != total {
        Some(fault("size_mismatch"@, "expected "@ + decimal(declared as nat) + ", got "@ + decimal(total as nat)))
    } else {
        match as_text(get(payload, "sha256"@)) {
            None => None,
            Some(given) => {
                let expected = lowered(trimmed(given));
                if bytes_of(expected).len() != 64 || !all_hex(expected) {
                    Some(fault("invalid_sha256"@, "expected a 64-character hexadecimal SHA-256 digest"@))
                } else if expected != digest {
                    Some(
                        fault(
                            "checksum_mismatch"@,
                            "sha256 mismatch: assembled="@ + digest + ", expected="@ + expected,
                        ),
                    )
                } else {
                    None
                }
            },
        }
    }
}

/// Checks a complete upload against its declared size and digest.
pub fn check_complete(payload: &Object, declared: u64, total: u64, digest: &str) -> (r: Result<(), HandlerError>)
    ensures
        match r {
            Ok(_) => complete_fault(fields(payload@), declared, total, digest@) is None,
            Err(e) => complete_fault(fields(payload@), declared, total, digest@) == Some(e@),
        },
{
    if declared != 0 && declared != total {
        return Err(
            HandlerError::new(
                "size_mismatch",
                &cat4("expected ", &decimal_text(declared), ", got ", &decimal_text(total)),
            ),
        );
    }
    if let Some(given) = text_field(payload, "sha256") {
        let expected = to_lower(&trim(given));
        if byte_len(&expected) != 64 || !is_all_hex(&expected) {
            return Err(
                HandlerError::new("invalid_sha256", "expected a 64-character hexadecimal SHA-256 digest"),
            );
        }
        if !same(&expected, digest) {
            return Err(
                HandlerError::new(
                    "checksum_mismatch",
                    &cat4("sha256 mismatch: assembled=", digest, ", expected=", &expected),
                ),
            );
        }
    }
    Ok(())
}

/// What is answered to a complete upload.
pub fn complete_result(id: &str, meta: &UploadMeta, total: u64, digest: &str) -> (r: Object)
    ensures
        fields(r@) == complete_fields(id@, meta.target_path@, total, digest@, opt_view(meta.filename)),
{
    let filename = match &meta.filename {
        Some(n) => string(n),
        None => Json::Null,
    };
    let mut o = no_object();
    set_field(&mut o, "ok", Json::Bool(true));
    set_field(&mut o, "mode", string("chunked"));
    set_field(&mut o, "upload_id", string(id));
    set_field(&mut o, "target_path", string(&meta.target_path));
    set_field(&mut o, "size", count(total));
    set_field(&mut o, "sha256", string(digest));
    set_field(&mut o, "filename", filename);
    o
}

/// The name of an upload names one entry of a directory: it has only digits of
/// lower case, so neither a separator nor a dot.
pub proof fn upload_ids_are_plain_names(s: Seq<char>)
    ensures
        known_id(s) matches Ok(id) ==> forall|i: int|
            0 <= i < id.len() ==> ('0' <= #[trigger] id[i] <= '9' || 'a' <= id[i] <= 'f'),
{
    if upload_id_ok(s) {
        let id = lowered(s);
        assert forall|i: int| 0 <= i < id.len() implies ('0' <= #[trigger] id[i] <= '9' || 'a' <= id[i] <= 'f') by {
            assert(hex_digit(s[i]));
        }
    }
}

/// The name that an upload is begun with is the name under which it goes on.
pub proof fn begun_uploads_go_on(value: Option<Tree>, a: u64, b: u64)
    ensures
        upload_id_of(value, a, b) matches Ok(id) ==> known_id(id) == Ok::<Seq<char>, Fault>(id),
{
    if let Ok(id) = upload_id_of(value, a, b) {
        assert(id.len() == bytes_of(id).len() && 16 <= id.len() <= 64 && all_hex(id) && lowered(id) =~= id) by {
            if let Some(Tree::Text(s)) = value {
                assert(vstd::utf8::is_ascii_chars(s)) by {
                    assert forall|i: int| 0 <= i < s.len() implies (#[trigger] s[i] as u32) < 128 by {
                        assert(hex_digit(s[i]));
                    }
                }
                vstd::utf8::is_ascii_chars_encode_utf8(s);
                assert forall|i: int| 0 <= i < id.len() implies hex_digit(#[trigger] id[i]) by {
                    assert(hex_digit(s[i]));
                }
            } else {
                crate::digits::lemma_padded_sixteen(a);
                crate::digits::lemma_padded_sixteen(b);
                assert forall|i: int| 0 <= i < id.len() implies hex_digit(#[trigger] id[i]) && lower_char(id[i]) == id[i] by {
                    if i < 16 {
                        assert(id[i] == padded(a as nat, 16, 16)[i]);
                    } else {
                        assert(id[i] == padded(b as nat, 16, 16)[i - 16]);
                    }
                }
            }
            assert(vstd::utf8::is_ascii_chars(id)) by {
                assert forall|i: int| 0 <= i < id.len() implies (#[trigger] id[i] as u32) < 128 by {
                    assert(hex_digit(id[i]));
                }
            }
            vstd::utf8::is_ascii_chars_encode_utf8(id);
        }
    }
}

/// What may land below the directory for uploads never climbs out of it by its
/// name.
pub proof fn targets_do_not_climb(target: Seq<char>)
    ensures
        relative_target_of(target) matches Ok(rest) ==> !climbs(rest),
{
}

/// An upload lands outside the directory for uploads only where the request asks for
/// it and the policy opens the path for writing.
pub proof fn landings_are_writable(policy: Policy, payload: Fields, seen: Resolution)
    ensures
        upload_start_of(policy, payload, seen) matches Ok((target, _, _, Some(path))) ==> as_flag(
            get(payload, "land_in_place"@),
        ) == Some(true) && resolved(policy, target, true, seen) == Some(path),
{
}

/// A complete upload that was declared with a size and a digest has both.
pub proof fn complete_uploads_are_as_declared(payload: Fields, declared: u64, total: u64, digest: Seq<char>)
    requires
        complete_fault(payload, declared, total, digest) is None,
    ensures
        declared != 0 ==> total == declared,
        as_text(get(payload, "sha256"@)) matches Some(given) ==> lowered(trimmed(given)) == digest,
{
}

spec fn ten_to(w: nat) -> nat
    decreases w,
{
    if w == 0 {
        1
    } else {
        10 * ten_to((w - 1) as nat)
    }
}

proof fn lemma_numeral_fits(n: nat, w: nat)
    requires
        n < ten_to(w),
        w >= 1,
    ensures
        crate::digits::numeral(n, 10).len() <= w,
    decreases w,
{
    if n >= 10 {
        assert(w >= 2) by {
            reveal_with_fuel(ten_to, 2);
        }
        lemma_numeral_fits(n / 10, (w - 1) as nat);
    }
}

proof fn lemma_padded_step(n: nat, w: nat)
    requires
        n < ten_to(w),
        w >= 2,
    ensures
        padded(n, 10, w) == padded(n / 10, 10, (w - 1) as nat).push(digit_char((n % 10) as int)),
        padded(n, 10, w).len() == w,
{
    lemma_numeral_fits(n, w);
    lemma_numeral_fits(n / 10, (w - 1) as nat);
    let shorter = padded(n / 10, 10, (w - 1) as nat);
    if n >= 10 {
        assert(crate::digits::numeral(n, 10) == crate::digits::numeral(n / 10, 10).push(digit_char((n % 10) as int)));
        assert(padded(n, 10, w) =~= shorter.push(digit_char((n % 10) as int)));
    } else {
        assert(n / 10 == 0);
        assert(shorter =~= Seq::new((w - 1) as nat, |i: int| '0'));
        assert(padded(n, 10, w) =~= shorter.push(digit_char((n % 10) as int)));
    }
}

proof fn lemma_less_behind(a: Seq<char>, b: Seq<char>, x: Seq<char>, y: Seq<char>)
    requires
        a.len() == b.len(),
        less(a, b),
    ensures
        less(a + x, b + y),
    decreases a.len(),
{
    if a.len() > 0 {
        assert((a + x)[0] == a[0] && (b + y)[0] == b[0]);
        if a[0] == b[0] {
            lemma_less_behind(a.drop_first(), b.drop_first(), x, y);
            assert((a + x).drop_first() =~= a.drop_first() + x);
            assert((b + y).drop_first() =~= b.drop_first() + y);
        }
    }
}

proof fn lemma_less_at_end(p: Seq<char>, x: char, y: char)
    requires
        x < y,
    ensures
        less(p.push(x), p.push(y)),
    decreases p.len(),
{
    if p.len() > 0 {
        lemma_less_at_end(p.drop_first(), x, y);
        assert(p.push(x).drop_first() =~= p.drop_first().push(x));
        assert(p.push(y).drop_first() =~= p.drop_first().push(y));
    }
}

proof fn lemma_padded_order(i: nat, j: nat, w: nat)
    requires
        i < j < ten_to(w),
        w >= 1,
    ensures
        less(padded(i, 10, w), padded(j, 10, w)),
        padded(i, 10, w).len() == w,
        padded(j, 10, w).len() == w,
    decreases w,
{
    if w == 1 {
        assert(ten_to(0) == 1);
        assert(padded(i, 10, 1) =~= Seq::<char>::empty().push(digit_char(i as int)));
        assert(padded(j, 10, 1) =~= Seq::<char>::empty().push(digit_char(j as int)));
        lemma_less_at_end(Seq::empty(), digit_char(i as int), digit_char(j as int));
    } else {
        lemma_padded_step(i, w);
        lemma_padded_step(j, w);
        let v = (w - 1) as nat;
        let x = digit_char((i % 10) as int);
        let y = digit_char((j % 10) as int);
        if i / 10 < j / 10 {
            lemma_padded_order(i / 10, j / 10, v);
            lemma_less_behind(padded(i / 10, 10, v), padded(j / 10, 10, v), seq![x], seq![y]);
            assert(padded(i / 10, 10, v) + seq![x] =~= padded(i, 10, w));
            assert(padded(j / 10, 10, v) + seq![y] =~= padded(j, 10, w));
        } else {
            assert(i / 10 == j / 10 && i % 10 < j % 10);
            lemma_less_at_end(padded(i / 10, 10, v), x, y);
        }
    }
}

/// Parts are put together in the order of their numbers: the names of their files,
/// up to the hundred-millionth, are in that order.
pub proof fn parts_come_in_order(i: u32, j: u32)
    requires
        i < j < 100_000_000,
    ensures
        less(part_name_of(i), part_name_of(j)),
{
    reveal_with_fuel(ten_to, 9);
    lemma_padded_order(i as nat, j as nat, 8);
    lemma_less_behind(padded(i as nat, 10, 8), padded(j as nat, 10, 8), ".part"@, ".part"@);
}

/// What is answered to an upload in one piece.
pub open spec fn single_fields(payload: Fields, dest: Seq<char>, size: u64, digest: Seq<char>) -> Fields {
    no_fields().with("ok"@, Tree::Bool(true)).with("mode"@, Tree::Text("single"@)).with("target_path"@, Tree::Text(dest)).with(
        "size"@,
        Tree::Number(Num::Pos(size)),
    ).with("sha256"@, Tree::Text(digest)).with(
        "filename"@,
        match get(payload, "filename"@) {
            Some(v) => v,
            None => Tree::Null,
        },
    )
}

/// What is answered to the beginning of an upload.
pub open spec fn init_fields(id: Seq<char>, dest: Seq<char>, total_size: u64) -> Fields {
    no_fields().with("ok"@, Tree::Bool(true)).with("mode"@, Tree::Text("chunked"@)).with("upload_id"@, Tree::Text(id)).with(
        "target_path"@,
        Tree::Text(dest),
    ).with("total_size"@, Tree::Number(Num::Pos(total_size)))
}

/// What is answered to a chunk of an upload.
pub open spec fn chunk_fields(id: Seq<char>, index: i64, size: nat) -> Fields {
    no_fields().with("ok"@, Tree::Bool(true)).with("upload_id"@, Tree::Text(id)).with(
        "index"@,
        Tree::Number(integer_num(index)),
    ).with("chunk_size"@, Tree::Number(Num::Pos(size as u64)))
}

/// What is answered to the end of an upload.
pub open spec fn complete_fields(
    id: Seq<char>,
    dest: Seq<char>,
    total: u64,
    digest: Seq<char>,
    filename: Option<Seq<char>>,
) -> Fields {
    no_fields().with("ok"@, Tree::Bool(true)).with("mode"@, Tree::Text("chunked"@)).with("upload_id"@, Tree::Text(id)).with(
        "target_path"@,
        Tree::Text(dest),
    ).with("size"@, Tree::Number(Num::Pos(total))).with("sha256"@, Tree::Text(digest)).with(
        "filename"@,
        text_or_null(filename),
    )
}

/// What is answered to an upload names it and where it landed, with its size and digest.
pub proof fn uploads_are_told(
    payload: Fields,
    id: Seq<char>,
    dest: Seq<char>,
    size: u64,
    digest: Seq<char>,
    index: u32,
    length: u32,
)
    ensures
        get(single_fields(payload, dest, size, digest), "ok"@) == Some(Tree::Bool(true)),
        get(single_fields(payload, dest, size, digest), "target_path"@) == Some(Tree::Text(dest)),
        get(single_fields(payload, dest, size, digest), "size"@) == Some(Tree::Number(Num::Pos(size))),
        get(single_fields(payload, dest, size, digest), "sha256"@) == Some(Tree::Text(digest)),
        get(init_fields(id, dest, size), "ok"@) == Some(Tree::Bool(true)),
        get(init_fields(id, dest, size), "upload_id"@) == Some(Tree::Text(id)),
        get(init_fields(id, dest, size), "target_path"@) == Some(Tree::Text(dest)),
        get(init_fields(id, dest, size), "total_size"@) == Some(Tree::Number(Num::Pos(size))),
        get(chunk_fields(id, index as i64, length as nat), "ok"@) == Some(Tree::Bool(true)),
        get(chunk_fields(id, index as i64, length as nat), "upload_id"@) == Some(Tree::Text(id)),
        get(chunk_fields(id, index as i64, length as nat), "index"@) == Some(Tree::Number(Num::Pos(index as u64))),
        get(chunk_fields(id, index as i64, length as nat), "chunk_size"@) == Some(Tree::Number(Num::Pos(length as u64))),
        get(complete_fields(id, dest, size, digest, None), "ok"@) == Some(Tree::Bool(true)),
        get(complete_fields(id, dest, size, digest, None), "upload_id"@) == Some(Tree::Text(id)),
        get(complete_fields(id, dest, size, digest, None), "target_path"@) == Some(Tree::Text(dest)),
        get(complete_fields(id, dest, size, digest, None), "size"@) == Some(Tree::Number(Num::Pos(size))),
        get(complete_fields(id, dest, size, digest, None), "sha256"@) == Some(Tree::Text(digest)),
{
    broadcast use lemma_get_put;

    reveal_strlit("ok");
    reveal_strlit("mode");
    reveal_strlit("target_path");
    reveal_strlit("size");
    reveal_strlit("sha256");
    reveal_strlit("filename");
    reveal_strlit("upload_id");
    reveal_strlit("total_size");
    reveal_strlit("index");
    reveal_strlit("chunk_size");
    assert("ok"@.len() == 2 && "mode"@.len() == 4 && "target_path"@.len() == 11 && "size"@.len() == 4
        && "sha256"@.len() == 6 && "filename"@.len() == 8 && "upload_id"@.len() == 9 && "total_size"@.len() == 10
        && "index"@.len() == 5 && "chunk_size"@.len() == 10 && "mode"@[0] == 'm' && "size"@[0] == 's'
        && "total_size"@[0] == 't' && "chunk_size"@[0] == 'c');
}

/// An upload in one piece is of the contents or of the address that was sent, of one of
/// them, to the target that was named, and over another file only where that was said.
pub proof fn single_uploads_are_as_asked_for(payload: Fields)
    ensures
        single_of(payload) matches Ok((target, overwrite, content, url)) ==> {
            &&& get(payload, "target_path"@) == Some(Tree::Text(target))
            &&& overwrite <==> get(payload, "overwrite"@) == Some(Tree::Bool(true))
            &&& content matches Some(c) ==> get(payload, "content_base64"@) == Some(Tree::Text(c)) && url is None
            &&& url matches Some(u) ==> get(payload, "file_url"@) == Some(Tree::Text(u)) && content is None
            &&& content is Some || url is Some
        },
        (get(payload, "content_base64"@) matches Some(Tree::Text(_))) && (get(payload, "file_url"@) matches Some(
            Tree::Text(_),
        )) ==> single_of(payload) is Err,
{
}

/// An upload is begun for the target and the size that were declared, and is refused where
/// that is too large.
pub proof fn begun_uploads_are_as_asked_for(policy: Policy, payload: Fields, seen: Resolution)
    ensures
        upload_start_of(policy, payload, seen) matches Ok((target, overwrite, total, landing)) ==> {
            &&& get(payload, "target_path"@) == Some(Tree::Text(target))
            &&& overwrite <==> get(payload, "overwrite"@) == Some(Tree::Bool(true))
            &&& get(payload, "total_size"@) matches Some(Tree::Number(Num::Pos(n))) ==> total == n
            &&& get(payload, "total_size"@) is None ==> total == 0
            &&& total <= 10_737_418_240
            &&& get(payload, "land_in_place"@) == Some(Tree::Bool(true)) ==> landing == resolved(policy, target, true, seen)
            &&& get(payload, "land_in_place"@) is None ==> landing is None
        },
        (get(payload, "total_size"@) matches Some(Tree::Number(Num::Pos(n))) && n > 10_737_418_240) ==> upload_start_of(
            policy,
            payload,
            seen,
        ) is Err,
{
}

/// A chunk goes to the upload and the place that were named, as it was sent.
pub proof fn chunks_are_as_sent(payload: Fields)
    ensures
        chunk_of(payload) matches Ok((id, index, bytes)) ==> {
            &&& get(payload, "upload_id"@) == Some(Tree::Text(id))
            &&& index >= 0
            &&& get(payload, "index"@) matches Some(Tree::Number(Num::Pos(n))) ==> index == n
            &&& get(payload, "content_base64"@) matches Some(Tree::Text(encoded)) && base64_bytes(encoded) == Ok::<
                Seq<u8>,
                Seq<char>,
            >(bytes)
        },
{
}

/// A complete upload is taken exactly where its size and its digest are those that were
/// declared; each kind of mismatch is told.
pub proof fn mismatched_uploads_are_refused(payload: Fields, declared: u64, total: u64, digest: Seq<char>)
    ensures
        declared != 0 && declared != total ==> (complete_fault(payload, declared, total, digest) matches Some(f) && f.code
            == "size_mismatch"@),
        (declared == 0 || declared == total) && get(payload, "sha256"@) is None ==> complete_fault(
            payload,
            declared,
            total,
            digest,
        ) is None,
        (declared == 0 || declared == total) ==> (get(payload, "sha256"@) matches Some(Tree::Text(given)) ==> {
            let d = lowered(trimmed(given));
            &&& bytes_of(d).len() == 64 && all_hex(d) && d != digest ==> (complete_fault(payload, declared, total, digest)
                matches Some(f) && f.code == "checksum_mismatch"@)
            &&& bytes_of(d).len() == 64 && all_hex(d) && d == digest ==> complete_fault(payload, declared, total, digest) is None
            &&& bytes_of(d).len() != 64 ==> (complete_fault(payload, declared, total, digest) matches Some(f) && f.code
                == "invalid_sha256"@)
        }),
{
}

/// The parts of an upload are the files that are named as such, and no others.
pub proof fn parts_are_known_by_their_names(names: Seq<Seq<char>>, name: Seq<char>)
    ensures
        parts_among(names).contains(name) <==> names.contains(name) && extension(name) == Some("part"@),
    decreases names.len(),
{
    if names.len() > 0 {
        let front = names.drop_last();
        parts_are_known_by_their_names(front, name);
        let all = parts_among(names);
        let some = parts_among(front);
        if all.contains(name) {
            let i = choose|i: int| 0 <= i < all.len() && all[i] == name;
            if i < some.len() {
                assert(some[i] == name);
                let j = choose|j: int| 0 <= j < front.len() && front[j] == name;
                assert(names[j] == name);
            } else {
                assert(names[names.len() - 1] == name);
            }
        }
        if names.contains(name) && extension(name) == Some("part"@) {
            let j = choose|j: int| 0 <= j < names.len() && names[j] == name;
            if j < front.len() {
                assert(front[j] == name);
                let i = choose|i: int| 0 <= i < some.len() && some[i] == name;
                assert(all[i] == name);
            } else {
                assert(all[all.len() - 1] == name);
            }
        }
    }
}

/// A target lies below the directory for uploads, under the name that was sent without the
/// slashes before it; one that climbs, or that is empty, is refused.
pub proof fn targets_are_relative(rest: Seq<char>)
    requires
        rest.len() > 0,
        !white(rest[0]),
        !white(rest.last()),
        rest[0] != '/',
    ensures
        !climbs(rest) ==> relative_target_of(rest) == Ok::<Seq<char>, Fault>(rest) && relative_target_of(seq!['/'] + rest)
            == Ok::<Seq<char>, Fault>(rest),
        climbs(rest) ==> (relative_target_of(rest) matches Err(f) && f.code == "path_traversal"@),
{
    let s = seq!['/'] + rest;
    assert(trimmed(rest) == rest);
    assert(s.last() == rest.last() && s[0] == '/');
    assert(trimmed(s) == s);
    assert(s.drop_first() =~= rest);
    reveal_with_fuel(without_leading, 3);
}

} // verus!
