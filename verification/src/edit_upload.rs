//! Edits whose texts are sent ahead of them.

use crate::agent::random_number;
use crate::digits::{padded, padded_text};
use crate::handler_error::{fault, require_str, required_text, Fault, HandlerError};
use crate::json::{
    as_text, copy_object, count, field, fields, get, lemma_get_put, no_fields, no_object, remove_field, set_field,
    string, text_field, without, Entries, Fields, Json, Num, Object, Tree,
};
use crate::paths::{file_name, file_name_of};
use crate::text::{byte_len, bytes_of, cat2, cat3, chars_of, opt_view, prefixed, same, starts_with};
use crate::upload::{bytes_view, decode_content, decoded};
use vstd::prelude::*;

verus! {

/// A character of a name for an upload.
pub open spec fn plain(c: char) -> bool {
    '0' <= c <= '9' || 'a' <= c <= 'z' || 'A' <= c <= 'Z' || c == '-' || c == '_'
}

/// A name for an upload of texts.
pub open spec fn id_ok(s: Seq<char>) -> bool {
    0 < bytes_of(s).len() <= 128 && forall|i: int| 0 <= i < s.len() ==> plain(#[trigger] s[i])
}

fn all_plain(s: &str) -> (r: bool)
    ensures
        r == forall|i: int| 0 <= i < s@.len() ==> plain(#[trigger] s@[i]),
{
    let chars = chars_of(s);
    let mut i: usize = 0;
    while i < chars.len()
        invariant
            i <= chars@.len(),
            chars@ == s@,
            forall|j: int| 0 <= j < i ==> plain(#[trigger] chars@[j]),
        decreases chars@.len() - i,
    {
        let c = chars[i];
        if !(('0' <= c && c <= '9') || ('a' <= c && c <= 'z') || ('A' <= c && c <= 'Z') || c == '-' || c == '_') {
            assert(!plain(s@[i as int]));
            return false;
        }
        i = i + 1;
    }
    true
}

/// The directory of an upload of texts.
pub open spec fn dir_name_of(upload_id: Seq<char>) -> Result<Seq<char>, Fault> {
    if id_ok(upload_id) {
        Ok("edit_"@ + upload_id)
    } else {
        Err(fault("invalid_payload"@, "invalid upload_id"@))
    }
}

/// The name of the directory of an upload of texts.
pub fn dir_name(upload_id: &str) -> (r: Result<String, HandlerError>)
    ensures
        (match r {
            Ok(s) => Ok(s@),
            Err(e) => Err(e@),
        }) == dir_name_of(upload_id@),
{
    let n = byte_len(upload_id);
    if n == 0 || n > 128 || !all_plain(upload_id) {
        return Err(HandlerError::new("invalid_payload", "invalid upload_id"));
    }
    Ok(cat2("edit_", upload_id))
}

/// A new name for an upload of texts: two random numbers. It is one that is accepted.
pub fn new_id() -> (r: String)
    ensures
        exists|a: u64, b: u64| r@ == #[trigger] padded(a as nat, 16, 16) + #[trigger] padded(b as nat, 16, 16),
        id_ok(r@),
{
    let a = random_number();
    let b = random_number();
    proof {
        crate::digits::lemma_padded_sixteen(a);
        crate::digits::lemma_padded_sixteen(b);
        let id = padded(a as nat, 16, 16) + padded(b as nat, 16, 16);
        assert forall|i: int| 0 <= i < id.len() implies plain(#[trigger] id[i]) by {
            if i < 16 {
                assert(id[i] == padded(a as nat, 16, 16)[i]);
            } else {
                assert(id[i] == padded(b as nat, 16, 16)[i - 16]);
            }
        }
        assert(vstd::utf8::is_ascii_chars(id)) by {
            assert forall|i: int| 0 <= i < id.len() implies (#[trigger] id[i] as u32) < 128 by {
                assert(plain(id[i]));
            }
        }
        vstd::utf8::is_ascii_chars_encode_utf8(id);
    }
    cat2(&padded_text(a, 16, 16), &padded_text(b, 16, 16))
}

/// What is answered to the beginning of an upload of texts.
pub fn init_result(upload_id: &str, dir: &str) -> (r: Object)
    ensures
        fields(r@) == no_fields().with("upload_id"@, Tree::Text(upload_id@)).with("upload_dir"@, Tree::Text(dir@)),
{
    let mut o = no_object();
    set_field(&mut o, "upload_id", string(upload_id));
    set_field(&mut o, "upload_dir", string(dir));
    o
}

/// A text that is sent ahead.
pub struct RoleFile {
    pub upload_id: String,
    pub role: String,
    pub data: Vec<u8>,
    pub filename: String,
}

/// The name that is shown of a text: the given one, unless it is hidden.
pub open spec fn shown_name(given: Option<Seq<char>>, role: Seq<char>) -> Seq<char> {
    let default = if role == "old"@ {
        "old.txt"@
    } else {
        "new.txt"@
    };
    match given {
        Some(s) => match file_name(s) {
            Some(n) => if prefixed(n, "."@) {
                default
            } else {
                n
            },
            None => default,
        },
        None => default,
    }
}

/// What is sent ahead.
pub open spec fn role_data(payload: Fields) -> Result<Seq<u8>, Fault> {
    match (get(payload, "content"@), get(payload, "content_base64"@)) {
        (Some(_), Some(_)) => Err(
            fault("invalid_payload"@, "provide exactly one of 'content' or 'content_base64'"@),
        ),
        (Some(Tree::Text(s)), None) => Ok(bytes_of(s)),
        (None, Some(Tree::Text(s))) => decoded(s),
        _ => Err(fault("invalid_payload"@, "missing 'content' or 'content_base64'"@)),
    }
}

pub open spec fn role_file_of(payload: Fields) -> Result<(Seq<char>, Seq<char>, Seq<u8>, Seq<char>), Fault> {
    match required_text(payload, "upload_id"@) {
        Err(f) => Err(f),
        Ok(upload_id) => match required_text(payload, "role"@) {
            Err(f) => Err(f),
            Ok(role) => if role != "old"@ && role != "new"@ {
                Err(fault("invalid_payload"@, "role must be 'old' or 'new'"@))
            } else {
                match role_data(payload) {
                    Err(f) => Err(f),
                    Ok(data) => Ok((upload_id, role, data, shown_name(as_text(get(payload, "filename"@)), role))),
                }
            },
        },
    }
}

fn read_data(payload: &Object) -> (r: Result<Vec<u8>, HandlerError>)
    ensures
        bytes_view(r) == role_data(fields(payload@)),
{
    match (field(payload, "content"), field(payload, "content_base64")) {
        (Some(_), Some(_)) => Err(
            HandlerError::new("invalid_payload", "provide exactly one of 'content' or 'content_base64'"),
        ),
        (Some(Json::Text(s)), None) => {
            let mut bytes: Vec<u8> = Vec::new();
            bytes.extend_from_slice(s.as_str().as_bytes());
            assert(bytes@ =~= bytes_of(s@));
            Ok(bytes)
        },
        (None, Some(Json::Text(s))) => decode_content(s),
        _ => Err(HandlerError::new("invalid_payload", "missing 'content' or 'content_base64'")),
    }
}

fn show_name(given: Option<&str>, role: &str) -> (r: String)
    ensures
        r@ == shown_name(
            match given {
                Some(s) => Some(s@),
                None => None,
            },
            role@,
        ),
{
    let default = if same(role, "old") {
        "old.txt"
    } else {
        "new.txt"
    };
    match given {
        Some(s) => match file_name_of(s) {
            Some(n) => if starts_with(&n, ".") {
                default.to_owned()
            } else {
                n
            },
            None => default.to_owned(),
        },
        None => default.to_owned(),
    }
}

/// The text that a request sends ahead.
pub fn role_file(payload: &Object) -> (r: Result<RoleFile, HandlerError>)
    ensures
        match r {
            Ok(f) => role_file_of(fields(payload@)) == Ok::<(Seq<char>, Seq<char>, Seq<u8>, Seq<char>), Fault>(
                (f.upload_id@, f.role@, f.data@, f.filename@),
            ),
            Err(e) => role_file_of(fields(payload@)) == Err::<(Seq<char>, Seq<char>, Seq<u8>, Seq<char>), Fault>(e@),
        },
{
    let upload_id = match require_str(payload, "upload_id") {
        Ok(s) => s,
        Err(e) => return Err(e),
    };
    let role = match require_str(payload, "role") {
        Ok(s) => s,
        Err(e) => return Err(e),
    };
    if !same(role, "old") && !same(role, "new") {
        return Err(HandlerError::new("invalid_payload", "role must be 'old' or 'new'"));
    }
    let data = match read_data(payload) {
        Ok(b) => b,
        Err(e) => return Err(e),
    };
    let filename = show_name(text_field(payload, "filename"), role);
    Ok(RoleFile { upload_id: upload_id.to_owned(), role: role.to_owned(), data, filename })
}

/// What is answered to a text that is sent ahead.
pub fn file_result(file: &RoleFile, path: &str) -> (r: Object)
    ensures
        fields(r@) == file_fields(file.upload_id@, file.role@, file.filename@, file.data@.len(), path@),
{
    let mut o = no_object();
    set_field(&mut o, "upload_id", string(&file.upload_id));
    set_field(&mut o, "role", string(&file.role));
    set_field(&mut o, "filename", string(&file.filename));
    set_field(&mut o, "size_bytes", count(file.data.len() as u64));
    set_field(&mut o, "path", string(path));
    o
}

/// A mode that takes a new text.
pub open spec fn needs_new(mode: Seq<char>) -> bool {
    crate::edit::modes().contains(mode)
}

/// A mode that takes an old text.
pub open spec fn needs_old(mode: Seq<char>) -> bool {
    mode == "replace"@ || mode == "replace-block"@
}

/// The name of the upload that a request completes, where its texts are there.
pub open spec fn complete_of(payload: Fields) -> Result<(Seq<char>, Seq<char>), Fault> {
    match required_text(payload, "upload_id"@) {
        Err(f) => Err(f),
        Ok(upload_id) => match required_text(payload, "mode"@) {
            Err(f) => Err(f),
            Ok(mode) => match required_text(payload, "path"@) {
                Err(f) => Err(f),
                Ok(_) => Ok((upload_id, mode)),
            },
        },
    }
}

/// The name of the upload that a request completes, and the mode of the edit.
pub fn complete_start(payload: &Object) -> (r: Result<(String, String), HandlerError>)
    ensures
        (match r {
            Ok((id, mode)) => Ok((id@, mode@)),
            Err(e) => Err(e@),
        }) == complete_of(fields(payload@)),
{
    let upload_id = match require_str(payload, "upload_id") {
        Ok(s) => s,
        Err(e) => return Err(e),
    };
    let mode = match require_str(payload, "mode") {
        Ok(s) => s,
        Err(e) => return Err(e),
    };
    match require_str(payload, "path") {
        Ok(_) => Ok((upload_id.to_owned(), mode.to_owned())),
        Err(e) => Err(e),
    }
}

/// What is missing for an edit.
pub open spec fn missing_role(mode: Seq<char>, has_old: bool, has_new: bool) -> Option<Fault> {
    if needs_new(mode) && !has_new {
        Some(fault("missing_role_file"@, "mode="@ + mode + " requires the 'new' role file"@))
    } else if needs_old(mode) && !has_old {
        Some(fault("missing_role_file"@, "mode="@ + mode + " requires the 'old' role file"@))
    } else {
        None
    }
}

/// Whether the texts are there that an edit of this mode needs.
pub fn check_roles(mode: &str, has_old: bool, has_new: bool) -> (r: Result<(), HandlerError>)
    ensures
        match r {
            Ok(_) => missing_role(mode@, has_old, has_new) is None,
            Err(e) => missing_role(mode@, has_old, has_new) == Some(e@),
        },
{
    let modes: Vec<&'static str> = vec!["replace", "regex", "replace-block", "append", "prepend", "write"];
    assert(crate::text::str_views(modes@) =~= crate::edit::modes());
    if crate::text::among(mode, &modes) && !has_new {
        return Err(HandlerError::new("missing_role_file", &cat3("mode=", mode, " requires the 'new' role file")));
    }
    if (same(mode, "replace") || same(mode, "replace-block")) && !has_old {
        return Err(HandlerError::new("missing_role_file", &cat3("mode=", mode, " requires the 'old' role file")));
    }
    Ok(())
}

/// The edit that comes of the request and the texts that were sent ahead.
pub open spec fn edit_payload_of(payload: Fields, old_text: Option<Seq<char>>, new_text: Option<Seq<char>>) -> Fields {
    let o = without(payload, "upload_id"@);
    let o = match old_text {
        Some(s) => o.with("old"@, Tree::Text(s)),
        None => o,
    };
    match new_text {
        Some(s) => o.with("new_text"@, Tree::Text(s)),
        None => o,
    }
}

/// The edit that comes of a request and the texts that were sent ahead of it.
pub fn edit_payload(payload: &Object, old_text: Option<String>, new_text: Option<String>) -> (r: Object)
    ensures
        fields(r@) == edit_payload_of(fields(payload@), opt_view(old_text), opt_view(new_text)),
{
    let mut o = copy_object(payload);
    remove_field(&mut o, "upload_id");
    if let Some(s) = old_text {
        set_field(&mut o, "old", Json::Text(s));
    }
    if let Some(s) = new_text {
        set_field(&mut o, "new_text", Json::Text(s));
    }
    o
}

/// The texts that were sent ahead are those of the edit, whatever the request that
/// completes it holds itself.
pub proof fn sent_texts_are_edited_in(payload: Fields, old_text: Option<Seq<char>>, new_text: Seq<char>)
    ensures
        get(edit_payload_of(payload, old_text, Some(new_text)), "new_text"@) == Some(Tree::Text(new_text)),
        old_text matches Some(s) ==> get(edit_payload_of(payload, old_text, Some(new_text)), "old"@) == Some(Tree::Text(s)),
{
    reveal_strlit("old");
    reveal_strlit("new_text");
    assert("old"@.len() == 3 && "new_text"@.len() == 8);
    let o = without(payload, "upload_id"@);
    match old_text {
        Some(s) => {
            let p = o.with("old"@, Tree::Text(s));
            crate::json::put_then_get(o, "old"@, Tree::Text(s), "old"@);
            crate::json::put_then_get(p, "new_text"@, Tree::Text(new_text), "old"@);
        },
        None => {
            crate::json::put_then_get(o, "new_text"@, Tree::Text(new_text), "new_text"@);
        },
    }
}

/// What is answered to a file that was sent ahead of an edit.
pub open spec fn file_fields(id: Seq<char>, role: Seq<char>, filename: Seq<char>, size: nat, path: Seq<char>) -> Fields {
    no_fields().with("upload_id"@, Tree::Text(id)).with("role"@, Tree::Text(role)).with("filename"@, Tree::Text(filename)).with(
        "size_bytes"@,
        Tree::Number(Num::Pos(size as u64)),
    ).with("path"@, Tree::Text(path))
}

/// What is answered to a file that was sent ahead of an edit names its edit and its role.
pub proof fn sent_files_are_told(id: Seq<char>, role: Seq<char>, filename: Seq<char>, size: u32, path: Seq<char>)
    ensures
        get(file_fields(id, role, filename, size as nat, path), "upload_id"@) == Some(Tree::Text(id)),
        get(file_fields(id, role, filename, size as nat, path), "role"@) == Some(Tree::Text(role)),
        get(file_fields(id, role, filename, size as nat, path), "filename"@) == Some(Tree::Text(filename)),
        get(file_fields(id, role, filename, size as nat, path), "size_bytes"@) == Some(Tree::Number(Num::Pos(size as u64))),
        get(file_fields(id, role, filename, size as nat, path), "path"@) == Some(Tree::Text(path)),
{
    broadcast use lemma_get_put;

    reveal_strlit("upload_id");
    reveal_strlit("role");
    reveal_strlit("filename");
    reveal_strlit("size_bytes");
    reveal_strlit("path");
    assert("upload_id"@.len() == 9 && "role"@.len() == 4 && "filename"@.len() == 8 && "size_bytes"@.len() == 10
        && "path"@.len() == 4 && "role"@[0] == 'r' && "path"@[0] == 'p');
}

/// A file that is sent ahead of an edit holds the old or the new text, as it was sent: as
/// text or encoded, but not both.
pub proof fn sent_files_are_as_sent(payload: Fields)
    ensures
        role_file_of(payload) matches Ok((id, role, data, name)) ==> {
            &&& get(payload, "upload_id"@) == Some(Tree::Text(id))
            &&& get(payload, "role"@) == Some(Tree::Text(role))
            &&& role == "old"@ || role == "new"@
            &&& get(payload, "content"@) matches Some(Tree::Text(t)) ==> data == bytes_of(t)
            &&& get(payload, "content"@) is None ==> (get(payload, "content_base64"@) matches Some(Tree::Text(t))
                && crate::coding::base64_bytes(t) == Ok::<Seq<u8>, Seq<char>>(data))
            &&& get(payload, "content"@) is None || get(payload, "content_base64"@) is None
        },
{
}

/// An edit by files is made only where those that its mode needs were sent.
pub proof fn missing_files_are_told(mode: Seq<char>)
    requires
        crate::edit::modes().contains(mode),
    ensures
        missing_role(mode, true, true) is None,
        missing_role(mode, true, false) matches Some(f) && f.code == "missing_role_file"@,
        mode == "replace"@ || mode == "replace-block"@ ==> (missing_role(mode, false, true) matches Some(f) && f.code
            == "missing_role_file"@),
        mode != "replace"@ && mode != "replace-block"@ ==> missing_role(mode, false, true) is None,
{
}

/// What was sent ahead takes the place of the texts of the edit, and everything else that
/// was asked for stays.
pub proof fn sent_texts_are_put_in(payload: Fields, old_text: Seq<char>, new_text: Seq<char>, key: Seq<char>)
    requires
        key != "upload_id"@,
        key != "old"@,
        key != "new_text"@,
    ensures
        get(edit_payload_of(payload, Some(old_text), Some(new_text)), "old"@) == Some(Tree::Text(old_text)),
        get(edit_payload_of(payload, Some(old_text), Some(new_text)), "new_text"@) == Some(Tree::Text(new_text)),
        get(edit_payload_of(payload, Some(old_text), Some(new_text)), key) == get(without(payload, "upload_id"@), key),
{
    broadcast use lemma_get_put;

    reveal_strlit("old");
    reveal_strlit("new_text");
    reveal_strlit("upload_id");
    assert("old"@.len() == 3 && "new_text"@.len() == 8 && "upload_id"@.len() == 9);
}

/// A file that is sent ahead goes by the last part of the name that it was given, unless that
/// is hidden.
pub proof fn names_are_shown(given: Seq<char>, role: Seq<char>)
    ensures
        file_name(given) matches Some(n) ==> (n.len() > 0 && n[0] != '.' ==> shown_name(Some(given), role) == n),
        shown_name(None, "old"@) == "old.txt"@,
        shown_name(None, "new"@) == "new.txt"@,
        file_name(given) is None ==> shown_name(Some(given), "new"@) == "new.txt"@,
{
    reveal_strlit("old");
    reveal_strlit("new");
    reveal_strlit(".");
    assert("old"@[0] != "new"@[0]);
    if let Some(n) = file_name(given) {
        if n.len() > 0 && n[0] != '.' {
            if prefixed(n, "."@) {
                assert(n.take(1)[0] == "."@[0]);
            }
        }
    }
}

} // verus!
