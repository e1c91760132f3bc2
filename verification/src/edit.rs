//! Edits of text files: what a request asks for, the text that comes of it, how it
//! is checked before it is put in place, and what is answered.

use crate::capabilities::{list_paths, path_names};
use crate::digits::{decimal, decimal_text, numeral, numeral_text, numerals_are_read_back, padded, padded_text, parsed};
use crate::handler_error::{fault, require_str, required_text, Fault, HandlerError};
use crate::json::{
    as_count, as_flag, as_integer, as_text, count, count_field, fields, flag_field, get, has_field, integer_field,
    lemma_get_put, no_fields, no_object, set_field, string, strings, text_field, text_list, Entries, Fields, Json, Num,
    Number, Object, Tree,
};
use crate::order::{join, joined};
use crate::paths::{file_name, file_name_of, parent, parent_of};
use crate::patterns::{
    find_all, regex_fault, regex_replaced, regex_spans, replace_matches, replaced_spans, replaces_spans, span_views,
    spans_fit, spliced, spliced_bytes_keep_their_ends,
};
use crate::policy::{resolved, Policy, Resolution};
use crate::text::{
    among, bytes_of, cat2, cat3, cat4, cat5, chars_of, contained, find_from, first_match, first_texts_are_replaced,
    interleave, interleaved, occurrences, occurs, opt_view, prefixed, replace, replace_some, replaced, replaced_some,
    replaced_text_is_between_parts, same, slice_text, some_occurrences, str_views, suffixed, views,
};
use vstd::prelude::*;

verus! {

pub open spec fn modes() -> Seq<Seq<char>> {
    seq!["replace"@, "regex"@, "replace-block"@, "append"@, "prepend"@, "write"@]
}

pub open spec fn presets() -> Seq<Seq<char>> {
    seq!["nginx"@, "json"@, "python"@, "sh"@, "yaml"@, "systemd"@, "toml"@]
}

pub open spec fn bad(message: Seq<char>) -> Fault {
    fault("invalid_payload"@, message)
}

fn refuse(message: &str) -> (r: HandlerError)
    ensures
        r@ == bad(message@),
{
    HandlerError::new("invalid_payload", message)
}

/// A text that is there and not empty.
pub open spec fn has_text(payload: Fields, key: Seq<char>) -> bool {
    as_text(get(payload, key)) matches Some(s) && s.len() > 0
}

fn holds_text(payload: &Object, key: &str) -> (r: bool)
    ensures
        r == has_text(fields(payload@), key@),
{
    match text_field(payload, key) {
        Some(s) => {
            let b = s.is_empty();
            assert(b == (s@.len() == 0));
            !b
        },
        None => false,
    }
}

/// What is wrong with a request to edit.
pub open spec fn payload_fault(mode: Seq<char>, payload: Fields) -> Option<Fault> {
    let preset = as_text(get(payload, "validator_preset"@));
    if !modes().contains(mode) {
        Some(bad("mode must be one of: "@ + joined(modes(), ", "@)))
    } else if as_text(get(payload, "validator"@)) is Some && preset is Some {
        Some(bad("cannot use 'validator' and 'validator_preset' together"@))
    } else if preset matches Some(p) && !presets().contains(p) {
        Some(bad("validator_preset must be one of: "@ + joined(presets(), ", "@)))
    } else if as_integer(get(payload, "count"@)) matches Some(n) && n < 0 {
        Some(bad("count cannot be negative"@))
    } else if mode == "replace"@ && get(payload, "old"@) is None {
        Some(bad("mode=replace requires 'old'"@))
    } else if mode == "regex"@ && !has_text(payload, "pattern"@) {
        Some(bad("mode=regex requires 'pattern'"@))
    } else if mode == "replace-block"@ && !(has_text(payload, "start_marker"@) && has_text(payload, "end_marker"@)) {
        Some(bad("mode=replace-block requires 'start_marker' and 'end_marker'"@))
    } else if get(payload, "new_text"@) is None {
        Some(bad("mode="@ + mode + " requires 'new_text'"@))
    } else {
        None
    }
}

fn texts_of(list: &Vec<&'static str>) -> (r: Vec<String>)
    ensures
        views(r@) == str_views(list@),
{
    let mut out: Vec<String> = Vec::new();
    let mut i: usize = 0;
    while i < list.len()
        invariant
            i <= list@.len(),
            out@.len() == i,
            forall|j: int| 0 <= j < i ==> (#[trigger] out@[j])@ == list@[j]@,
        decreases list@.len() - i,
    {
        out.push(list[i].to_owned());
        i = i + 1;
    }
    assert(views(out@) =~= str_views(list@));
    out
}

/// What is wrong with a request to edit, where something is.
pub fn validate_payload(mode: &str, payload: &Object) -> (r: Result<(), HandlerError>)
    ensures
        match r {
            Ok(_) => payload_fault(mode@, fields(payload@)) is None,
            Err(e) => payload_fault(mode@, fields(payload@)) == Some(e@),
        },
{
    let known: Vec<&'static str> = vec!["replace", "regex", "replace-block", "append", "prepend", "write"];
    assert(str_views(known@) =~= modes());
    let names: Vec<&'static str> = vec!["nginx", "json", "python", "sh", "yaml", "systemd", "toml"];
    assert(str_views(names@) =~= presets());
    if !among(mode, &known) {
        return Err(refuse(&cat2("mode must be one of: ", &join(&texts_of(&known), ", "))));
    }
    if text_field(payload, "validator").is_some() && text_field(payload, "validator_preset").is_some() {
        return Err(refuse("cannot use 'validator' and 'validator_preset' together"));
    }
    if let Some(preset) = text_field(payload, "validator_preset") {
        if !among(preset, &names) {
            return Err(refuse(&cat2("validator_preset must be one of: ", &join(&texts_of(&names), ", "))));
        }
    }
    if let Some(n) = integer_field(payload, "count") {
        if n < 0 {
            return Err(refuse("count cannot be negative"));
        }
    }
    if same(mode, "replace") && !has_field(payload, "old") {
        return Err(refuse("mode=replace requires 'old'"));
    }
    if same(mode, "regex") && !holds_text(payload, "pattern") {
        return Err(refuse("mode=regex requires 'pattern'"));
    }
    if same(mode, "replace-block") && !(holds_text(payload, "start_marker") && holds_text(payload, "end_marker")) {
        return Err(refuse("mode=replace-block requires 'start_marker' and 'end_marker'"));
    }
    if !has_field(payload, "new_text") {
        return Err(refuse(&cat3("mode=", mode, " requires 'new_text'")));
    }
    Ok(())
}

/// What a backslash and the character behind it stand for.
pub open spec fn escape_of(c: char) -> Seq<char> {
    if c == 'n' {
        seq!['\n']
    } else if c == 'r' {
        seq!['\r']
    } else if c == 't' {
        seq!['\t']
    } else if c == '\\' {
        seq!['\\']
    } else {
        seq!['\\', c]
    }
}

/// A text from `i` on, with its escapes read.
pub open spec fn unescaped(s: Seq<char>, i: int) -> Seq<char>
    decreases s.len() - i,
{
    if i < 0 || i >= s.len() {
        Seq::empty()
    } else if s[i] != '\\' {
        seq![s[i]] + unescaped(s, i + 1)
    } else if i + 1 >= s.len() {
        seq!['\\']
    } else {
        escape_of(s[i + 1]) + unescaped(s, i + 2)
    }
}

/// Reads `\n`, `\r`, `\t` and `\\`; any other backslash stays.
pub fn interpret_escapes(input: &str) -> (r: String)
    ensures
        r@ == unescaped(input@, 0),
{
    let chars = chars_of(input);
    let total = chars.len();
    let mut out = String::new();
    let mut i: usize = 0;
    assert(out@ + unescaped(input@, 0) =~= unescaped(input@, 0));
    while i < total
        invariant
            i <= total,
            total == chars@.len(),
            chars@ == input@,
            out@ + unescaped(input@, i as int) == unescaped(input@, 0),
        decreases total - i,
    {
        let ghost before = out@;
        let c = chars[i];
        if c != '\\' {
            out.push(c);
            assert(before + (seq![c] + unescaped(input@, i + 1)) =~= out@ + unescaped(input@, i + 1));
            i = i + 1;
        } else if i + 1 >= total {
            out.push('\\');
            i = i + 1;
            assert(out@ =~= before + seq!['\\']);
            assert(out@ + unescaped(input@, i as int) =~= out@);
        } else {
            let d = chars[i + 1];
            if d == 'n' {
                out.push('\n');
            } else if d == 'r' {
                out.push('\r');
            } else if d == 't' {
                out.push('\t');
            } else if d == '\\' {
                out.push('\\');
            } else {
                out.push('\\');
                out.push(d);
            }
            assert(out@ =~= before + escape_of(d));
            assert(before + (escape_of(d) + unescaped(input@, i + 2)) =~= out@ + unescaped(input@, i + 2));
            i = i + 2;
        }
    }
    assert(out@ + unescaped(input@, i as int) =~= out@);
    out
}

/// A text with `old` replaced by `new`, `limit` times or, where that is zero,
/// everywhere; and how often that was.
pub open spec fn substituted(original: Seq<char>, old: Seq<char>, new: Seq<char>, limit: usize) -> (Seq<char>, int) {
    if limit > 0 {
        (replaced_some(original, old, new, limit as nat), some_occurrences(original, old, limit as nat) as int)
    } else if old.len() == 0 {
        (interleaved(original, new), original.len() as int + 1)
    } else {
        (replaced(original, old, new), occurrences(original, old) as int)
    }
}

/// Replaces `old` by `new`, `limit` times or, where that is zero, everywhere.
pub fn replace_count(original: &str, old: &str, new: &str, limit: usize) -> (r: (String, u64))
    requires
        original@.len() < usize::MAX,
    ensures
        r.0@ == substituted(original@, old@, new@, limit).0,
        r.1 == substituted(original@, old@, new@, limit).1,
{
    if limit > 0 {
        let (text, n) = replace_some(original, old, new, limit);
        return (text, n as u64);
    }
    if old.is_empty() {
        let chars = chars_of(original);
        let n = chars.len() as u64 + 1;
        return (interleave(original, new), n);
    }
    let (text, n) = replace(original, old, new);
    (text, n as u64)
}

/// The text under `key`, with its escapes read where the request says so.
pub open spec fn given_text(payload: Fields, key: Seq<char>) -> Seq<char> {
    let value = match as_text(get(payload, key)) {
        Some(s) => s,
        None => ""@,
    };
    if as_flag(get(payload, "interpret_escapes"@)) == Some(true) {
        unescaped(value, 0)
    } else {
        value
    }
}

fn get_text(payload: &Object, key: &str) -> (r: String)
    ensures
        r@ == given_text(fields(payload@), key@),
{
    let value = match text_field(payload, key) {
        Some(s) => s,
        None => "",
    };
    match flag_field(payload, "interpret_escapes") {
        Some(true) => interpret_escapes(value),
        _ => value.to_owned(),
    }
}

pub open spec fn plain_text(payload: Fields, key: Seq<char>) -> Seq<char> {
    match as_text(get(payload, key)) {
        Some(s) => s,
        None => ""@,
    }
}

fn get_plain<'a>(payload: &'a Object, key: &str) -> (r: &'a str)
    ensures
        r@ == plain_text(fields(payload@), key@),
{
    match text_field(payload, key) {
        Some(s) => s,
        None => "",
    }
}

pub open spec fn is_set(payload: Fields, key: Seq<char>) -> bool {
    as_flag(get(payload, key)) == Some(true)
}

fn get_flag(payload: &Object, key: &str) -> (r: bool)
    ensures
        r == is_set(fields(payload@), key@),
{
    match flag_field(payload, key) {
        Some(b) => b,
        None => false,
    }
}

/// How many replacements a request allows; zero for all of them.
pub open spec fn limit_of(payload: Fields) -> usize {
    match as_count(get(payload, "count"@)) {
        Some(n) => if n <= usize::MAX {
            n as usize
        } else {
            0
        },
        None => 0,
    }
}

fn get_limit(payload: &Object) -> (r: usize)
    ensures
        r == limit_of(fields(payload@)),
{
    match count_field(payload, "count") {
        Some(n) => if n <= usize::MAX as u64 {
            n as usize
        } else {
            0
        },
        None => 0,
    }
}

/// A block between two markers, the markers with it, replaced by `new`.
pub open spec fn block_replaced(original: Seq<char>, start: Seq<char>, end: Seq<char>, new: Seq<char>) -> Result<
    (Seq<char>, int),
    Fault,
> {
    let s = first_match(original, start);
    if s < 0 {
        Err(fault("start_marker_not_found"@, "start marker not found"@))
    } else {
        let from = s + start.len();
        let e = first_match(original.skip(from), end);
        if e < 0 {
            Err(fault("end_marker_not_found"@, "end marker not found"@))
        } else {
            Ok((original.take(s) + new + original.skip(from + e + end.len()), 1))
        }
    }
}

/// The matches of a regular expression replaced.
pub open spec fn matches_replaced(payload: Fields, original: Seq<char>) -> Result<(Seq<char>, int), Fault> {
    let pattern = plain_text(payload, "pattern"@);
    let multiline = is_set(payload, "multiline"@);
    let dotall = is_set(payload, "dotall"@);
    let limit = limit_of(payload);
    match regex_fault(pattern, multiline, dotall) {
        Some(e) => Err(bad("invalid regex: "@ + e)),
        None => {
            let found = regex_spans(pattern, multiline, dotall, original).len();
            Ok(
                (
                    regex_replaced(pattern, multiline, dotall, original, limit, given_text(payload, "new_text"@)),
                    if limit > 0 && limit < found {
                        limit as int
                    } else {
                        found as int
                    },
                ),
            )
        },
    }
}

/// The text that comes of an edit, and how many places changed.
pub open spec fn transformed(mode: Seq<char>, original: Seq<char>, payload: Fields) -> Result<(Seq<char>, int), Fault> {
    let new = given_text(payload, "new_text"@);
    if mode == "write"@ {
        Ok((new, 1))
    } else if mode == "append"@ {
        Ok((original + new, 1))
    } else if mode == "prepend"@ {
        Ok((new + original, 1))
    } else if mode == "replace"@ {
        Ok(substituted(original, given_text(payload, "old"@), new, limit_of(payload)))
    } else if mode == "regex"@ {
        matches_replaced(payload, original)
    } else if mode == "replace-block"@ {
        block_replaced(original, plain_text(payload, "start_marker"@), plain_text(payload, "end_marker"@), new)
    } else {
        Err(bad("unsupported edit mode"@))
    }
}

pub open spec fn edited(r: Result<(String, u64), HandlerError>) -> Result<(Seq<char>, int), Fault> {
    match r {
        Ok((text, n)) => Ok((text@, n as int)),
        Err(e) => Err(e@),
    }
}

fn replace_block(original: &str, start: &str, end: &str, new: &str) -> (r: Result<(String, u64), HandlerError>)
    ensures
        edited(r) == block_replaced(original@, start@, end@, new@),
{
    let chars = chars_of(original);
    let start_chars = chars_of(start);
    let end_chars = chars_of(end);
    assert(chars@.skip(0) =~= chars@);
    let s = match find_from(&chars, &start_chars, 0) {
        Some(s) => s,
        None => return Err(HandlerError::new("start_marker_not_found", "start marker not found")),
    };
    let total = chars.len();
    assert(s + start_chars@.len() <= total);
    let from = s + start_chars.len();
    let e = match find_from(&chars, &end_chars, from) {
        Some(e) => e,
        None => return Err(HandlerError::new("end_marker_not_found", "end marker not found")),
    };
    assert(e + end_chars@.len() <= total);
    let head = slice_text(&chars, 0, s);
    let tail = slice_text(&chars, e + end_chars.len(), total);
    assert(head@ =~= original@.take(s as int));
    assert(tail@ =~= original@.skip(e + end@.len()));
    Ok((cat3(&head, new, &tail), 1))
}

/// A text comes of another by replacing the matches that a request names, as often as
/// it says.
pub open spec fn replaces_matches(payload: Fields, original: Seq<char>, text: Seq<char>) -> bool {
    replaces_spans(
        original,
        text,
        regex_spans(
            plain_text(payload, "pattern"@),
            is_set(payload, "multiline"@),
            is_set(payload, "dotall"@),
            original,
        ),
        limit_of(payload),
        given_text(payload, "new_text"@),
    )
}

fn replace_regex(payload: &Object, original: &str) -> (r: Result<(String, u64), HandlerError>)
    ensures
        edited(r) == matches_replaced(fields(payload@), original@),
        r matches Ok((text, _)) ==> replaces_matches(fields(payload@), original@, text@),
{
    let pattern = get_plain(payload, "pattern");
    let multiline = get_flag(payload, "multiline");
    let dotall = get_flag(payload, "dotall");
    let limit = get_limit(payload);
    let found = match find_all(pattern, multiline, dotall, original) {
        Ok(spans) => {
            assert(span_views(spans@).len() == spans@.len());
            spans.len()
        },
        Err(e) => return Err(refuse(&cat2("invalid regex: ", &e))),
    };
    let replacement = get_text(payload, "new_text");
    let changed = if limit > 0 && limit < found {
        limit
    } else {
        found
    };
    match replace_matches(pattern, multiline, dotall, original, limit, &replacement) {
        Ok(text) => Ok((text, changed as u64)),
        Err(e) => Err(refuse(&cat2("invalid regex: ", &e))),
    }
}

/// The text that comes of an edit, and how many places changed.
pub fn transform(mode: &str, original: &str, payload: &Object) -> (r: Result<(String, u64), HandlerError>)
    requires
        original@.len() < usize::MAX,
    ensures
        edited(r) == transformed(mode@, original@, fields(payload@)),
        mode@ == "regex"@ ==> (r matches Ok((text, _)) ==> replaces_matches(fields(payload@), original@, text@)),
{
    proof {
        lemma_modes_differ();
    }
    if same(mode, "write") {
        return Ok((get_text(payload, "new_text"), 1));
    }
    if same(mode, "append") {
        return Ok((cat2(original, &get_text(payload, "new_text")), 1));
    }
    if same(mode, "prepend") {
        return Ok((cat2(&get_text(payload, "new_text"), original), 1));
    }
    if same(mode, "replace") {
        let (text, n) = replace_count(
            original,
            &get_text(payload, "old"),
            &get_text(payload, "new_text"),
            get_limit(payload),
        );
        return Ok((text, n));
    }
    if same(mode, "regex") {
        return replace_regex(payload, original);
    }
    if same(mode, "replace-block") {
        return replace_block(
            original,
            get_plain(payload, "start_marker"),
            get_plain(payload, "end_marker"),
            &get_text(payload, "new_text"),
        );
    }
    Err(refuse("unsupported edit mode"))
}

/// What a request to edit names.
pub struct EditStart {
    pub target: String,
    pub mode: String,
}

pub open spec fn started(r: Result<EditStart, HandlerError>) -> Result<(Seq<char>, Seq<char>), Fault> {
    match r {
        Ok(s) => Ok((s.target@, s.mode@)),
        Err(e) => Err(e@),
    }
}

/// The target and the mode of an edit, where it may be made.
pub open spec fn edit_start_of(policy: Policy, payload: Fields, seen: Resolution) -> Result<(Seq<char>, Seq<char>), Fault> {
    match required_text(payload, "path"@) {
        Err(f) => Err(f),
        Ok(path) => match required_text(payload, "mode"@) {
            Err(f) => Err(f),
            Ok(mode) => match payload_fault(mode, payload) {
                Some(f) => Err(f),
                None => match resolved(policy, path, true, seen) {
                    Some(target) => Ok((target, mode)),
                    None => Err(
                        Fault {
                            code: "path_not_allowed"@,
                            message: "edit requires a path under a file_ops entry with access: rw"@,
                            details: no_fields().with(
                                "writable_paths"@,
                                text_list(path_names(policy.file_ops_paths@, true)),
                            ),
                        },
                    ),
                },
            },
        },
    }
}

/// The target and the mode of an edit. `seen` is what the file system says of the
/// path.
pub fn edit_start(policy: &Policy, payload: &Object, seen: &Resolution) -> (r: Result<EditStart, HandlerError>)
    ensures
        started(r) == edit_start_of(*policy, fields(payload@), *seen),
{
    let path = match require_str(payload, "path") {
        Ok(s) => s,
        Err(e) => return Err(e),
    };
    let mode = match require_str(payload, "mode") {
        Ok(s) => s,
        Err(e) => return Err(e),
    };
    if let Err(e) = validate_payload(mode, payload) {
        return Err(e);
    }
    match policy.resolve_path(path, true, seen) {
        Some(target) => Ok(EditStart { target, mode: mode.to_owned() }),
        None => {
            let mut details = no_object();
            set_field(&mut details, "writable_paths", strings(&list_paths(&policy.file_ops_paths, true)));
            Err(
                HandlerError::with_details(
                    "path_not_allowed",
                    "edit requires a path under a file_ops entry with access: rw",
                    details,
                ),
            )
        },
    }
}

/// A file that is not there is only edited where the request creates it.
pub fn check_target(payload: &Object, present: bool) -> (r: Result<(), HandlerError>)
    ensures
        match r {
            Ok(_) => present || is_set(fields(payload@), "create"@),
            Err(e) => !present && !is_set(fields(payload@), "create"@) && e@ == fault(
                "target_not_found"@,
                "file does not exist; pass create=true to create it"@,
            ),
        },
{
    if present || get_flag(payload, "create") {
        Ok(())
    } else {
        Err(HandlerError::new("target_not_found", "file does not exist; pass create=true to create it"))
    }
}

/// The new text of a file, unless nothing would change.
pub open spec fn edit_of(mode: Seq<char>, original: Seq<char>, payload: Fields) -> Result<(Seq<char>, int), Fault> {
    match transformed(mode, original, payload) {
        Err(f) => Err(f),
        Ok((text, n)) => if text == original && !is_set(payload, "allow_no_change"@) {
            Err(fault("no_effective_change"@, "the edit produced no changes"@))
        } else {
            Ok((text, n))
        },
    }
}

/// The new text of a file, and how many places changed.
pub fn edit_text(mode: &str, original: &str, payload: &Object) -> (r: Result<(String, u64), HandlerError>)
    requires
        original@.len() < usize::MAX,
    ensures
        edited(r) == edit_of(mode@, original@, fields(payload@)),
        mode@ == "regex"@ ==> (r matches Ok((text, _)) ==> replaces_matches(fields(payload@), original@, text@)),
{
    let (text, n) = match transform(mode, original, payload) {
        Ok(pair) => pair,
        Err(e) => return Err(e),
    };
    if same(&text, original) && !get_flag(payload, "allow_no_change") {
        return Err(HandlerError::new("no_effective_change", "the edit produced no changes"));
    }
    Ok((text, n))
}

/// The name of a file, or `file` where a path has none.
pub open spec fn name_or_file(path: Seq<char>) -> Seq<char> {
    match file_name(path) {
        Some(n) => n,
        None => "file"@,
    }
}

fn name_of(path: &str) -> (r: String)
    ensures
        r@ == name_or_file(path@),
{
    match file_name_of(path) {
        Some(n) => n,
        None => "file".to_owned(),
    }
}

/// The name under which the new text is checked.
pub fn staged_name(target: &str, random: u64) -> (r: String)
    ensures
        r@ == "edit-"@ + name_or_file(target@) + "-"@ + padded(random as nat, 16, 16),
{
    cat4("edit-", &name_of(target), "-", &padded_text(random, 16, 16))
}

/// The name under which the new text is written beside its target.
pub fn temporary_name(target: &str, random: u64) -> (r: String)
    ensures
        r@ == "."@ + name_or_file(target@) + ".sentinel0-"@ + padded(random as nat, 16, 16) + ".tmp"@,
{
    cat5(".", &name_of(target), ".sentinel0-", &padded_text(random, 16, 16), ".tmp")
}

/// Where the old text of `target` is kept: in the given directory, or beside it.
pub open spec fn backup_of(target: Seq<char>, backup_dir: Option<Seq<char>>, secs: u64, micros: u32) -> Seq<char> {
    let base = match backup_dir {
        Some(d) => d,
        None => match parent(target) {
            Some(p) => p,
            None => "."@,
        },
    };
    crate::paths::joined(
        base,
        name_or_file(target) + ".bak."@ + (decimal(secs as nat) + "-"@ + padded(micros as nat, 10, 6)),
    )
}

/// Where the old text of `target` is kept. The time is that since 1970, in seconds
/// and microseconds.
pub fn backup_path(target: &str, backup_dir: Option<&str>, secs: u64, micros: u32) -> (r: String)
    ensures
        r@ == backup_of(
            target@,
            match backup_dir {
                Some(d) => Some(d@),
                None => None,
            },
            secs,
            micros,
        ),
{
    let base = match backup_dir {
        Some(d) => d.to_owned(),
        None => match parent_of(target) {
            Some(p) => p,
            None => ".".to_owned(),
        },
    };
    let stamp = cat3(&decimal_text(secs), "-", &padded_text(micros as u64, 10, 6));
    crate::paths::join(&base, &cat3(&name_of(target), ".bak.", &stamp))
}

/// Who owns a file and what may be done with it.
#[derive(Debug, Clone, Copy, PartialEq, Eq, Structural)]
pub struct FileOwner {
    pub mode: u32,
    pub uid: u32,
    pub gid: u32,
}

/// The command that puts a file in place with other privileges, as the one that it
/// replaces.
pub open spec fn install_argv_of(owner: Option<FileOwner>, staged: Seq<char>, temp: Seq<char>) -> Seq<Seq<char>> {
    match owner {
        Some(o) => seq![
            "sudo"@,
            "install"@,
            "-m"@,
            numeral((o.mode % 4096) as nat, 8),
            "-o"@,
            decimal(o.uid as nat),
            "-g"@,
            decimal(o.gid as nat),
            staged,
            temp,
        ],
        None => seq!["sudo"@, "install"@, staged, temp],
    }
}

/// The command that puts `staged` beside its target as `temp`.
pub fn install_argv(owner: Option<FileOwner>, staged: &str, temp: &str) -> (r: Vec<String>)
    ensures
        views(r@) == install_argv_of(owner, staged@, temp@),
{
    match owner {
        Some(o) => {
            let argv: Vec<String> = vec![
                "sudo".to_owned(),
                "install".to_owned(),
                "-m".to_owned(),
                numeral_text((o.mode % 4096) as u64, 8),
                "-o".to_owned(),
                decimal_text(o.uid as u64),
                "-g".to_owned(),
                decimal_text(o.gid as u64),
                staged.to_owned(),
                temp.to_owned(),
            ];
            assert(views(argv@) =~= install_argv_of(owner, staged@, temp@));
            argv
        },
        None => {
            let argv: Vec<String> = vec!["sudo".to_owned(), "install".to_owned(), staged.to_owned(), temp.to_owned()];
            assert(views(argv@) =~= install_argv_of(owner, staged@, temp@));
            argv
        },
    }
}

/// What is answered to an edit.
pub open spec fn edit_fields(
    payload: Fields,
    target: Seq<char>,
    mode: Seq<char>,
    changed: u64,
    duration: Seq<char>,
    backup: Option<Seq<char>>,
    diff: Option<Seq<char>>,
    validator: Option<Seq<Seq<char>>>,
) -> Fields {
    let o = no_fields().with("ok"@, Tree::Bool(true)).with("path"@, Tree::Text(target)).with("mode"@, Tree::Text(mode)).with(
        "sudo"@,
        Tree::Bool(is_set(payload, "sudo"@)),
    ).with("output"@, Tree::Text("OK"@)).with("duration"@, Tree::Number(Num::Float(duration))).with(
        "returncode"@,
        Tree::Number(Num::Pos(0)),
    ).with("changed"@, Tree::Number(Num::Pos(changed)));
    let o = if is_set(payload, "dry_run"@) {
        o.with("dry_run"@, Tree::Bool(true))
    } else {
        o
    };
    let o = match backup {
        Some(p) => o.with("backup"@, Tree::Text(p)),
        None => o,
    };
    let o = match diff {
        Some(d) => o.with("diff"@, Tree::Text(d)),
        None => o,
    };
    match validator {
        Some(v) => o.with("validator"@, text_list(v)),
        None => o,
    }
}

pub open spec fn opt_views(v: Option<Vec<String>>) -> Option<Seq<Seq<char>>> {
    match v {
        Some(v) => Some(views(v@)),
        None => None,
    }
}

/// What is answered to an edit. `duration` is the time that it took, in seconds.
pub fn edit_result(
    payload: &Object,
    target: &str,
    mode: &str,
    changed: u64,
    duration: &str,
    backup: Option<String>,
    diff: Option<String>,
    validator: Option<Vec<String>>,
) -> (r: Object)
    ensures
        fields(r@) == edit_fields(
            fields(payload@),
            target@,
            mode@,
            changed,
            duration@,
            opt_view(backup),
            opt_view(diff),
            opt_views(validator),
        ),
{
    let mut o = no_object();
    set_field(&mut o, "ok", Json::Bool(true));
    set_field(&mut o, "path", string(target));
    set_field(&mut o, "mode", string(mode));
    set_field(&mut o, "sudo", Json::Bool(get_flag(payload, "sudo")));
    set_field(&mut o, "output", string("OK"));
    set_field(&mut o, "duration", Json::Number(Number::Float(duration.to_owned())));
    set_field(&mut o, "returncode", count(0));
    set_field(&mut o, "changed", count(changed));
    if get_flag(payload, "dry_run") {
        set_field(&mut o, "dry_run", Json::Bool(true));
    }
    if let Some(p) = &backup {
        set_field(&mut o, "backup", string(p));
    }
    if let Some(d) = &diff {
        set_field(&mut o, "diff", string(d));
    }
    if let Some(v) = &validator {
        set_field(&mut o, "validator", strings(v));
    }
    o
}

proof fn lemma_unescaped_plain(s: Seq<char>, i: int)
    requires
        0 <= i <= s.len(),
        forall|j: int| 0 <= j < s.len() ==> s[j] != '\\',
    ensures
        unescaped(s, i) == s.skip(i),
    decreases s.len() - i,
{
    if i < s.len() {
        lemma_unescaped_plain(s, i + 1);
        assert(seq![s[i]] + s.skip(i + 1) =~= s.skip(i));
    } else {
        assert(s.skip(i) =~= Seq::empty());
    }
}

/// A text without a backslash has no escapes: reading them leaves it as it is.
pub proof fn plain_text_has_no_escapes(s: Seq<char>)
    requires
        forall|j: int| 0 <= j < s.len() ==> s[j] != '\\',
    ensures
        unescaped(s, 0) == s,
{
    lemma_unescaped_plain(s, 0);
    assert(s.skip(0) =~= s);
}

/// The modes differ.
proof fn lemma_modes_differ()
    ensures
        modes().no_duplicates(),
        modes().len() == 6,
        "regex"@ != "replace"@ && "regex"@ != "append"@ && "regex"@ != "prepend"@ && "regex"@ != "write"@,
        "replace"@ != "append"@ && "replace"@ != "prepend"@ && "replace"@ != "write"@,
        "replace-block"@ != "regex"@ && "replace-block"@ != "replace"@ && "replace-block"@ != "append"@,
        "replace-block"@ != "prepend"@ && "replace-block"@ != "write"@,
        "append"@ != "prepend"@ && "append"@ != "write"@ && "prepend"@ != "write"@,
{
    reveal_strlit("replace");
    reveal_strlit("regex");
    reveal_strlit("replace-block");
    reveal_strlit("append");
    reveal_strlit("prepend");
    reveal_strlit("write");
    assert("replace"@.len() == 7 && "regex"@.len() == 5 && "replace-block"@.len() == 13 && "append"@.len() == 6
        && "prepend"@.len() == 7 && "write"@.len() == 5 && "replace"@[0] == 'r' && "prepend"@[0] == 'p'
        && "regex"@[0] == 'r' && "write"@[0] == 'w');
}

/// Text that is put before or behind a file leaves all of the file in place, and a
/// file that is written anew holds the given text alone.
pub proof fn added_text_keeps_the_file(original: Seq<char>, payload: Fields)
    ensures
        transformed("append"@, original, payload) matches Ok((text, _)) && text.take(original.len() as int) == original,
        transformed("prepend"@, original, payload) matches Ok((text, _)) && text.skip(text.len() - original.len())
            == original,
        transformed("write"@, original, payload) matches Ok((text, _)) && text == given_text(payload, "new_text"@),
{
    reveal_strlit("append");
    reveal_strlit("prepend");
    reveal_strlit("write");
    assert("append"@.len() == 6 && "prepend"@.len() == 7 && "write"@.len() == 5);
    let new = given_text(payload, "new_text"@);
    assert((original + new).take(original.len() as int) =~= original);
    assert((new + original).skip((new + original).len() - original.len()) =~= original);
}

/// Only what stands between the markers changes, the markers with it.
pub proof fn block_edit_keeps_the_rest(original: Seq<char>, start: Seq<char>, end: Seq<char>, new: Seq<char>)
    ensures
        block_replaced(original, start, end, new) matches Ok((text, _)) ==> exists|s: int, e: int|
            0 <= s <= e <= original.len() && prefixed(#[trigger] original.skip(s), start) && suffixed(
                #[trigger] original.take(e),
                end,
            ) && text == original.take(s) + new + original.skip(e),
{
    if let Ok((text, _)) = block_replaced(original, start, end, new) {
        let s = first_match(original, start);
        let from = s + start.len();
        crate::text::lemma_first_match(original, start);
        let rest = original.skip(from);
        crate::text::lemma_first_match(rest, end);
        let e = from + first_match(rest, end) + end.len();
        assert(original.skip(s).take(start.len() as int) =~= original.subrange(s, from));
        assert(original.take(e).skip(e - end.len()) =~= rest.subrange(first_match(rest, end), first_match(rest, end) + end.len()));
        assert(prefixed(original.skip(s), start) && suffixed(original.take(e), end));
    }
}

/// An edit by a regular expression replaces the first matches, as many as the request
/// counts, or all of them where it counts none, and tells how many those are. What
/// lies before the first match and behind the last of these stays. `regex_spans` is
/// where the expression matches; that replacing them is what the outside library does is
/// what every call of it shows.
pub proof fn counted_matches_are_replaced(payload: Fields, original: Seq<char>, pattern: Seq<char>, new: Seq<char>, count: usize)
    requires
        get(payload, "pattern"@) == Some(Tree::Text(pattern)),
        get(payload, "new_text"@) == Some(Tree::Text(new)),
        get(payload, "interpret_escapes"@) != Some(Tree::Bool(true)),
        get(payload, "count"@) == Some(Tree::Number(Num::Pos(count as u64))) || count == 0 && get(payload, "count"@) is None,
        ({
            let multiline = get(payload, "multiline"@) == Some(Tree::Bool(true));
            let dotall = get(payload, "dotall"@) == Some(Tree::Bool(true));
            let spans = regex_spans(pattern, multiline, dotall, original);
            &&& regex_fault(pattern, multiline, dotall) is None
            &&& spans_fit(spans, bytes_of(original))
            &&& replaces_spans(
                original,
                regex_replaced(pattern, multiline, dotall, original, count, new),
                spans,
                count,
                new,
            )
        }),
    ensures
        transformed("regex"@, original, payload) matches Ok((text, n)) && {
            let multiline = get(payload, "multiline"@) == Some(Tree::Bool(true));
            let dotall = get(payload, "dotall"@) == Some(Tree::Bool(true));
            let spans = regex_spans(pattern, multiline, dotall, original);
            let before = bytes_of(original);
            let after = bytes_of(text);
            &&& n == if 0 < count < spans.len() {
                count as int
            } else {
                spans.len() as int
            }
            &&& n == 0 ==> after == before
            &&& n > 0 ==> {
                let rest = before.skip(spans[n - 1].1);
                &&& after.len() >= spans[0].0 + rest.len()
                &&& after.take(spans[0].0) == before.take(spans[0].0)
                &&& after.skip(after.len() - rest.len()) == rest
            }
            &&& !new.contains('$') ==> after == spliced(
                before,
                spans.take(n),
                Seq::new(n as nat, |i: int| bytes_of(new)),
            )
        },
{
    lemma_modes_differ();
    let multiline = get(payload, "multiline"@) == Some(Tree::Bool(true));
    let dotall = get(payload, "dotall"@) == Some(Tree::Bool(true));
    let spans = regex_spans(pattern, multiline, dotall, original);
    let text = regex_replaced(pattern, multiline, dotall, original, count, new);
    let n = replaced_spans(spans, count);
    assert(is_set(payload, "multiline"@) == multiline && is_set(payload, "dotall"@) == dotall);
    assert(limit_of(payload) == count);
    let before = bytes_of(original);
    let parts = choose|parts: Seq<Seq<u8>>|
        {
            &&& parts.len() == replaced_spans(spans, count)
            &&& !new.contains('$') ==> forall|i: int| 0 <= i < parts.len() ==> #[trigger] parts[i] == bytes_of(new)
            &&& bytes_of(text) == #[trigger] spliced(before, spans.take(replaced_spans(spans, count)), parts)
        };
    let first = spans.take(n);
    assert forall|i: int, j: int| 0 <= i < j < first.len() implies (#[trigger] first[i]).1 <= (#[trigger] first[j]).0 by {
        assert(first[i] == spans[i] && first[j] == spans[j]);
    }
    assert forall|i: int| 0 <= i < first.len() implies 0 <= (#[trigger] first[i]).0 <= first[i].1 <= before.len()
        && vstd::utf8::is_char_boundary(before, first[i].0) && vstd::utf8::is_char_boundary(before, first[i].1) by {
        assert(first[i] == spans[i]);
    }
    spliced_bytes_keep_their_ends(before, first, parts);
    if !new.contains('$') {
        assert(parts =~= Seq::new(n as nat, |i: int| bytes_of(new)));
    }
}

/// An edit that replaces a text takes it from between parts of the file that do not hold
/// it and puts the new one there: everywhere, or at the first places, as many as the
/// request counts. It tells how many places those are.
pub proof fn counted_texts_are_replaced(
    payload: Fields,
    original: Seq<char>,
    old_text: Seq<char>,
    new: Seq<char>,
    count: usize,
) -> (parts: Seq<Seq<char>>)
    requires
        get(payload, "old"@) == Some(Tree::Text(old_text)),
        old_text.len() > 0,
        get(payload, "new_text"@) == Some(Tree::Text(new)),
        get(payload, "interpret_escapes"@) != Some(Tree::Bool(true)),
        get(payload, "count"@) == Some(Tree::Number(Num::Pos(count as u64))) || count == 0 && get(payload, "count"@) is None,
    ensures
        transformed("replace"@, original, payload) matches Ok((text, n)) && {
            &&& parts.len() == n + 1
            &&& original == joined(parts, old_text)
            &&& text == joined(parts, new)
            &&& count > 0 ==> n <= count
            &&& forall|i: int| 0 <= i < n ==> !occurs(#[trigger] parts[i], old_text)
            &&& count == 0 || n < count ==> !occurs(parts.last(), old_text)
        },
{
    lemma_modes_differ();
    assert(limit_of(payload) == count);
    if count == 0 {
        replaced_text_is_between_parts(original, old_text, new)
    } else {
        first_texts_are_replaced(original, old_text, new, count as nat)
    }
}

/// An edit of a block takes the first start marker and the first end marker behind it.
pub proof fn first_block_is_replaced(payload: Fields, original: Seq<char>, start: Seq<char>, end: Seq<char>, new: Seq<char>)
    requires
        get(payload, "start_marker"@) == Some(Tree::Text(start)),
        get(payload, "end_marker"@) == Some(Tree::Text(end)),
        get(payload, "new_text"@) == Some(Tree::Text(new)),
        get(payload, "interpret_escapes"@) != Some(Tree::Bool(true)),
    ensures
        match transformed("replace-block"@, original, payload) {
            Ok((text, n)) => n == 1 && exists|s: int, e: int|
                {
                    &&& 0 <= s <= s + start.len() <= e <= e + end.len() <= original.len()
                    &&& #[trigger] original.subrange(s, s + start.len()) == start
                    &&& #[trigger] original.subrange(e, e + end.len()) == end
                    &&& forall|i: int| 0 <= i < s ==> !prefixed(#[trigger] original.skip(i), start)
                    &&& forall|i: int| 0 <= i < e - (s + start.len()) ==> !prefixed(
                        #[trigger] original.skip(s + start.len()).skip(i),
                        end,
                    )
                    &&& text == original.take(s) + new + original.skip(e + end.len())
                },
            Err(f) => f.code == "start_marker_not_found"@ && !contained(original, start) || f.code
                == "end_marker_not_found"@ && contained(original, start),
        },
{
    lemma_modes_differ();
    let s = first_match(original, start);
    crate::text::lemma_first_match(original, start);
    if s >= 0 {
        let from = s + start.len();
        let rest = original.skip(from);
        let r = first_match(rest, end);
        crate::text::lemma_first_match(rest, end);
        if r >= 0 {
            let e = from + r;
            assert(original.subrange(e, e + end.len()) =~= rest.subrange(r, r + end.len()));
            assert(original.subrange(s, s + start.len()) == start);
        }
    }
}

/// A text is put before or behind a file as it was sent.
pub proof fn sent_text_is_added(payload: Fields, original: Seq<char>, new: Seq<char>)
    requires
        get(payload, "new_text"@) == Some(Tree::Text(new)),
        get(payload, "interpret_escapes"@) != Some(Tree::Bool(true)),
    ensures
        transformed("append"@, original, payload) == Ok::<(Seq<char>, int), Fault>((original + new, 1)),
        transformed("prepend"@, original, payload) == Ok::<(Seq<char>, int), Fault>((new + original, 1)),
        transformed("write"@, original, payload) == Ok::<(Seq<char>, int), Fault>((new, 1)),
{
    lemma_modes_differ();
}

/// Where a request says so, a backslash with `n`, `r`, `t` or a backslash stands for a
/// line feed, a carriage return, a tabulator or a backslash; before anything else, and at
/// the end of a text, it stands for itself.
pub proof fn escapes_are_read(c: char, rest: Seq<char>)
    ensures
        unescaped(seq!['\\', 'n'] + rest, 0) == seq!['\n'] + unescaped(rest, 0),
        unescaped(seq!['\\', 'r'] + rest, 0) == seq!['\r'] + unescaped(rest, 0),
        unescaped(seq!['\\', 't'] + rest, 0) == seq!['\t'] + unescaped(rest, 0),
        unescaped(seq!['\\', '\\'] + rest, 0) == seq!['\\'] + unescaped(rest, 0),
        c != 'n' && c != 'r' && c != 't' && c != '\\' ==> unescaped(seq!['\\', c] + rest, 0) == seq!['\\', c]
            + unescaped(rest, 0),
        c != '\\' ==> unescaped(seq![c] + rest, 0) == seq![c] + unescaped(rest, 0),
        unescaped(seq!['\\'], 0) == seq!['\\'],
{
    lemma_unescaped_behind(seq!['\\', 'n'], rest, 2);
    lemma_unescaped_behind(seq!['\\', 'r'], rest, 2);
    lemma_unescaped_behind(seq!['\\', 't'], rest, 2);
    lemma_unescaped_behind(seq!['\\', '\\'], rest, 2);
    lemma_unescaped_behind(seq!['\\', c], rest, 2);
    lemma_unescaped_behind(seq![c], rest, 1);
}

proof fn lemma_unescaped_behind(head: Seq<char>, rest: Seq<char>, i: int)
    requires
        head.len() <= i <= head.len() + rest.len(),
    ensures
        unescaped(head + rest, i) == unescaped(rest, i - head.len()),
    decreases head.len() + rest.len() - i,
{
    let s = head + rest;
    if i < s.len() {
        assert(s[i] == rest[i - head.len()]);
        lemma_unescaped_behind(head, rest, i + 1);
        if i + 1 < s.len() {
            assert(s[i + 1] == rest[i + 1 - head.len()]);
            lemma_unescaped_behind(head, rest, i + 2);
        }
    }
}

/// An edit that changes nothing is refused, unless the request allows for it; any other
/// is made as it was worked out.
pub proof fn idle_edits_are_refused(mode: Seq<char>, original: Seq<char>, payload: Fields)
    ensures
        transformed(mode, original, payload) matches Ok((text, n)) ==> {
            &&& text != original ==> edit_of(mode, original, payload) == Ok::<(Seq<char>, int), Fault>((text, n))
            &&& text == original && get(payload, "allow_no_change"@) == Some(Tree::Bool(true)) ==> edit_of(
                mode,
                original,
                payload,
            ) is Ok
            &&& text == original && get(payload, "allow_no_change"@) is None ==> (edit_of(mode, original, payload)
                matches Err(f) && f.code == "no_effective_change"@)
        },
        transformed(mode, original, payload) matches Err(f) ==> edit_of(mode, original, payload)
            == Err::<(Seq<char>, int), Fault>(f),
{
}

/// A request to edit is taken only with what its mode needs, and for a path that may be
/// written.
pub proof fn edits_are_complete(policy: Policy, payload: Fields, seen: Resolution)
    ensures
        edit_start_of(policy, payload, seen) matches Ok((target, mode)) ==> {
            &&& get(payload, "mode"@) == Some(Tree::Text(mode))
            &&& get(payload, "path"@) matches Some(Tree::Text(path)) && resolved(policy, path, true, seen) == Some(target)
            &&& mode == "replace"@ || mode == "regex"@ || mode == "replace-block"@ || mode == "append"@ || mode
                == "prepend"@ || mode == "write"@
            &&& get(payload, "new_text"@) is Some
            &&& mode == "replace"@ ==> get(payload, "old"@) is Some
            &&& mode == "regex"@ ==> (get(payload, "pattern"@) matches Some(Tree::Text(p)) && p.len() > 0)
            &&& mode == "replace-block"@ ==> (get(payload, "start_marker"@) matches Some(Tree::Text(a)) && a.len() > 0)
            &&& mode == "replace-block"@ ==> (get(payload, "end_marker"@) matches Some(Tree::Text(b)) && b.len() > 0)
            &&& !(get(payload, "count"@) matches Some(Tree::Number(Num::Neg(n))) && n < 0)
            &&& !(get(payload, "validator"@) matches Some(Tree::Text(_)) && get(payload, "validator_preset"@) matches Some(
                Tree::Text(_),
            ))
        },
{
    if let Ok((target, mode)) = edit_start_of(policy, payload, seen) {
        let i = choose|i: int| 0 <= i < modes().len() && modes()[i] == mode;
        assert(modes()[0] == "replace"@ && modes()[1] == "regex"@ && modes()[2] == "replace-block"@ && modes()[3]
            == "append"@ && modes()[4] == "prepend"@ && modes()[5] == "write"@);
    }
}

/// What is answered to an edit tells the file, the mode, how many places changed, and
/// the backup and the difference where there are such.
pub proof fn edits_are_told(
    payload: Fields,
    target: Seq<char>,
    mode: Seq<char>,
    changed: u64,
    duration: Seq<char>,
    backup: Option<Seq<char>>,
    diff: Option<Seq<char>>,
    validator: Option<Seq<Seq<char>>>,
)
    ensures
        ({
            let r = edit_fields(payload, target, mode, changed, duration, backup, diff, validator);
            &&& get(r, "ok"@) == Some(Tree::Bool(true))
            &&& get(r, "path"@) == Some(Tree::Text(target))
            &&& get(r, "mode"@) == Some(Tree::Text(mode))
            &&& get(r, "changed"@) == Some(Tree::Number(Num::Pos(changed)))
            &&& get(r, "duration"@) == Some(Tree::Number(Num::Float(duration)))
            &&& get(r, "returncode"@) == Some(Tree::Number(Num::Pos(0)))
            &&& get(r, "sudo"@) == Some(Tree::Bool(get(payload, "sudo"@) == Some(Tree::Bool(true))))
            &&& get(r, "dry_run"@) == if get(payload, "dry_run"@) == Some(Tree::Bool(true)) {
                Some(Tree::Bool(true))
            } else {
                None
            }
            &&& get(r, "backup"@) == match backup {
                Some(p) => Some(Tree::Text(p)),
                None => None,
            }
            &&& get(r, "diff"@) == match diff {
                Some(d) => Some(Tree::Text(d)),
                None => None,
            }
            &&& validator matches Some(v) ==> (get(r, "validator"@) matches Some(Tree::Array(items)) && items.len() == v.len()
                && forall|i: int| 0 <= i < v.len() ==> #[trigger] items[i] == Tree::Text(v[i]))
            &&& validator is None ==> get(r, "validator"@) is None
        }),
{
    broadcast use lemma_get_put;

    reveal_strlit("ok");
    reveal_strlit("path");
    reveal_strlit("mode");
    reveal_strlit("sudo");
    reveal_strlit("output");
    reveal_strlit("duration");
    reveal_strlit("returncode");
    reveal_strlit("changed");
    reveal_strlit("dry_run");
    reveal_strlit("backup");
    reveal_strlit("diff");
    reveal_strlit("validator");
    assert("ok"@.len() == 2 && "path"@.len() == 4 && "mode"@.len() == 4 && "sudo"@.len() == 4 && "output"@.len() == 6
        && "duration"@.len() == 8 && "returncode"@.len() == 10 && "changed"@.len() == 7 && "dry_run"@.len() == 7
        && "backup"@.len() == 6 && "diff"@.len() == 4 && "validator"@.len() == 9 && "path"@[0] == 'p'
        && "mode"@[0] == 'm' && "sudo"@[0] == 's' && "diff"@[0] == 'd' && "output"@[0] == 'o' && "backup"@[0] == 'b'
        && "changed"@[0] == 'c' && "dry_run"@[0] == 'd');
}

/// A backup stands in the given directory, or else beside its target, under a name that
/// begins with that of the target.
pub proof fn backups_stand_beside(target: Seq<char>, dir: Seq<char>, name: Seq<char>, secs: u64, micros: u32)
    requires
        file_name(target) == Some(name),
    ensures
        backup_of(target, Some(dir), secs, micros) == crate::paths::joined(
            dir,
            name + (".bak."@ + decimal(secs as nat) + "-"@ + padded(micros as nat, 10, 6)),
        ),
        parent(target) == Some(dir) ==> backup_of(target, None, secs, micros) == backup_of(target, Some(dir), secs, micros),
{
    assert(name + ".bak."@ + (decimal(secs as nat) + "-"@ + padded(micros as nat, 10, 6)) =~= name + (".bak."@ + decimal(
        secs as nat,
    ) + "-"@ + padded(micros as nat, 10, 6)));
}

/// A file that replaces another with other privileges gets the mode, the owner and the
/// group of that other one.
pub proof fn replaced_files_keep_their_owner(owner: FileOwner, staged: Seq<char>, temp: Seq<char>)
    ensures
        ({
            let argv = install_argv_of(Some(owner), staged, temp);
            &&& argv.len() == 10
            &&& argv[0] == "sudo"@ && argv[1] == "install"@
            &&& argv[2] == "-m"@ && parsed(argv[3], 8, u64::MAX as int) == Some((owner.mode % 4096) as int)
            &&& argv[4] == "-o"@ && parsed(argv[5], 10, u64::MAX as int) == Some(owner.uid as int)
            &&& argv[6] == "-g"@ && parsed(argv[7], 10, u64::MAX as int) == Some(owner.gid as int)
            &&& argv[8] == staged && argv[9] == temp
        }),
        install_argv_of(None, staged, temp).last() == temp,
        install_argv_of(None, staged, temp)[2] == staged,
{
    numerals_are_read_back((owner.mode % 4096) as nat, 8, u64::MAX as int);
    numerals_are_read_back(owner.uid as nat, 10, u64::MAX as int);
    numerals_are_read_back(owner.gid as nat, 10, u64::MAX as int);
}

} // verus!
