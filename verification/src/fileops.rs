//! Reading, listing and searching files: what a request asks for, what is taken of
//! what the file system shows, and what is answered.

use crate::ascii::{lowered, to_lower};
use crate::digits::{hex, hex_bytes};
use crate::handler_error::{fault, Fault, HandlerError};
use crate::json::{
    as_count, as_flag, as_integer, count, count_field, field, fields, flag_field, get, group_json_views, integer_field,
    lemma_get_put, lemma_object_view, no_fields, no_object, read_flag, set_field, string, trees, Entries, Fields, Json,
    Num, Number, Object, Tree,
};
use crate::paths::{extension, extension_of, file_name, file_name_of};
use crate::policy::{resolved, Policy, Resolution};
use crate::scan::{LineRange, Scanned};
use crate::text::{
    among, cat2, cat3, cat4, chars_of, debug_text, from_utf8, lines, opt_view, prefixed, quoted, rows, starts_with,
    str_views, suffixed, trim, trimmed,
};
use crate::time::{format_time, formatted_time, Timestamp};
use vstd::prelude::*;
use vstd::slice::slice_subrange;

verus! {

/// How much of a file is looked at to tell text from other files.
pub const PROBE: usize = 8192;

/// How much of a line is shown, in characters.
pub const PREVIEW_CHARS: usize = 200;

/// How much of a file that is no text is shown, in bytes.
pub const BINARY_PREVIEW: usize = 256;

pub const MTIME_LAYOUT: &'static str = "%Y-%m-%dT%H:%M:%S+0000";

/// What is wrong with a glob, where something is.
pub uninterp spec fn glob_fault(pattern: Seq<char>) -> Option<Seq<char>>;

/// Whether a glob matches a name.
pub uninterp spec fn glob_matches(pattern: Seq<char>, name: Seq<char>) -> bool;

/// What is wrong with a regular expression to search for, where something is.
pub uninterp spec fn expression_fault(needle: Seq<char>, case_sensitive: bool) -> Option<Seq<char>>;

/// What is wrong with a needle to search for that was not called an expression,
/// where something is.
pub uninterp spec fn literal_fault(needle: Seq<char>, case_sensitive: bool) -> Option<Seq<char>>;

/// Where the first match of a regular expression in a line begins.
pub uninterp spec fn expression_match(needle: Seq<char>, case_sensitive: bool, line: Seq<u8>) -> Option<int>;

/// Where a line first matches a needle that was not called an expression.
pub uninterp spec fn literal_match(needle: Seq<char>, case_sensitive: bool, line: Seq<u8>) -> Option<int>;

/// `glob::Pattern::new`: the error by its `to_string`, where there is one.
#[verifier::external_body]
pub(crate) fn find_glob_fault(pattern: &str) -> (r: Option<String>)
    ensures
        opt_view(r) == glob_fault(pattern@),
{
    glob::Pattern::new(pattern).err().map(|error| error.to_string())
}

/// `glob::Pattern::matches`; no for a pattern that `glob::Pattern::new` refuses.
#[verifier::external_body]
pub(crate) fn glob_match(pattern: &str, name: &str) -> (r: bool)
    ensures
        r == glob_matches(pattern@, name@),
{
    glob::Pattern::new(pattern).is_ok_and(|p| p.matches(name))
}

/// `grep_regex::RegexMatcherBuilder` with `case_insensitive`, and its `build`: the
/// error by its `to_string`, where there is one.
#[verifier::external_body]
pub(crate) fn find_expression_fault(needle: &str, case_sensitive: bool) -> (r: Option<String>)
    ensures
        opt_view(r) == expression_fault(needle@, case_sensitive),
{
    let mut builder = grep_regex::RegexMatcherBuilder::new();
    builder.case_insensitive(!case_sensitive);
    builder.build(needle).err().map(|error| error.to_string())
}

/// `grep_matcher::Matcher::find` of the matcher that `build` gives: where the first
/// match begins, within the line; nothing where there is no match, or no matcher.
#[verifier::external_body]
pub(crate) fn find_expression(needle: &str, case_sensitive: bool, line: &[u8]) -> (r: Option<usize>)
    ensures
        r matches Some(k) ==> expression_match(needle@, case_sensitive, line@) == Some(k as int) && k <= line@.len(),
        r is None ==> expression_match(needle@, case_sensitive, line@) is None,
{
    let mut builder = grep_regex::RegexMatcherBuilder::new();
    builder.case_insensitive(!case_sensitive);
    grep_matcher::Matcher::find(&builder.build(needle).ok()?, line).ok()?.map(|found| found.start())
}

/// `grep_regex::RegexMatcherBuilder` with `case_insensitive`, and its `build_literals`: the
/// error by its `to_string`, where there is one. That function takes the needle for an
/// expression too, unless the builder's `fixed_strings` is set.
#[verifier::external_body]
pub(crate) fn find_literal_fault(needle: &str, case_sensitive: bool) -> (r: Option<String>)
    ensures
        opt_view(r) == literal_fault(needle@, case_sensitive),
{
    let mut builder = grep_regex::RegexMatcherBuilder::new();
    builder.case_insensitive(!case_sensitive);
    builder.build_literals(&[needle]).err().map(|error| error.to_string())
}

/// `grep_matcher::Matcher::find` of the matcher that `build_literals` gives: where the first
/// match begins, within the line; nothing where there is no match, or no matcher.
#[verifier::external_body]
pub(crate) fn find_literal(needle: &str, case_sensitive: bool, line: &[u8]) -> (r: Option<usize>)
    ensures
        r matches Some(k) ==> literal_match(needle@, case_sensitive, line@) == Some(k as int) && k <= line@.len(),
        r is None ==> literal_match(needle@, case_sensitive, line@) is None,
{
    let mut builder = grep_regex::RegexMatcherBuilder::new();
    builder.case_insensitive(!case_sensitive);
    grep_matcher::Matcher::find(&builder.build_literals(&[needle]).ok()?, line).ok()?.map(|found| found.start())
}

/// The names of directories that are passed over.
pub open spec fn skipped_dirs() -> Seq<Seq<char>> {
    seq![
        ".git"@,
        "__pycache__"@,
        ".venv"@,
        "venv"@,
        "node_modules"@,
        ".mypy_cache"@,
        ".pytest_cache"@,
        ".ruff_cache"@,
        "target"@,
    ]
}

/// The extensions of files that are not searched.
pub open spec fn skipped_extensions() -> Seq<Seq<char>> {
    seq![
        "png"@,
        "jpg"@,
        "jpeg"@,
        "gif"@,
        "webp"@,
        "pdf"@,
        "zip"@,
        "gz"@,
        "xz"@,
        "bz2"@,
        "7z"@,
        "tar"@,
        "so"@,
        "dll"@,
        "dylib"@,
        "exe"@,
        "bin"@,
        "woff"@,
        "woff2"@,
        "ttf"@,
        "otf"@,
        "class"@,
        "jar"@,
    ]
}

/// Whether a directory of this name is passed over.
pub fn skip_dir(name: &str) -> (r: bool)
    ensures
        r == skipped_dirs().contains(name@),
{
    let names: Vec<&'static str> = vec![
        ".git",
        "__pycache__",
        ".venv",
        "venv",
        "node_modules",
        ".mypy_cache",
        ".pytest_cache",
        ".ruff_cache",
        "target",
    ];
    assert(str_views(names@) =~= skipped_dirs());
    among(name, &names)
}

/// Whether a file at `path` is not searched.
pub open spec fn unsearched(path: Seq<char>) -> bool {
    extension(path) matches Some(e) && skipped_extensions().contains(lowered(e))
}

/// Whether a file is not searched, by its extension.
pub fn skip_search_file(path: &str) -> (r: bool)
    ensures
        r == unsearched(path@),
{
    let names: Vec<&'static str> = vec![
        "png",
        "jpg",
        "jpeg",
        "gif",
        "webp",
        "pdf",
        "zip",
        "gz",
        "xz",
        "bz2",
        "7z",
        "tar",
        "so",
        "dll",
        "dylib",
        "exe",
        "bin",
        "woff",
        "woff2",
        "ttf",
        "otf",
        "class",
        "jar",
    ];
    assert(str_views(names@) =~= skipped_extensions());
    match extension_of(path) {
        Some(e) => among(&to_lower(&e), &names),
        None => false,
    }
}

/// What kind of thing a path names.
pub fn kind(is_dir: bool, is_file: bool, is_symlink: bool) -> (r: &'static str)
    ensures
        r@ == if is_dir {
            "dir"@
        } else if is_file {
            "file"@
        } else if is_symlink {
            "symlink"@
        } else {
            "other"@
        },
{
    if is_dir {
        "dir"
    } else if is_file {
        "file"
    } else if is_symlink {
        "symlink"
    } else {
        "other"
    }
}

/// A time of change as it is told.
pub open spec fn mtime_tree(t: Option<Timestamp>) -> Tree {
    match t {
        Some(t) => Tree::Text(formatted_time(t.secs, t.nanos, MTIME_LAYOUT@)),
        None => Tree::Null,
    }
}

fn mtime(t: Option<Timestamp>) -> (r: Json)
    ensures
        r@ == mtime_tree(t),
{
    match t {
        Some(t) => Json::Text(format_time(t, MTIME_LAYOUT)),
        None => Json::Null,
    }
}

pub open spec fn outside_paths(raw: Seq<char>) -> Fault {
    fault("path_not_allowed"@, "path "@ + debug_text(raw) + " is outside file_ops.paths"@)
}

/// A path that may be read.
pub open spec fn readable(policy: Policy, raw: Seq<char>, seen: Resolution) -> Result<Seq<char>, Fault> {
    match resolved(policy, raw, false, seen) {
        Some(p) => Ok(p),
        None => Err(outside_paths(raw)),
    }
}

pub open spec fn text_result(r: Result<String, HandlerError>) -> Result<Seq<char>, Fault> {
    match r {
        Ok(s) => Ok(s@),
        Err(e) => Err(e@),
    }
}

/// A path that may be read. `seen` is what the file system says of it.
pub fn resolve(policy: &Policy, raw: &str, seen: &Resolution) -> (r: Result<String, HandlerError>)
    ensures
        text_result(r) == readable(*policy, raw@, *seen),
{
    match policy.resolve_path(raw, false, seen) {
        Some(p) => Ok(p),
        None => Err(
            HandlerError::new("path_not_allowed", &cat3("path ", &quoted(raw), " is outside file_ops.paths")),
        ),
    }
}

/// Why a file cannot be used.
#[derive(Debug, Clone, Copy, PartialEq, Eq, Structural)]
pub enum AccessFault {
    NotFound,
    PermissionDenied,
    Other,
}

/// How it is told that a path cannot be used.
pub open spec fn access_fault(raw: Seq<char>, kind: AccessFault, error: Seq<char>) -> Fault {
    match kind {
        AccessFault::NotFound => fault("not_found"@, "path does not exist: "@ + debug_text(raw)),
        AccessFault::PermissionDenied => fault(
            "permission_denied"@,
            "cannot access "@ + debug_text(raw) + ": "@ + error,
        ),
        AccessFault::Other => fault("io_error"@, "cannot access "@ + debug_text(raw) + ": "@ + error),
    }
}

pub fn access_error(raw: &str, kind: AccessFault, error: &str) -> (r: HandlerError)
    ensures
        r@ == access_fault(raw@, kind, error@),
{
    match kind {
        AccessFault::NotFound => HandlerError::new("not_found", &cat2("path does not exist: ", &quoted(raw))),
        AccessFault::PermissionDenied => HandlerError::new(
            "permission_denied",
            &cat4("cannot access ", &quoted(raw), ": ", error),
        ),
        AccessFault::Other => HandlerError::new("io_error", &cat4("cannot access ", &quoted(raw), ": ", error)),
    }
}

/// How it is told that a file cannot be opened or read.
pub fn open_error(raw: &str, kind: AccessFault, error: &str) -> (r: HandlerError)
    ensures
        r@ == fault(
            if kind == AccessFault::PermissionDenied {
                "permission_denied"@
            } else {
                "io_error"@
            },
            "cannot read "@ + debug_text(raw@) + ": "@ + error@,
        ),
{
    let code = if kind == AccessFault::PermissionDenied {
        "permission_denied"
    } else {
        "io_error"
    };
    HandlerError::new(code, &cat4("cannot read ", &quoted(raw), ": ", error))
}

fn bad_payload(message: &str) -> (r: HandlerError)
    ensures
        r@ == fault("invalid_payload"@, message@),
{
    HandlerError::new("invalid_payload", message)
}

/// The range of lines in a payload: its first line, and its last where it has one.
pub open spec fn range_of(payload: Fields) -> Result<Option<(usize, Option<usize>)>, Fault> {
    match get(payload, "view_range"@) {
        None => Ok(None),
        Some(Tree::Array(items)) => if items.len() != 2 {
            Err(fault("invalid_payload"@, "view_range must be [start, end]"@))
        } else {
            match (as_integer(Some(items[0])), as_integer(Some(items[1]))) {
                (Some(a), Some(b)) => {
                    let start = if a < 1 {
                        1i64
                    } else {
                        a
                    };
                    Ok(
                        Some(
                            (
                                if start <= usize::MAX {
                                    start as usize
                                } else {
                                    1
                                },
                                if b == -1i64 {
                                    None
                                } else {
                                    let last = if b < start {
                                        start
                                    } else {
                                        b
                                    };
                                    Some(
                                        if last <= usize::MAX {
                                            last as usize
                                        } else if start <= usize::MAX {
                                            start as usize
                                        } else {
                                            1
                                        },
                                    )
                                },
                            ),
                        ),
                    )
                },
                _ => Err(fault("invalid_payload"@, "view_range values must be integers"@)),
            }
        },
        _ => Err(fault("invalid_payload"@, "view_range must be [start, end]"@)),
    }
}

fn integer_value(v: &Json) -> (r: Option<i64>)
    ensures
        r == as_integer(Some(v@)),
{
    match v {
        Json::Number(Number::Pos(n)) => if *n <= i64::MAX as u64 {
            Some(*n as i64)
        } else {
            None
        },
        Json::Number(Number::Neg(n)) => Some(*n),
        _ => None,
    }
}

pub fn parse_range(payload: &Object) -> (r: Result<Option<(usize, Option<usize>)>, HandlerError>)
    ensures
        match r {
            Ok(range) => range_of(fields(payload@)) == Ok::<Option<(usize, Option<usize>)>, Fault>(range),
            Err(e) => range_of(fields(payload@)) == Err::<Option<(usize, Option<usize>)>, Fault>(e@),
        },
{
    broadcast use group_json_views;

    let items = match field(payload, "view_range") {
        None => return Ok(None),
        Some(Json::Array(items)) => items,
        Some(_) => return Err(bad_payload("view_range must be [start, end]")),
    };
    assert(trees(items@).len() == items@.len());
    if items.len() != 2 {
        return Err(bad_payload("view_range must be [start, end]"));
    }
    assert(trees(items@)[0] == items@[0]@ && trees(items@)[1] == items@[1]@);
    let (a, b) = match (integer_value(&items[0]), integer_value(&items[1])) {
        (Some(a), Some(b)) => (a, b),
        _ => return Err(bad_payload("view_range values must be integers")),
    };
    let first: i64 = if a < 1 {
        1
    } else {
        a
    };
    let start = if first as u64 <= usize::MAX as u64 {
        first as usize
    } else {
        1
    };
    if b == -1 {
        return Ok(Some((start, None)));
    }
    let last: i64 = if b < first {
        first
    } else {
        b
    };
    let end = if last as u64 <= usize::MAX as u64 {
        last as usize
    } else {
        start
    };
    Ok(Some((start, Some(end))))
}

/// How much of a file is read, in bytes.
pub open spec fn read_cap(policy: Policy, payload: Fields) -> usize {
    match as_count(get(payload, "max_bytes"@)) {
        Some(n) => if 0 < n && n < policy.file_ops_max_read_bytes {
            n as usize
        } else {
            policy.file_ops_max_read_bytes
        },
        None => policy.file_ops_max_read_bytes,
    }
}

/// What is read of a file.
#[derive(Debug, Clone, Copy, PartialEq, Eq, Structural)]
pub struct ReadPlan {
    pub range: LineRange,
    /// Whether the request names a range of lines.
    pub ranged: bool,
}

/// What a request reads of a file.
pub open spec fn read_plan_of(policy: Policy, payload: Fields, raw: Seq<char>, is_dir: bool, is_file: bool) -> Result<
    ReadPlan,
    Fault,
> {
    if is_dir {
        Err(fault("is_directory"@, debug_text(raw) + " is a directory. Use list instead."@))
    } else if !is_file {
        Err(fault("invalid_payload"@, debug_text(raw) + " is not a regular file"@))
    } else {
        match range_of(payload) {
            Err(f) => Err(f),
            Ok(range) => {
                let (start, end) = match range {
                    Some(pair) => pair,
                    None => (1usize, None),
                };
                Ok(
                    ReadPlan {
                        range: LineRange { start, end, cap: read_cap(policy, payload) },
                        ranged: range is Some,
                    },
                )
            },
        }
    }
}

/// What a request reads of a file.
pub fn read_plan(policy: &Policy, payload: &Object, raw: &str, is_dir: bool, is_file: bool) -> (r: Result<ReadPlan, HandlerError>)
    ensures
        match r {
            Ok(p) => read_plan_of(*policy, fields(payload@), raw@, is_dir, is_file) == Ok::<ReadPlan, Fault>(p),
            Err(e) => read_plan_of(*policy, fields(payload@), raw@, is_dir, is_file) == Err::<ReadPlan, Fault>(e@),
        },
{
    if is_dir {
        return Err(HandlerError::new("is_directory", &cat2(&quoted(raw), " is a directory. Use list instead.")));
    }
    if !is_file {
        return Err(bad_payload(&cat2(&quoted(raw), " is not a regular file")));
    }
    let mut cap = policy.file_ops_max_read_bytes;
    if let Some(n) = count_field(payload, "max_bytes") {
        if 0 < n && n < cap as u64 {
            cap = n as usize;
        }
    }
    let range = match parse_range(payload) {
        Ok(range) => range,
        Err(e) => return Err(e),
    };
    let (start, end) = match range {
        Some(pair) => pair,
        None => (1, None),
    };
    Ok(ReadPlan { range: LineRange { start, end, cap }, ranged: range.is_some() })
}

/// How the bytes of a file make text.
#[derive(Debug, Clone, Copy, PartialEq, Eq, Structural)]
pub enum Encoding {
    Utf8,
    Utf16 { little_endian: bool },
    Binary,
}

/// How a file makes text, by its first bytes.
pub open spec fn encoding_of(probe: Seq<u8>) -> Encoding {
    if probe.len() >= 2 && probe[0] == 0xff && probe[1] == 0xfe {
        Encoding::Utf16 { little_endian: true }
    } else if probe.len() >= 2 && probe[0] == 0xfe && probe[1] == 0xff {
        Encoding::Utf16 { little_endian: false }
    } else if probe.contains(0u8) {
        Encoding::Binary
    } else {
        Encoding::Utf8
    }
}

/// Whether one of the bytes is zero.
pub fn has_zero(bytes: &[u8]) -> (r: bool)
    ensures
        r == bytes@.contains(0u8),
{
    let mut i: usize = 0;
    while i < bytes.len()
        invariant
            i <= bytes@.len(),
            forall|j: int| 0 <= j < i ==> #[trigger] bytes@[j] != 0,
        decreases bytes@.len() - i,
    {
        if bytes[i] == 0 {
            assert(bytes@[i as int] == 0u8);
            return true;
        }
        i = i + 1;
    }
    false
}

/// How a file makes text, by its first bytes.
pub fn detect_encoding(probe: &[u8]) -> (r: Encoding)
    ensures
        r == encoding_of(probe@),
{
    if probe.len() >= 2 && probe[0] == 0xff && probe[1] == 0xfe {
        return Encoding::Utf16 { little_endian: true };
    }
    if probe.len() >= 2 && probe[0] == 0xfe && probe[1] == 0xff {
        return Encoding::Utf16 { little_endian: false };
    }
    if has_zero(probe) {
        Encoding::Binary
    } else {
        Encoding::Utf8
    }
}

pub open spec fn first_bytes(probe: Seq<u8>) -> Seq<u8> {
    if probe.len() <= BINARY_PREVIEW {
        probe
    } else {
        probe.take(BINARY_PREVIEW as int)
    }
}

/// What is answered of a file that is no text.
pub fn binary_result(path: &str, size: u64, probe: &[u8], modified: Option<Timestamp>) -> (r: Object)
    ensures
        fields(r@) == binary_fields(path@, size, probe@, modified),
{
    let preview = if probe.len() <= BINARY_PREVIEW {
        hex_bytes(probe)
    } else {
        let head = slice_subrange(probe, 0, BINARY_PREVIEW);
        assert(head@ =~= probe@.take(BINARY_PREVIEW as int));
        hex_bytes(head)
    };
    let mut o = no_object();
    set_field(&mut o, "ok", Json::Bool(true));
    set_field(&mut o, "path", string(path));
    set_field(&mut o, "encoding", string("binary"));
    set_field(&mut o, "size_bytes", count(size));
    set_field(&mut o, "preview_hex", Json::Text(preview));
    set_field(&mut o, "modified_at", mtime(modified));
    set_field(&mut o, "truncated", Json::Bool(true));
    o
}

/// What is answered of a file that is no text.
pub open spec fn binary_fields(path: Seq<char>, size: u64, probe: Seq<u8>, modified: Option<Timestamp>) -> Fields {
    no_fields().with("ok"@, Tree::Bool(true)).with("path"@, Tree::Text(path)).with("encoding"@, Tree::Text("binary"@)).with(
        "size_bytes"@,
        Tree::Number(Num::Pos(size)),
    ).with("preview_hex"@, Tree::Text(hex(first_bytes(probe)))).with("modified_at"@, mtime_tree(modified)).with(
        "truncated"@,
        Tree::Bool(true),
    )
}

/// What is answered of a text file.
pub open spec fn read_fields(
    path: Seq<char>,
    utf16: bool,
    found: Scanned,
    size: u64,
    modified: Option<Timestamp>,
    plan: ReadPlan,
) -> Fields {
    let o = no_fields().with("ok"@, Tree::Bool(true)).with("path"@, Tree::Text(path)).with(
        "encoding"@,
        Tree::Text(
            if utf16 {
                "utf-16"@
            } else {
                "utf-8"@
            },
        ),
    ).with("content"@, Tree::Text(found.content@)).with("total_lines"@, Tree::Number(Num::Pos(found.total_lines as u64))).with(
        "total_lines_exact"@,
        Tree::Bool(found.total_exact),
    ).with("lines_returned"@, Tree::Number(Num::Pos(rows(found.content@).len() as u64))).with(
        "size_bytes"@,
        Tree::Number(Num::Pos(size)),
    ).with("truncated"@, Tree::Bool(found.truncated)).with("modified_at"@, mtime_tree(modified));
    if plan.ranged {
        o.with(
            "view_range"@,
            Tree::Array(
                seq![Tree::Number(Num::Pos(plan.range.start as u64)), Tree::Number(Num::Pos(found.last as u64))],
            ),
        )
    } else {
        o
    }
}

/// What is answered of a text file.
pub fn read_result(path: &str, utf16: bool, found: &Scanned, size: u64, modified: Option<Timestamp>, plan: &ReadPlan) -> (r: Object)
    ensures
        fields(r@) == read_fields(path@, utf16, *found, size, modified, *plan),
{
    broadcast use group_json_views;

    let encoding = if utf16 {
        "utf-16"
    } else {
        "utf-8"
    };
    let all = lines(&found.content);
    assert(crate::text::views(all@).len() == all@.len());
    let mut o = no_object();
    set_field(&mut o, "ok", Json::Bool(true));
    set_field(&mut o, "path", string(path));
    set_field(&mut o, "encoding", string(encoding));
    set_field(&mut o, "content", string(&found.content));
    set_field(&mut o, "total_lines", count(found.total_lines as u64));
    set_field(&mut o, "total_lines_exact", Json::Bool(found.total_exact));
    set_field(&mut o, "lines_returned", count(all.len() as u64));
    set_field(&mut o, "size_bytes", count(size));
    set_field(&mut o, "truncated", Json::Bool(found.truncated));
    set_field(&mut o, "modified_at", mtime(modified));
    if plan.ranged {
        let items: Vec<Json> = vec![count(plan.range.start as u64), count(found.last as u64)];
        assert(trees(items@) =~= seq![
            Tree::Number(Num::Pos(plan.range.start as u64)),
            Tree::Number(Num::Pos(found.last as u64)),
        ]);
        set_field(&mut o, "view_range", Json::Array(items));
    }
    o
}

/// The glob under `key`, where there is one.
pub open spec fn glob_of(payload: Fields, key: Seq<char>) -> Result<Option<Seq<char>>, Fault> {
    match get(payload, key) {
        None | Some(Tree::Null) => Ok(None),
        Some(Tree::Text(s)) => match glob_fault(s) {
            Some(e) => Err(fault("invalid_payload"@, "invalid "@ + key + ": "@ + e)),
            None => Ok(Some(s)),
        },
        _ => Err(fault("invalid_payload"@, key + " must be a string"@)),
    }
}

fn parse_glob(payload: &Object, key: &str) -> (r: Result<Option<String>, HandlerError>)
    ensures
        match r {
            Ok(g) => glob_of(fields(payload@), key@) == Ok::<Option<Seq<char>>, Fault>(opt_view(g)),
            Err(e) => glob_of(fields(payload@), key@) == Err::<Option<Seq<char>>, Fault>(e@),
        },
{
    match field(payload, key) {
        None | Some(Json::Null) => Ok(None),
        Some(Json::Text(s)) => match find_glob_fault(s) {
            Some(e) => Err(bad_payload(&cat4("invalid ", key, ": ", &e))),
            None => Ok(Some(s.clone())),
        },
        Some(_) => Err(bad_payload(&cat2(key, " must be a string"))),
    }
}

/// How a directory is listed.
pub struct ListPlan {
    pub depth: usize,
    pub hidden: bool,
    pub glob: Option<String>,
    pub cap: usize,
}

/// How a request lists a directory: how deep, whether with hidden names, and by
/// which glob.
pub open spec fn list_plan_of(payload: Fields, raw: Seq<char>, is_dir: bool) -> Result<(int, bool, Option<Seq<char>>), Fault> {
    if !is_dir {
        Err(fault("is_file"@, debug_text(raw) + " is not a directory. Use read instead."@))
    } else {
        match glob_of(payload, "glob"@) {
            Err(f) => Err(f),
            Ok(g) => Ok(
                (
                    match as_integer(get(payload, "depth"@)) {
                        Some(n) => if n < 1 {
                            1
                        } else if n > 5 {
                            5
                        } else {
                            n as int
                        },
                        None => 1,
                    },
                    as_flag(get(payload, "show_hidden"@)) == Some(true),
                    g,
                ),
            ),
        }
    }
}

/// How a request lists a directory.
pub fn list_plan(policy: &Policy, payload: &Object, raw: &str, is_dir: bool) -> (r: Result<ListPlan, HandlerError>)
    ensures
        match r {
            Ok(p) => list_plan_of(fields(payload@), raw@, is_dir) == Ok::<(int, bool, Option<Seq<char>>), Fault>(
                (p.depth as int, p.hidden, opt_view(p.glob)),
            ) && p.cap == policy.file_ops_max_list_entries,
            Err(e) => list_plan_of(fields(payload@), raw@, is_dir) == Err::<(int, bool, Option<Seq<char>>), Fault>(e@),
        },
{
    if !is_dir {
        return Err(HandlerError::new("is_file", &cat2(&quoted(raw), " is not a directory. Use read instead.")));
    }
    let depth: usize = match integer_field(payload, "depth") {
        Some(n) => if n < 1 {
            1
        } else if n > 5 {
            5
        } else {
            n as usize
        },
        None => 1,
    };
    let hidden = match flag_field(payload, "show_hidden") {
        Some(b) => b,
        None => false,
    };
    match parse_glob(payload, "glob") {
        Ok(glob) => Ok(ListPlan { depth, hidden, glob, cap: policy.file_ops_max_list_entries }),
        Err(e) => Err(e),
    }
}

/// Whether a name is looked at in a listing: noise is passed over, and hidden names
/// unless they are asked for.
pub open spec fn listable(name: Seq<char>, hidden: bool) -> bool {
    !skipped_dirs().contains(name) && (hidden || !prefixed(name, "."@))
}

/// Whether a name matches a glob, where there is one.
pub open spec fn accepted_name(glob: Option<Seq<char>>, name: Seq<char>) -> bool {
    match glob {
        Some(g) => glob_matches(g, name),
        None => true,
    }
}

fn accepts(glob: &Option<String>, name: &str) -> (r: bool)
    ensures
        r == accepted_name(opt_view(*glob), name@),
{
    match glob {
        Some(g) => glob_match(g, name),
        None => true,
    }
}

/// What a listing shows of a file.
pub struct Listed {
    pub name: String,
    pub kind: String,
    pub size: u64,
    pub modified: Option<Timestamp>,
}

pub open spec fn listed_tree(e: Listed) -> Tree {
    Tree::Object(
        no_fields().with("name"@, Tree::Text(e.name@)).with("type"@, Tree::Text(e.kind@)).with(
            "size"@,
            Tree::Number(Num::Pos(e.size)),
        ).with("mtime"@, mtime_tree(e.modified)),
    )
}

/// A listing as far as it came.
pub struct Listing {
    pub plan: ListPlan,
    pub entries: Vec<Json>,
    pub truncated: bool,
}

impl Listing {
    pub fn new(plan: ListPlan) -> (r: Self)
        ensures
            r.plan == plan,
            trees(r.entries@) == Seq::<Tree>::empty(),
            !r.truncated,
    {
        let r = Listing { plan, entries: Vec::new(), truncated: false };
        assert(trees(r.entries@) =~= Seq::empty());
        r
    }

    /// Whether a name is looked at, and its directory entered.
    pub fn enters(&self, name: &str) -> (r: bool)
        ensures
            r == listable(name@, self.plan.hidden),
    {
        !skip_dir(name) && (self.plan.hidden || !starts_with(name, "."))
    }

    /// Whether a name is listed.
    pub fn lists(&self, name: &str) -> (r: bool)
        ensures
            r == accepted_name(opt_view(self.plan.glob), name@),
    {
        accepts(&self.plan.glob, name)
    }

    /// Lists an entry, and says whether there is room for more.
    pub fn add_entry(&mut self, e: Listed) -> (r: bool)
        ensures
            final(self).plan == old(self).plan,
            trees(final(self).entries@) == trees(old(self).entries@).push(listed_tree(e)),
            final(self).truncated == (old(self).truncated || old(self).entries@.len() + 1 >= old(self).plan.cap),
            r == (old(self).entries@.len() + 1 < old(self).plan.cap),
    {
        let ghost before = trees(self.entries@);
        let mut o = no_object();
        set_field(&mut o, "name", string(&e.name));
        set_field(&mut o, "type", string(&e.kind));
        set_field(&mut o, "size", count(e.size));
        set_field(&mut o, "mtime", mtime(e.modified));
        proof {
            lemma_object_view(o);
        }
        self.entries.push(Json::Object(o));
        assert(trees(self.entries@) =~= before.push(listed_tree(e)));
        if self.entries.len() >= self.plan.cap {
            self.truncated = true;
            return false;
        }
        true
    }

    /// What is answered.
    pub fn result(self, root: &str) -> (r: Object)
        ensures
            fields(r@) == listing_fields(root@, trees(self.entries@), self.truncated),
    {
        broadcast use group_json_views;

        let mut o = no_object();
        set_field(&mut o, "ok", Json::Bool(true));
        set_field(&mut o, "path", string(root));
        let total = self.entries.len() as u64;
        set_field(&mut o, "entries", Json::Array(self.entries));
        set_field(&mut o, "total", count(total));
        set_field(&mut o, "truncated", Json::Bool(self.truncated));
        o
    }
}

/// What is answered to a request for a listing.
pub open spec fn listing_fields(root: Seq<char>, entries: Seq<Tree>, truncated: bool) -> Fields {
    no_fields().with("ok"@, Tree::Bool(true)).with("path"@, Tree::Text(root)).with("entries"@, Tree::Array(entries)).with(
        "total"@,
        Tree::Number(Num::Pos(entries.len() as u64)),
    ).with("truncated"@, Tree::Bool(truncated))
}

/// What is answered to a request for a search.
pub open spec fn search_fields(
    root: Seq<char>,
    needle: Seq<char>,
    hits: Seq<Tree>,
    files_searched: u64,
    truncated: bool,
) -> Fields {
    no_fields().with("ok"@, Tree::Bool(true)).with("path"@, Tree::Text(root)).with("pattern"@, Tree::Text(needle)).with(
        "matches"@,
        Tree::Array(hits),
    ).with("files_searched"@, Tree::Number(Num::Pos(files_searched))).with("truncated"@, Tree::Bool(truncated))
}

/// What is searched for, and how.
pub struct SearchPlan {
    pub needle: String,
    pub case_sensitive: bool,
    pub is_regex: bool,
    pub glob: Option<String>,
    pub cap: usize,
}

/// What a `SearchPlan` says.
pub struct Sought {
    pub needle: Seq<char>,
    pub case_sensitive: bool,
    pub is_regex: bool,
    pub glob: Option<Seq<char>>,
    pub cap: int,
}

impl View for SearchPlan {
    type V = Sought;

    open spec fn view(&self) -> Sought {
        Sought {
            needle: self.needle@,
            case_sensitive: self.case_sensitive,
            is_regex: self.is_regex,
            glob: opt_view(self.glob),
            cap: self.cap as int,
        }
    }
}

/// What is wrong with what is searched for.
pub open spec fn needle_fault(needle: Seq<char>, case_sensitive: bool, is_regex: bool) -> Option<Seq<char>> {
    if is_regex {
        match expression_fault(needle, case_sensitive) {
            Some(e) => Some("pattern is not a valid regex: "@ + e),
            None => None,
        }
    } else {
        match literal_fault(needle, case_sensitive) {
            Some(e) => Some("pattern could not be compiled: "@ + e),
            None => None,
        }
    }
}

/// How many matches are told.
pub open spec fn search_cap(policy: Policy, payload: Fields) -> int {
    match as_count(get(payload, "max_results"@)) {
        Some(n) => if 0 < n && n < policy.file_ops_max_search_results {
            n as int
        } else {
            policy.file_ops_max_search_results as int
        },
        None => policy.file_ops_max_search_results as int,
    }
}

/// What a request searches for.
pub open spec fn search_plan_of(policy: Policy, payload: Fields, needle: Seq<char>) -> Result<Sought, Fault> {
    let case_sensitive = as_flag(get(payload, "case_sensitive"@)) == Some(true);
    let is_regex = as_flag(get(payload, "regex"@)) == Some(true);
    match glob_of(payload, "file_glob"@) {
        Err(f) => Err(f),
        Ok(glob) => match needle_fault(needle, case_sensitive, is_regex) {
            Some(e) => Err(fault("invalid_payload"@, e)),
            None => Ok(Sought { needle, case_sensitive, is_regex, glob, cap: search_cap(policy, payload) }),
        },
    }
}

fn check_needle(needle: &str, case_sensitive: bool, is_regex: bool) -> (r: Option<String>)
    ensures
        opt_view(r) == needle_fault(needle@, case_sensitive, is_regex),
{
    if is_regex {
        match find_expression_fault(needle, case_sensitive) {
            Some(e) => Some(cat2("pattern is not a valid regex: ", &e)),
            None => None,
        }
    } else {
        match find_literal_fault(needle, case_sensitive) {
            Some(e) => Some(cat2("pattern could not be compiled: ", &e)),
            None => None,
        }
    }
}

/// What a request searches for.
pub fn search_plan(policy: &Policy, payload: &Object, needle: &str) -> (r: Result<SearchPlan, HandlerError>)
    ensures
        match r {
            Ok(p) => search_plan_of(*policy, fields(payload@), needle@) == Ok::<Sought, Fault>(p@),
            Err(e) => search_plan_of(*policy, fields(payload@), needle@) == Err::<Sought, Fault>(e@),
        },
{
    let case_sensitive = read_flag(payload, "case_sensitive");
    let is_regex = read_flag(payload, "regex");
    let glob = match parse_glob(payload, "file_glob") {
        Ok(g) => g,
        Err(e) => return Err(e),
    };
    let mut cap = policy.file_ops_max_search_results;
    if let Some(n) = count_field(payload, "max_results") {
        if 0 < n && n < cap as u64 {
            cap = n as usize;
        }
    }
    match check_needle(needle, case_sensitive, is_regex) {
        Some(e) => Err(bad_payload(&e)),
        None => Ok(SearchPlan { needle: needle.to_owned(), case_sensitive, is_regex, glob, cap }),
    }
}

/// Where what is sought first stands in a line.
pub open spec fn hit(q: Sought, line: Seq<u8>) -> Option<int> {
    if q.is_regex {
        expression_match(q.needle, q.case_sensitive, line)
    } else {
        literal_match(q.needle, q.case_sensitive, line)
    }
}

/// A line as it is shown: trimmed, and cut with an ellipsis.
pub open spec fn preview(line: Seq<char>) -> Seq<char> {
    let t = trimmed(line);
    if t.len() > PREVIEW_CHARS {
        t.take(PREVIEW_CHARS as int) + "…"@
    } else {
        t
    }
}

fn preview_text(line: &str) -> (r: String)
    ensures
        r@ == preview(line@),
{
    let t = trim(line);
    let chars = chars_of(&t);
    if chars.len() > PREVIEW_CHARS {
        let head = crate::text::slice_text(&chars, 0, PREVIEW_CHARS);
        assert(head@ =~= t@.take(PREVIEW_CHARS as int));
        cat2(&head, "…")
    } else {
        t
    }
}

/// The column of the byte at `k`; columns count from one.
pub open spec fn column_of(k: int) -> u64 {
    if k < usize::MAX {
        (k + 1) as u64
    } else {
        u64::MAX
    }
}

/// A match as it is told.
pub open spec fn match_tree(file: Seq<char>, line_number: u64, column: u64, line: Seq<char>) -> Tree {
    Tree::Object(
        no_fields().with("file"@, Tree::Text(file)).with("line"@, Tree::Number(Num::Pos(line_number))).with(
            "column"@,
            Tree::Number(Num::Pos(column)),
        ).with("text"@, Tree::Text(preview(line))),
    )
}

/// What a line adds to the matches: nothing where it is no text or nothing that is
/// sought stands in it.
pub open spec fn line_hit(q: Sought, file: Seq<char>, line_number: u64, line: Seq<u8>) -> Option<Tree> {
    if !vstd::utf8::valid_utf8(line) {
        None
    } else {
        match hit(q, line) {
            Some(k) => Some(match_tree(file, line_number, column_of(k), vstd::utf8::decode_utf8(line))),
            None => None,
        }
    }
}

/// The matches once a line has been looked at, and whether lines are still looked at.
pub open spec fn line_taken(q: Sought, hits: Seq<Tree>, file: Seq<char>, number: u64, line: Seq<u8>) -> (Seq<Tree>, bool) {
    match line_hit(q, file, number, line) {
        Some(t) => (hits.push(t), hits.len() + 1 < q.cap),
        None => (hits, true),
    }
}

/// Whether a search goes on after a file.
pub open spec fn room_left(q: Sought, hits: Seq<Tree>) -> bool {
    hits.len() < q.cap
}

/// A step of a search: a line of a file, or the end of a file.
pub enum SearchStep {
    Line(Seq<char>, u64, Seq<u8>),
    End,
}

/// How far a search has come. It is held where no more lines of a file are wanted, and
/// truncated where no more files are.
pub struct SearchState {
    pub hits: Seq<Tree>,
    pub held: bool,
    pub truncated: bool,
}

/// A search before its first step.
pub open spec fn search_start() -> SearchState {
    SearchState { hits: Seq::empty(), held: false, truncated: false }
}

/// A search after one more step.
pub open spec fn search_stepped(q: Sought, s: SearchState, step: SearchStep) -> SearchState {
    if s.truncated {
        s
    } else {
        match step {
            SearchStep::Line(file, number, line) => if s.held {
                s
            } else {
                let (hits, more) = line_taken(q, s.hits, file, number, line);
                SearchState { hits, held: !more, truncated: false }
            },
            SearchStep::End => SearchState { hits: s.hits, held: false, truncated: !room_left(q, s.hits) },
        }
    }
}

/// A search after all of its steps.
pub open spec fn searched(q: Sought, steps: Seq<SearchStep>) -> SearchState
    decreases steps.len(),
{
    if steps.len() == 0 {
        search_start()
    } else {
        search_stepped(q, searched(q, steps.drop_last()), steps.last())
    }
}

/// Over a whole search the matches stay within the bound, and those found in fewer
/// steps stay. Once the last file has ended, the search is truncated exactly where the
/// matches reach the bound.
pub proof fn searches_stay_within_the_bound(q: Sought, steps: Seq<SearchStep>)
    requires
        q.cap >= 1,
    ensures
        searched(q, steps).hits.len() <= q.cap,
        searched(q, steps).truncated ==> !searched(q, steps).held,
        !searched(q, steps).held ==> (searched(q, steps).truncated <==> searched(q, steps).hits.len() == q.cap),
        steps.len() > 0 && steps.last() is End ==> !searched(q, steps).held,
        steps.len() > 0 ==> searched(q, steps.drop_last()).hits.is_prefix_of(searched(q, steps).hits),
    decreases steps.len(),
{
    if steps.len() > 0 {
        searches_stay_within_the_bound(q, steps.drop_last());
    }
}


/// A search as far as it came.
pub struct Search {
    pub plan: SearchPlan,
    pub matches: Vec<Json>,
    pub files_searched: u64,
    pub truncated: bool,
}

/// Whether a search goes into what lies in a directory: into every file, and into
/// every directory but the skipped ones.
pub fn enters(name: &str, is_dir: bool) -> (r: bool)
    ensures
        r == !(is_dir && skipped_dirs().contains(name@)),
{
    !is_dir || !skip_dir(name)
}

impl Search {
    pub fn new(plan: SearchPlan) -> (r: Self)
        ensures
            r.plan == plan,
            trees(r.matches@) == Seq::<Tree>::empty(),
            r.files_searched == 0,
            !r.truncated,
    {
        let r = Search { plan, matches: Vec::new(), files_searched: 0, truncated: false };
        assert(trees(r.matches@) =~= Seq::empty());
        r
    }

    /// Whether a file is searched, by its path and its name.
    pub fn searches(&self, path: &str, name: &str) -> (r: bool)
        ensures
            r == (!unsearched(path@) && accepted_name(self.plan@.glob, name@)),
    {
        !skip_search_file(path) && accepts(&self.plan.glob, name)
    }

    /// Begins with a file, unless its first bytes say that it is no text.
    pub fn begin_file(&mut self, probe: &[u8]) -> (r: bool)
        requires
            old(self).files_searched < u64::MAX,
        ensures
            r == !probe@.contains(0u8),
            final(self).files_searched == old(self).files_searched + if r {
                1int
            } else {
                0int
            },
            final(self).plan == old(self).plan,
            final(self).matches == old(self).matches,
            final(self).truncated == old(self).truncated,
    {
        if has_zero(probe) {
            return false;
        }
        self.files_searched = self.files_searched + 1;
        true
    }

    /// Looks at a line, and says whether there is room for more matches.
    pub fn take_line(&mut self, file: &str, line_number: u64, line: &[u8]) -> (r: bool)
        ensures
            final(self).plan == old(self).plan,
            final(self).files_searched == old(self).files_searched,
            final(self).truncated == old(self).truncated,
            (trees(final(self).matches@), r) == line_taken(
                old(self).plan@,
                trees(old(self).matches@),
                file@,
                line_number,
                line@,
            ),
    {
        let text = match from_utf8(line) {
            Ok(t) => t,
            Err(_) => return true,
        };
        let found = if self.plan.is_regex {
            find_expression(&self.plan.needle, self.plan.case_sensitive, line)
        } else {
            find_literal(&self.plan.needle, self.plan.case_sensitive, line)
        };
        let start = match found {
            Some(k) => k,
            None => return true,
        };
        let ghost before = trees(self.matches@);
        let mut o = no_object();
        set_field(&mut o, "file", string(file));
        set_field(&mut o, "line", count(line_number));
        let column: u64 = if start < usize::MAX {
            start as u64 + 1
        } else {
            u64::MAX
        };
        set_field(&mut o, "column", count(column));
        set_field(&mut o, "text", Json::Text(preview_text(&text)));
        proof {
            lemma_object_view(o);
        }
        self.matches.push(Json::Object(o));
        assert(trees(self.matches@) =~= before.push(match_tree(file@, line_number, column, text@)));
        self.matches.len() < self.plan.cap
    }

    /// Ends with a file, and says whether there is room for more matches.
    pub fn end_file(&mut self) -> (r: bool)
        ensures
            r == room_left(old(self).plan@, trees(old(self).matches@)),
            final(self).truncated == (old(self).truncated || !r),
            final(self).plan == old(self).plan,
            final(self).matches == old(self).matches,
            final(self).files_searched == old(self).files_searched,
    {
        if self.matches.len() >= self.plan.cap {
            self.truncated = true;
            return false;
        }
        true
    }

    /// What is answered.
    pub fn result(self, root: &str) -> (r: Object)
        ensures
            fields(r@) == search_fields(root@, self.plan@.needle, trees(self.matches@), self.files_searched, self.truncated),
    {
        broadcast use group_json_views;

        let mut o = no_object();
        set_field(&mut o, "ok", Json::Bool(true));
        set_field(&mut o, "path", string(root));
        set_field(&mut o, "pattern", string(&self.plan.needle));
        set_field(&mut o, "matches", Json::Array(self.matches));
        set_field(&mut o, "files_searched", count(self.files_searched));
        set_field(&mut o, "truncated", Json::Bool(self.truncated));
        o
    }
}

/// The name of the one file that is searched: its last component, or what the
/// request calls it.
pub fn file_label(root: &str, raw: &str) -> (r: String)
    ensures
        r@ == match file_name(root@) {
            Some(n) => n,
            None => raw@,
        },
{
    match file_name_of(root) {
        Some(n) => n,
        None => raw.to_owned(),
    }
}

/// A line adds a match exactly where it is text and what is sought stands in it, with
/// regard to case where the plan says so: for a regular expression as for a literal.
pub proof fn lines_are_matched_as_planned(q: Sought, file: Seq<char>, number: u64, line: Seq<u8>)
    ensures
        q.is_regex ==> (line_hit(q, file, number, line) is Some <==> vstd::utf8::valid_utf8(line) && expression_match(
            q.needle,
            q.case_sensitive,
            line,
        ) is Some),
        !q.is_regex ==> (line_hit(q, file, number, line) is Some <==> vstd::utf8::valid_utf8(line) && literal_match(
            q.needle,
            q.case_sensitive,
            line,
        ) is Some),
{
}

/// A search has regard to case, and takes its pattern as a regular expression, exactly
/// where the request says so; it looks for the pattern itself, and keeps no more
/// matches than the policy allows.
pub proof fn searches_are_as_asked_for(policy: Policy, payload: Fields, needle: Seq<char>)
    ensures
        search_plan_of(policy, payload, needle) matches Ok(q) ==> {
            &&& q.needle == needle
            &&& q.case_sensitive <==> get(payload, "case_sensitive"@) == Some(Tree::Bool(true))
            &&& q.is_regex <==> get(payload, "regex"@) == Some(Tree::Bool(true))
            &&& q.cap <= policy.file_ops_max_search_results
            &&& (get(payload, "max_results"@) matches Some(Tree::Number(Num::Pos(n))) && 0 < n
                <= policy.file_ops_max_search_results) ==> q.cap == get(payload, "max_results"@)->0->Number_0->Pos_0
            &&& get(payload, "max_results"@) is None ==> q.cap == policy.file_ops_max_search_results
            &&& get(payload, "file_glob"@) matches Some(Tree::Text(g)) ==> q.glob == Some(g)
            &&& get(payload, "file_glob"@) is None ==> q.glob is None
        },
{
}

/// A match tells the file, the number of the line, the column at which what is sought
/// begins, counted from one, and the line without the white space around it.
pub proof fn matches_tell_where_they_are(q: Sought, file: Seq<char>, number: u64, line: Seq<u8>)
    requires
        line_hit(q, file, number, line) is Some,
    ensures
        line_hit(q, file, number, line) matches Some(Tree::Object(m)) && {
            let at = if q.is_regex {
                expression_match(q.needle, q.case_sensitive, line)->0
            } else {
                literal_match(q.needle, q.case_sensitive, line)->0
            };
            let shown = trimmed(vstd::utf8::decode_utf8(line));
            &&& get(m, "file"@) == Some(Tree::Text(file))
            &&& get(m, "line"@) == Some(Tree::Number(Num::Pos(number)))
            &&& 0 <= at < usize::MAX ==> get(m, "column"@) == Some(Tree::Number(Num::Pos((at + 1) as u64)))
            &&& get(m, "text"@) matches Some(Tree::Text(t)) && if shown.len() <= PREVIEW_CHARS {
                t == shown
            } else {
                t == shown.take(PREVIEW_CHARS as int).push('…')
            }
        },
{
    broadcast use lemma_get_put;

    reveal_strlit("file");
    reveal_strlit("line");
    reveal_strlit("column");
    reveal_strlit("text");
    assert("file"@.len() == 4 && "line"@.len() == 4 && "column"@.len() == 6 && "text"@.len() == 4 && "file"@[0] == 'f'
        && "line"@[0] == 'l' && "text"@[0] == 't');
    reveal_strlit("…");
    let shown = trimmed(vstd::utf8::decode_utf8(line));
    assert(shown.take(PREVIEW_CHARS as int) + "…"@ =~= shown.take(PREVIEW_CHARS as int).push('…'));
}

/// The answer to a search holds the matches, how many files were searched, and whether
/// the search ended early.
pub proof fn searches_are_told(root: Seq<char>, needle: Seq<char>, hits: Seq<Tree>, files: u64, truncated: bool)
    ensures
        ({
            let r = search_fields(root, needle, hits, files, truncated);
            &&& get(r, "ok"@) == Some(Tree::Bool(true))
            &&& get(r, "path"@) == Some(Tree::Text(root))
            &&& get(r, "pattern"@) == Some(Tree::Text(needle))
            &&& get(r, "matches"@) == Some(Tree::Array(hits))
            &&& get(r, "files_searched"@) == Some(Tree::Number(Num::Pos(files)))
            &&& get(r, "truncated"@) == Some(Tree::Bool(truncated))
        }),
{
    broadcast use lemma_get_put;

    reveal_strlit("ok");
    reveal_strlit("path");
    reveal_strlit("pattern");
    reveal_strlit("matches");
    reveal_strlit("files_searched");
    reveal_strlit("truncated");
    assert("ok"@.len() == 2 && "path"@.len() == 4 && "pattern"@.len() == 7 && "matches"@.len() == 7
        && "files_searched"@.len() == 14 && "truncated"@.len() == 9 && "pattern"@[0] == 'p' && "matches"@[0] == 'm');
}

/// The answer to a request for a listing holds the entries and their number.
pub proof fn listings_are_told(root: Seq<char>, entries: Seq<Tree>, truncated: bool)
    ensures
        ({
            let r = listing_fields(root, entries, truncated);
            &&& get(r, "ok"@) == Some(Tree::Bool(true))
            &&& get(r, "path"@) == Some(Tree::Text(root))
            &&& get(r, "entries"@) == Some(Tree::Array(entries))
            &&& get(r, "total"@) == Some(Tree::Number(Num::Pos(entries.len() as u64)))
            &&& get(r, "truncated"@) == Some(Tree::Bool(truncated))
        }),
{
    broadcast use lemma_get_put;

    reveal_strlit("ok");
    reveal_strlit("path");
    reveal_strlit("entries");
    reveal_strlit("total");
    reveal_strlit("truncated");
    assert("ok"@.len() == 2 && "path"@.len() == 4 && "entries"@.len() == 7 && "total"@.len() == 5
        && "truncated"@.len() == 9);
}

/// An entry of a listing holds the name, the kind, the size and the time of change.
pub proof fn entries_are_told(e: Listed)
    ensures
        listed_tree(e) matches Tree::Object(r) && {
            &&& get(r, "name"@) == Some(Tree::Text(e.name@))
            &&& get(r, "type"@) == Some(Tree::Text(e.kind@))
            &&& get(r, "size"@) == Some(Tree::Number(Num::Pos(e.size)))
            &&& get(r, "mtime"@) == Some(
                match e.modified {
                    Some(t) => Tree::Text(formatted_time(t.secs, t.nanos, "%Y-%m-%dT%H:%M:%S+0000"@)),
                    None => Tree::Null,
                },
            )
        },
{
    broadcast use lemma_get_put;

    reveal_strlit("name");
    reveal_strlit("type");
    reveal_strlit("size");
    reveal_strlit("mtime");
    assert("name"@.len() == 4 && "type"@.len() == 4 && "size"@.len() == 4 && "mtime"@.len() == 5 && "name"@[0] == 'n'
        && "type"@[0] == 't' && "size"@[0] == 's');
}

/// A listing goes as deep as the request says, one to five levels, shows hidden names
/// only where it says so, and takes its glob.
pub proof fn listings_are_as_asked_for(payload: Fields, raw: Seq<char>, is_dir: bool)
    ensures
        !is_dir ==> (list_plan_of(payload, raw, is_dir) matches Err(f) && f.code == "is_file"@),
        list_plan_of(payload, raw, is_dir) matches Ok((depth, hidden, glob)) ==> {
            &&& is_dir
            &&& 1 <= depth <= 5
            &&& (get(payload, "depth"@) matches Some(Tree::Number(Num::Pos(n))) && 1 <= n <= 5) ==> depth == get(
                payload,
                "depth"@,
            )->0->Number_0->Pos_0
            &&& get(payload, "depth"@) is None ==> depth == 1
            &&& hidden <==> get(payload, "show_hidden"@) == Some(Tree::Bool(true))
            &&& get(payload, "glob"@) matches Some(Tree::Text(g)) ==> glob == Some(g)
            &&& get(payload, "glob"@) is None ==> glob is None
        },
{
}

/// Hidden names are listed only where they are asked for, and some directories are never
/// gone into.
pub proof fn hidden_names_are_left_out(name: Seq<char>, hidden: bool)
    ensures
        listable(name, hidden) ==> hidden || name.len() == 0 || name[0] != '.',
        name.len() > 0 && name[0] != '.' && !skipped_dirs().contains(name) ==> listable(name, hidden),
        !listable(".git"@, hidden) && !listable("node_modules"@, hidden) && !listable("target"@, hidden),
{
    reveal_strlit(".");
    assert("."@ =~= seq!['.']);
    if name.len() > 0 {
        assert(name.take(1) =~= seq![name[0]]);
        assert(name.take(1)[0] == name[0] && "."@[0] == '.');
    }
    assert(skipped_dirs()[0] == ".git"@ && skipped_dirs()[4] == "node_modules"@ && skipped_dirs()[8] == "target"@);
}

/// A request for lines of a file reads from its first to its last line, to the end of
/// the file where the last is -1, and else the whole file.
pub proof fn lines_are_as_asked_for(policy: Policy, payload: Fields, raw: Seq<char>, from: u32, to: u32)
    requires
        1 <= from <= to,
    ensures
        get(payload, "view_range"@) == Some(
            Tree::Array(seq![Tree::Number(Num::Pos(from as u64)), Tree::Number(Num::Pos(to as u64))]),
        ) ==> (read_plan_of(policy, payload, raw, false, true) matches Ok(p) && p.ranged && p.range.start == from
            && p.range.end == Some(to as usize)),
        get(payload, "view_range"@) == Some(
            Tree::Array(seq![Tree::Number(Num::Pos(from as u64)), Tree::Number(Num::Neg(-1i64))]),
        ) ==> (read_plan_of(policy, payload, raw, false, true) matches Ok(p) && p.ranged && p.range.start == from
            && p.range.end is None),
        get(payload, "view_range"@) is None ==> (read_plan_of(policy, payload, raw, false, true) matches Ok(p) && !p.ranged
            && p.range.start == 1 && p.range.end is None),
        read_plan_of(policy, payload, raw, true, false) matches Err(f) && f.code == "is_directory"@,
        read_plan_of(policy, payload, raw, false, false) is Err,
{
    let both = seq![Tree::Number(Num::Pos(from as u64)), Tree::Number(Num::Pos(to as u64))];
    let open = seq![Tree::Number(Num::Pos(from as u64)), Tree::Number(Num::Neg(-1i64))];
    assert(both.len() == 2 && both[0] == Tree::Number(Num::Pos(from as u64)) && both[1] == Tree::Number(Num::Pos(to as u64)));
    assert(open.len() == 2 && open[0] == Tree::Number(Num::Pos(from as u64)) && open[1] == Tree::Number(Num::Neg(-1i64)));
}

/// No more of a file is read than the policy allows, and no more than is asked for.
pub proof fn reads_stay_within_the_bound(policy: Policy, payload: Fields, raw: Seq<char>)
    ensures
        read_plan_of(policy, payload, raw, false, true) matches Ok(p) ==> {
            &&& p.range.cap <= policy.file_ops_max_read_bytes
            &&& (get(payload, "max_bytes"@) matches Some(Tree::Number(Num::Pos(n))) && 0 < n
                <= policy.file_ops_max_read_bytes) ==> p.range.cap == get(payload, "max_bytes"@)->0->Number_0->Pos_0
            &&& get(payload, "max_bytes"@) is None ==> p.range.cap == policy.file_ops_max_read_bytes
        },
{
}

/// What is answered of a text file holds its text, how many lines that and the file
/// have, the size, and whether the text was cut.
pub proof fn read_files_are_told(
    path: Seq<char>,
    utf16: bool,
    found: Scanned,
    size: u64,
    modified: Option<Timestamp>,
    plan: ReadPlan,
)
    ensures
        ({
            let r = read_fields(path, utf16, found, size, modified, plan);
            &&& get(r, "ok"@) == Some(Tree::Bool(true))
            &&& get(r, "path"@) == Some(Tree::Text(path))
            &&& get(r, "encoding"@) == Some(
                Tree::Text(
                    if utf16 {
                        "utf-16"@
                    } else {
                        "utf-8"@
                    },
                ),
            )
            &&& get(r, "content"@) == Some(Tree::Text(found.content@))
            &&& get(r, "total_lines"@) == Some(Tree::Number(Num::Pos(found.total_lines as u64)))
            &&& get(r, "total_lines_exact"@) == Some(Tree::Bool(found.total_exact))
            &&& get(r, "lines_returned"@) == Some(Tree::Number(Num::Pos(rows(found.content@).len() as u64)))
            &&& get(r, "size_bytes"@) == Some(Tree::Number(Num::Pos(size)))
            &&& get(r, "truncated"@) == Some(Tree::Bool(found.truncated))
            &&& get(r, "view_range"@) == if plan.ranged {
                Some(
                    Tree::Array(
                        seq![Tree::Number(Num::Pos(plan.range.start as u64)), Tree::Number(Num::Pos(found.last as u64))],
                    ),
                )
            } else {
                None
            }
        }),
{
    broadcast use lemma_get_put;

    reveal_strlit("ok");
    reveal_strlit("path");
    reveal_strlit("encoding");
    reveal_strlit("content");
    reveal_strlit("total_lines");
    reveal_strlit("total_lines_exact");
    reveal_strlit("lines_returned");
    reveal_strlit("size_bytes");
    reveal_strlit("truncated");
    reveal_strlit("modified_at");
    reveal_strlit("view_range");
    assert("ok"@.len() == 2 && "path"@.len() == 4 && "encoding"@.len() == 8 && "content"@.len() == 7
        && "total_lines"@.len() == 11 && "total_lines_exact"@.len() == 17 && "lines_returned"@.len() == 14
        && "size_bytes"@.len() == 10 && "truncated"@.len() == 9 && "modified_at"@.len() == 11
        && "view_range"@.len() == 10 && "total_lines"@[0] == 't' && "modified_at"@[0] == 'm'
        && "size_bytes"@[0] == 's' && "view_range"@[0] == 'v');
}

/// What is answered of a file that is no text holds its size and its first bytes.
pub proof fn binary_files_are_told(path: Seq<char>, size: u64, probe: Seq<u8>, modified: Option<Timestamp>)
    ensures
        ({
            let r = binary_fields(path, size, probe, modified);
            &&& get(r, "ok"@) == Some(Tree::Bool(true))
            &&& get(r, "path"@) == Some(Tree::Text(path))
            &&& get(r, "encoding"@) == Some(Tree::Text("binary"@))
            &&& get(r, "size_bytes"@) == Some(Tree::Number(Num::Pos(size)))
            &&& get(r, "truncated"@) == Some(Tree::Bool(true))
            &&& get(r, "content"@) is None
            &&& probe.len() <= 256 ==> get(r, "preview_hex"@) == Some(Tree::Text(hex(probe)))
            &&& probe.len() > 256 ==> get(r, "preview_hex"@) == Some(Tree::Text(hex(probe.take(256))))
        }),
{
    broadcast use lemma_get_put;

    reveal_strlit("ok");
    reveal_strlit("path");
    reveal_strlit("encoding");
    reveal_strlit("size_bytes");
    reveal_strlit("preview_hex");
    reveal_strlit("modified_at");
    reveal_strlit("truncated");
    reveal_strlit("content");
    assert("ok"@.len() == 2 && "path"@.len() == 4 && "encoding"@.len() == 8 && "size_bytes"@.len() == 10
        && "preview_hex"@.len() == 11 && "modified_at"@.len() == 11 && "truncated"@.len() == 9
        && "content"@.len() == 7 && "preview_hex"@[0] == 'p' && "modified_at"@[0] == 'm');
}

/// A file that begins with a byte order mark is UTF-16 in that order; any other is text
/// unless one of its first bytes is zero.
pub proof fn encodings_are_known_by_their_marks(rest: Seq<u8>)
    ensures
        encoding_of(seq![0xffu8, 0xfeu8] + rest) == (Encoding::Utf16 { little_endian: true }),
        encoding_of(seq![0xfeu8, 0xffu8] + rest) == (Encoding::Utf16 { little_endian: false }),
        (rest.len() < 2 || rest[0] < 0xfe) ==> (encoding_of(rest) is Binary <==> rest.contains(0u8)),
        (rest.len() < 2 || rest[0] < 0xfe) && !rest.contains(0u8) ==> encoding_of(rest) is Utf8,
{
    let a = seq![0xffu8, 0xfeu8] + rest;
    let b = seq![0xfeu8, 0xffu8] + rest;
    assert(a[0] == 0xff && a[1] == 0xfe && b[0] == 0xfe && b[1] == 0xff);
}

/// A path outside the policy is refused, and what the host does not let through is told
/// apart from what is not there.
pub proof fn refusals_are_told_apart(policy: Policy, raw: Seq<char>, seen: Resolution, error: Seq<char>)
    ensures
        readable(policy, raw, seen) matches Ok(p) ==> resolved(policy, raw, false, seen) == Some(p),
        resolved(policy, raw, false, seen) is None ==> (readable(policy, raw, seen) matches Err(f) && f.code
            == "path_not_allowed"@),
        access_fault(raw, AccessFault::NotFound, error).code == "not_found"@,
        access_fault(raw, AccessFault::PermissionDenied, error).code == "permission_denied"@,
        access_fault(raw, AccessFault::Other, error).code == "io_error"@,
        suffixed(access_fault(raw, AccessFault::PermissionDenied, error).message, error),
{
    let m = access_fault(raw, AccessFault::PermissionDenied, error).message;
    assert(m.skip(m.len() - error.len()) =~= error);
}

/// A search takes a line only while there is room, and tells that it is cut where there is
/// none left.
pub proof fn searches_end_where_they_are_full(q: Sought, s: SearchState, file: Seq<char>, number: u64, line: Seq<u8>)
    requires
        !s.truncated,
    ensures
        search_stepped(q, s, SearchStep::End).truncated <==> s.hits.len() >= q.cap,
        search_stepped(q, s, SearchStep::End).hits == s.hits,
        s.held ==> search_stepped(q, s, SearchStep::Line(file, number, line)) == s,
        !s.held ==> (match line_hit(q, file, number, line) {
            Some(t) => search_stepped(q, s, SearchStep::Line(file, number, line)).hits == s.hits.push(t) && (search_stepped(
                q,
                s,
                SearchStep::Line(file, number, line),
            ).held <==> s.hits.len() + 1 >= q.cap),
            None => search_stepped(q, s, SearchStep::Line(file, number, line)) == s,
        }),
{
}

/// A line is shown without the white space around it, and a long one cut.
pub proof fn long_lines_are_cut(line: Seq<char>)
    ensures
        trimmed(line).len() <= PREVIEW_CHARS ==> preview(line) == trimmed(line),
        trimmed(line).len() > PREVIEW_CHARS ==> preview(line) == trimmed(line).take(PREVIEW_CHARS as int) + "…"@,
{
}

} // verus!
