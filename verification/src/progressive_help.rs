//! Help in portions: by topic, by path, by playbook, and list by list in pages.

use crate::ascii::{lowered, same_ignoring_case, to_lower};
use crate::digits::{decimal, decimal_text};
use crate::handler_error::{fault, outcome, Fault, HandlerError, HandlerResult};
use crate::json::{
    copy, copy_object, count, field, fields, get, group_json_views, has_field, lemma_get_put, no_fields, no_object,
    set_field, string, text_list, trees, Entries, Fields, Json, Num, Number, Object, Tree,
};
use crate::message::{keys_within, lemma_put_keys};
use crate::order::{join, joined, sort, sorted};
use crate::patterns::{byte_slice, find_all, regex_fault, regex_spans, span_views, spans_fit};
use crate::policy::{find_named, named_at};
use crate::text::{
    among, blank, byte_len, bytes_of, cat2, cat5, debug_text, is_blank, lemma_first_index, lemma_pieces_joined,
    opt_view, pieces, quoted, same, split, str_views, trim, trimmed, views,
};
use vstd::prelude::*;
use vstd::utf8::is_char_boundary;

verus! {

pub const PAGE_DEFAULT: usize = 50;

pub const PAGE_MAX: usize = 100;

/// How many keys an error lists at most.
pub const KEYS_MAX: usize = 50;

/// What is wrong with a payload.
pub open spec fn bad(message: Seq<char>) -> Fault {
    fault("invalid_payload"@, message)
}

fn bad_payload(message: &str) -> (r: HandlerError)
    ensures
        r@ == bad(message@),
{
    HandlerError::new("invalid_payload", message)
}

/// A topic: its name, the key under which the full help has it, its description.
pub open spec fn topics() -> Seq<(Seq<char>, Seq<char>, Seq<char>)> {
    seq![
        ("getting_started"@, "getting_started"@, "minimal first-use guidance"@),
        ("security"@, "security_model"@, "security and permission model"@),
        ("operations"@, "navigation"@, "operation/navigation map"@),
        ("operating_notes"@, "operating_notes"@, "general operating notes"@),
        ("access"@, "extending_access"@, "how to extend configured access"@),
        ("hosts"@, "managing_hosts"@, "host enrollment, update, and targeting"@),
        ("playbooks"@, "playbooks"@, "paged playbook-name index"@),
        ("policy"@, "policy"@, "policy summary counts"@),
        ("examples"@, "examples"@, "example task prompts"@),
        ("resources"@, "resources"@, "project/dashboard/contact resources"@),
        ("about"@, "about"@, "project/creator information"@),
    ]
}

pub open spec fn topic_views(list: Seq<(&'static str, &'static str, &'static str)>) -> Seq<
    (Seq<char>, Seq<char>, Seq<char>),
> {
    Seq::new(list.len(), |i: int| (list[i].0@, list[i].1@, list[i].2@))
}

fn topic_list() -> (r: Vec<(&'static str, &'static str, &'static str)>)
    ensures
        topic_views(r@) == topics(),
{
    let r = vec![
        ("getting_started", "getting_started", "minimal first-use guidance"),
        ("security", "security_model", "security and permission model"),
        ("operations", "navigation", "operation/navigation map"),
        ("operating_notes", "operating_notes", "general operating notes"),
        ("access", "extending_access", "how to extend configured access"),
        ("hosts", "managing_hosts", "host enrollment, update, and targeting"),
        ("playbooks", "playbooks", "paged playbook-name index"),
        ("policy", "policy", "policy summary counts"),
        ("examples", "examples", "example task prompts"),
        ("resources", "resources", "project/dashboard/contact resources"),
        ("about", "about", "project/creator information"),
    ];
    assert(topic_views(r@) =~= topics());
    r
}

/// A text that a payload may give: trimmed; not blank where it is there.
pub open spec fn text_arg(payload: Fields, key: Seq<char>) -> Result<Option<Seq<char>>, Fault> {
    match get(payload, key) {
        None | Some(Tree::Null) => Ok(None),
        Some(Tree::Text(s)) => if blank(s) {
            Err(bad(debug_text(key) + " must be a non-empty string"@))
        } else {
            Ok(Some(trimmed(s)))
        },
        Some(_) => Err(bad(debug_text(key) + " must be a non-empty string"@)),
    }
}

fn string_field(payload: &Object, key: &str) -> (r: Result<Option<String>, HandlerError>)
    ensures
        match r {
            Ok(s) => text_arg(fields(payload@), key@) == Ok::<Option<Seq<char>>, Fault>(opt_view(s)),
            Err(e) => text_arg(fields(payload@), key@) == Err::<Option<Seq<char>>, Fault>(e@),
        },
{
    match field(payload, key) {
        None | Some(Json::Null) => Ok(None),
        Some(Json::Text(s)) => if is_blank(s) {
            Err(bad_payload(&cat2(&quoted(key), " must be a non-empty string")))
        } else {
            Ok(Some(trim(s)))
        },
        Some(_) => Err(bad_payload(&cat2(&quoted(key), " must be a non-empty string"))),
    }
}

/// What is said of a number that is out of its range.
pub open spec fn range_text(key: Seq<char>, minimum: int, maximum: Option<usize>) -> Seq<char> {
    debug_text(key) + " must be between "@ + decimal(minimum as nat) + " and "@ + match maximum {
        Some(m) => decimal(m as nat),
        None => "unbounded"@,
    }
}

/// A number that a payload may give, within its range.
pub open spec fn count_arg(
    payload: Fields,
    key: Seq<char>,
    default: usize,
    minimum: usize,
    maximum: Option<usize>,
) -> Result<usize, Fault> {
    let value = match get(payload, key) {
        None | Some(Tree::Null) => Some(default),
        Some(Tree::Number(Num::Pos(n))) => if n <= usize::MAX {
            Some(n as usize)
        } else {
            None
        },
        Some(_) => None,
    };
    match value {
        None => Err(bad(debug_text(key) + " must be an integer"@)),
        Some(v) => if v < minimum || (maximum matches Some(m) && v > m) {
            Err(bad(range_text(key, minimum as int, maximum)))
        } else {
            Ok(v)
        },
    }
}

fn integer(payload: &Object, key: &str, default: usize, minimum: usize, maximum: Option<usize>) -> (r: Result<
    usize,
    HandlerError,
>)
    ensures
        match r {
            Ok(n) => count_arg(fields(payload@), key@, default, minimum, maximum) == Ok::<usize, Fault>(n),
            Err(e) => count_arg(fields(payload@), key@, default, minimum, maximum) == Err::<usize, Fault>(e@),
        },
{
    let value = match field(payload, key) {
        None | Some(Json::Null) => default,
        Some(Json::Number(Number::Pos(n))) => if *n <= usize::MAX as u64 {
            *n as usize
        } else {
            return Err(bad_payload(&cat2(&quoted(key), " must be an integer")));
        },
        Some(_) => {
            return Err(bad_payload(&cat2(&quoted(key), " must be an integer")));
        },
    };
    let beyond = match maximum {
        Some(m) => value > m,
        None => false,
    };
    if value < minimum || beyond {
        let most = match maximum {
            Some(m) => decimal_text(m as u64),
            None => "unbounded".to_owned(),
        };
        return Err(
            bad_payload(&cat5(&quoted(key), " must be between ", &decimal_text(minimum as u64), " and ", &most)),
        );
    }
    Ok(value)
}

/// A page of a list: how long the list is, where the page begins, how long it may
/// be, and where the next begins.
#[derive(Debug, Clone, Copy, PartialEq, Eq, Structural)]
pub struct Page {
    pub total: usize,
    pub offset: usize,
    pub limit: usize,
    pub next: Option<usize>,
}

/// At most `limit` items from `offset` on.
pub open spec fn portion(values: Seq<Tree>, offset: int, limit: int) -> Seq<Tree> {
    if offset >= values.len() {
        Seq::empty()
    } else if offset + limit >= values.len() {
        values.skip(offset)
    } else {
        values.subrange(offset, offset + limit)
    }
}

/// The page of `values` that begins at `offset`.
pub open spec fn page_at(values: Seq<Tree>, offset: usize, limit: usize) -> Page {
    Page {
        total: values.len() as usize,
        offset,
        limit,
        next: if offset + limit < values.len() {
            Some((offset + limit) as usize)
        } else {
            None
        },
    }
}

/// The page that a payload asks for.
pub open spec fn page_of(values: Seq<Tree>, payload: Fields) -> Result<(Seq<Tree>, Page), Fault> {
    match count_arg(payload, "offset"@, 0, 0, None) {
        Err(e) => Err(e),
        Ok(offset) => match count_arg(payload, "limit"@, PAGE_DEFAULT, 1, Some(PAGE_MAX)) {
            Err(e) => Err(e),
            Ok(limit) => Ok((portion(values, offset as int, limit as int), page_at(values, offset, limit))),
        },
    }
}

fn page(values: &Vec<Json>, payload: &Object) -> (r: Result<(Vec<Json>, Page), HandlerError>)
    ensures
        match r {
            Ok((items, p)) => page_of(trees(values@), fields(payload@)) == Ok::<(Seq<Tree>, Page), Fault>(
                (trees(items@), p),
            ),
            Err(e) => page_of(trees(values@), fields(payload@)) == Err::<(Seq<Tree>, Page), Fault>(e@),
        },
{
    let offset = match integer(payload, "offset", 0, 0, None) {
        Ok(n) => n,
        Err(e) => return Err(e),
    };
    let limit = match integer(payload, "limit", PAGE_DEFAULT, 1, Some(PAGE_MAX)) {
        Ok(n) => n,
        Err(e) => return Err(e),
    };
    let total = values.len();
    let end = if offset >= total {
        offset
    } else if limit >= total - offset {
        total
    } else {
        offset + limit
    };
    let mut items: Vec<Json> = Vec::new();
    let mut i: usize = offset;
    while i < end
        invariant
            offset <= i <= end,
            end <= total || end == offset,
            offset < end ==> end <= total,
            total == values@.len(),
            items@.len() == i - offset,
            forall|j: int| 0 <= j < items@.len() ==> (#[trigger] items@[j])@ == values@[offset + j]@,
        decreases end - i,
    {
        items.push(copy(&values[i]));
        i = i + 1;
    }
    let next = if offset < total && end < total {
        Some(end)
    } else {
        None
    };
    assert(trees(items@) =~= portion(trees(values@), offset as int, limit as int));
    Ok((items, Page { total, offset, limit, next }))
}

/// The pages of a list, one behind the other, make up the list: what a page holds
/// and what comes from its next offset on is what comes from its own offset on.
pub proof fn pages_make_up_the_list(values: Seq<Tree>, offset: usize, limit: usize)
    requires
        offset <= values.len() <= usize::MAX,
        limit >= 1,
    ensures
        match page_at(values, offset, limit).next {
            Some(next) => offset < next < values.len() && portion(values, offset as int, limit as int) + values.skip(
                next as int,
            ) == values.skip(offset as int),
            None => portion(values, offset as int, limit as int) == values.skip(offset as int),
        },
{
    match page_at(values, offset, limit).next {
        Some(next) => {
            assert(portion(values, offset as int, limit as int) + values.skip(next as int) =~= values.skip(offset as int));
        },
        None => {
            assert(portion(values, offset as int, limit as int) =~= values.skip(offset as int));
        },
    }
}

pub open spec fn next_tree(next: Option<usize>) -> Tree {
    match next {
        Some(n) => Tree::Number(Num::Pos(n as u64)),
        None => Tree::Null,
    }
}

pub open spec fn with_page(o: Fields, p: Page) -> Fields {
    o.with("total"@, Tree::Number(Num::Pos(p.total as u64))).with("offset"@, Tree::Number(Num::Pos(p.offset as u64))).with(
        "limit"@,
        Tree::Number(Num::Pos(p.limit as u64)),
    ).with("next_offset"@, next_tree(p.next)).with("truncated"@, Tree::Bool(p.next is Some))
}

fn put_page(o: &mut Object, p: Page)
    ensures
        fields(final(o)@) == with_page(fields(old(o)@), p),
{
    set_field(o, "total", count(p.total as u64));
    set_field(o, "offset", count(p.offset as u64));
    set_field(o, "limit", count(p.limit as u64));
    set_field(
        o,
        "next_offset",
        match p.next {
            Some(n) => count(n as u64),
            None => Json::Null,
        },
    );
    set_field(o, "truncated", Json::Bool(p.next.is_some()));
}

/// What a page tells of itself.
pub open spec fn page_tree(p: Page) -> Tree {
    Tree::Object(with_page(no_fields(), p))
}

fn page_json(p: Page) -> (r: Json)
    ensures
        r@ == page_tree(p),
{
    broadcast use group_json_views;

    let mut o = no_object();
    put_page(&mut o, p);
    Json::Object(o)
}

/// A page of names.
pub open spec fn names_tree(items: Seq<Tree>, p: Page) -> Tree {
    Tree::Object(with_page(no_fields().with("names"@, Tree::Array(items)), p))
}

fn names_json(items: Vec<Json>, p: Page) -> (r: Json)
    ensures
        r@ == names_tree(trees(items@), p),
{
    broadcast use group_json_views;

    let mut o = no_object();
    set_field(&mut o, "names", Json::Array(items));
    put_page(&mut o, p);
    Json::Object(o)
}

/// How to ask for more.
pub open spec fn help_query(payload: Fields) -> Tree {
    Tree::Object(
        no_fields().with("backend_operation"@, Tree::Text("help"@)).with("payload"@, Tree::Object(payload)),
    )
}

fn query(payload: Object) -> (r: Json)
    ensures
        r@ == help_query(fields(payload@)),
{
    broadcast use group_json_views;

    let mut o = no_object();
    set_field(&mut o, "backend_operation", string("help"));
    set_field(&mut o, "payload", Json::Object(payload));
    Json::Object(o)
}

pub open spec fn keys_of(o: Fields) -> Seq<Seq<char>> {
    Seq::new(o.len(), |i: int| o[i].0)
}

fn key_list(o: &Object) -> (r: Vec<String>)
    ensures
        views(r@) == keys_of(fields(o@)),
{
    let mut r: Vec<String> = Vec::new();
    let mut i: usize = 0;
    while i < o.len()
        invariant
            i <= o@.len(),
            r@.len() == i,
            forall|j: int| 0 <= j < i ==> (#[trigger] r@[j])@ == o@[j].0@,
        decreases o@.len() - i,
    {
        r.push(o[i].0.clone());
        i = i + 1;
    }
    assert(views(r@) =~= keys_of(fields(o@)));
    r
}

/// What is said of a key that an object lacks, `walked` being the way to it.
pub open spec fn unknown_part(o: Fields, part: Seq<char>, walked: Seq<Seq<char>>) -> Fault {
    let keys = sorted(keys_of(o));
    Fault {
        code: "invalid_payload"@,
        message: "unknown help path component: "@ + part,
        details: no_fields().with("path_prefix"@, Tree::Text(joined(walked, "."@))).with(
            "available_keys"@,
            text_list(
                if keys.len() > KEYS_MAX {
                    keys.take(KEYS_MAX as int)
                } else {
                    keys
                },
            ),
        ).with("available_key_count"@, Tree::Number(Num::Pos(o.len() as u64))).with(
            "available_keys_truncated"@,
            Tree::Bool(o.len() > KEYS_MAX),
        ),
    }
}

/// The value at the end of the parts, the first `i` of which led to `node`.
pub open spec fn walked(node: Tree, parts: Seq<Seq<char>>, i: int) -> Result<Tree, Fault>
    decreases parts.len() - i,
{
    if i < 0 || i >= parts.len() {
        Ok(node)
    } else {
        match node {
            Tree::Object(o) => match get(o, parts[i]) {
                Some(next) => walked(next, parts, i + 1),
                None => Err(unknown_part(o, parts[i], parts.take(i))),
            },
            _ => Err(
                bad(
                    "help path cannot descend through non-object at "@ + if i == 0 {
                        "<root>"@
                    } else {
                        joined(parts.take(i), "."@)
                    },
                ),
            ),
        }
    }
}

/// The value at a path of keys with dots between them.
pub open spec fn looked_up(root: Tree, path: Seq<char>) -> Result<Tree, Fault> {
    let parts = pieces(path, '.');
    if exists|i: int| 0 <= i < parts.len() && (#[trigger] parts[i]).len() == 0 {
        Err(bad("path must be dot-separated object keys"@))
    } else {
        walked(root, parts, 0)
    }
}

fn unknown_part_error(o: &Object, part: &str, way: &Vec<String>) -> (r: HandlerError)
    ensures
        r@ == unknown_part(fields(o@), part@, views(way@)),
{
    let keys = sort(key_list(o));
    proof {
        crate::order::sorted_is_ascending(keys_of(fields(o@)));
    }
    let total = keys.len();
    let mut listed: Vec<String> = Vec::new();
    let mut i: usize = 0;
    while i < total && i < KEYS_MAX
        invariant
            i <= total,
            i <= KEYS_MAX,
            total == keys@.len(),
            listed@.len() == i,
            forall|j: int| 0 <= j < i ==> (#[trigger] listed@[j])@ == keys@[j]@,
        decreases total - i,
    {
        listed.push(keys[i].clone());
        i = i + 1;
    }
    assert(views(listed@) =~= if keys@.len() > KEYS_MAX {
        views(keys@).take(KEYS_MAX as int)
    } else {
        views(keys@)
    });
    let mut details = no_object();
    set_field(&mut details, "path_prefix", Json::Text(join(way, ".")));
    set_field(&mut details, "available_keys", crate::json::strings(&listed));
    set_field(&mut details, "available_key_count", count(total as u64));
    set_field(&mut details, "available_keys_truncated", Json::Bool(total > KEYS_MAX));
    HandlerError::with_details("invalid_payload", &cat2("unknown help path component: ", part), details)
}

fn lookup(root: &Json, path: &str) -> (r: Result<Json, HandlerError>)
    ensures
        match r {
            Ok(v) => looked_up(root@, path@) == Ok::<Tree, Fault>(v@),
            Err(e) => looked_up(root@, path@) == Err::<Tree, Fault>(e@),
        },
{
    broadcast use group_json_views;

    let parts = split(path, '.');
    let ghost all = views(parts@);
    let mut n: usize = 0;
    while n < parts.len()
        invariant
            n <= parts@.len(),
            all == views(parts@),
            all == pieces(path@, '.'),
            forall|j: int| 0 <= j < n ==> (#[trigger] all[j]).len() > 0,
        decreases parts@.len() - n,
    {
        assert(all[n as int] == parts@[n as int]@);
        if parts[n].as_str().is_empty() {
            return Err(bad_payload("path must be dot-separated object keys"));
        }
        n = n + 1;
    }
    let mut node: &Json = root;
    let mut way: Vec<String> = Vec::new();
    let mut i: usize = 0;
    assert(views(way@) =~= all.take(0));
    while i < parts.len()
        invariant
            i <= parts@.len(),
            all == views(parts@),
            all == pieces(path@, '.'),
            views(way@) == all.take(i as int),
            looked_up(root@, path@) == walked(node@, all, i as int),
        decreases parts@.len() - i,
    {
        assert(all[i as int] == parts@[i as int]@);
        proof {
            crate::json::lemma_views_known(*node);
        }
        match node {
            Json::Object(o) => match field(o, &parts[i]) {
                Some(next) => {
                    node = next;
                },
                None => {
                    return Err(unknown_part_error(o, &parts[i], &way));
                },
            },
            _ => {
                let at = if i == 0 {
                    "<root>".to_owned()
                } else {
                    join(&way, ".")
                };
                return Err(bad_payload(&cat2("help path cannot descend through non-object at ", &at)));
            },
        }
        let ghost before = views(way@);
        way.push(parts[i].clone());
        i = i + 1;
        assert(views(way@) =~= before.push(all[i - 1]));
        assert(all.take(i as int) =~= all.take(i - 1).push(all[i - 1]));
    }
    Ok(copy(node))
}

/// The names of tools in prose.
pub const TOOL_PATTERN: &'static str = "\\bsentinel_([a-z][a-z0-9_]*)\\b";

/// How many bytes precede the operation in the name of a tool.
pub const TOOL_PREFIX: usize = 9;

/// The operation in the name of a tool, which takes the bytes of `span`.
pub open spec fn operation_bytes(b: Seq<u8>, span: (int, int)) -> Seq<u8> {
    if span.0 + TOOL_PREFIX <= span.1 && is_char_boundary(b, span.0 + TOOL_PREFIX) {
        b.subrange(span.0 + TOOL_PREFIX, span.1)
    } else {
        Seq::empty()
    }
}

/// Bytes from `from` on with `op:` and the operation in place of each name of a tool,
/// from the `i`-th on.
pub open spec fn rewritten(b: Seq<u8>, spans: Seq<(int, int)>, from: int, i: int) -> Seq<u8>
    decreases spans.len() - i,
{
    if i < 0 || i >= spans.len() {
        b.skip(from)
    } else {
        b.subrange(from, spans[i].0) + (bytes_of("op:"@) + operation_bytes(b, spans[i])) + rewritten(
            b,
            spans,
            spans[i].1,
            i + 1,
        )
    }
}

/// The names of tools in a text, each with its operation, added to those in `refs`.
pub open spec fn references(b: Seq<u8>, spans: Seq<(int, int)>, n: int, refs: Fields) -> Fields
    decreases n,
{
    if n <= 0 || n > spans.len() {
        refs
    } else {
        references(b, spans, n - 1, refs).with(
            vstd::utf8::decode_utf8(b.subrange(spans[n - 1].0, spans[n - 1].1)),
            Tree::Text(vstd::utf8::decode_utf8(operation_bytes(b, spans[n - 1]))),
        )
    }
}

/// Where the names of tools stand in a text.
pub open spec fn tool_spans(s: Seq<char>) -> Seq<(int, int)> {
    if regex_fault(TOOL_PATTERN@, false, false) is None {
        regex_spans(TOOL_PATTERN@, false, false, s)
    } else {
        Seq::empty()
    }
}

/// A text with the names of tools rewritten.
pub open spec fn neutral_text(s: Seq<char>) -> Seq<char> {
    vstd::utf8::decode_utf8(rewritten(bytes_of(s), tool_spans(s), 0, 0))
}

pub open spec fn text_references(s: Seq<char>, refs: Fields) -> Fields {
    let spans = tool_spans(s);
    references(bytes_of(s), spans, spans.len() as int, refs)
}

proof fn lemma_rewritten_step(
    so_far: Seq<char>,
    before: Seq<char>,
    operation: Seq<char>,
    b: Seq<u8>,
    spans: Seq<(int, int)>,
    from: int,
    i: int,
)
    requires
        0 <= i < spans.len(),
        bytes_of(before) == b.subrange(from, spans[i].0),
        bytes_of(operation) == operation_bytes(b, spans[i]),
    ensures
        bytes_of(so_far) + rewritten(b, spans, from, i) == bytes_of(so_far + before + "op:"@ + operation) + rewritten(
            b,
            spans,
            spans[i].1,
            i + 1,
        ),
{
    crate::text::lemma_bytes_concat(so_far, before);
    crate::text::lemma_bytes_concat(so_far + before, "op:"@);
    crate::text::lemma_bytes_concat(so_far + before + "op:"@, operation);
    assert(bytes_of(so_far) + rewritten(b, spans, from, i) =~= bytes_of(so_far + before + "op:"@ + operation) + rewritten(
        b,
        spans,
        spans[i].1,
        i + 1,
    ));
}

fn rewrite(text: &str, refs: &mut Object) -> (r: String)
    ensures
        r@ == neutral_text(text@),
        fields(final(refs)@) == text_references(text@, fields(old(refs)@)),
{
    let spans = match find_all(TOOL_PATTERN, false, false, text) {
        Ok(spans) => spans,
        Err(_) => Vec::new(),
    };
    let ghost b = bytes_of(text@);
    let ghost all = span_views(spans@);
    let ghost start = fields(refs@);
    proof {
        assert(all =~= tool_spans(text@));
        vstd::utf8::encode_utf8_valid_utf8(text@);
        vstd::utf8::is_char_boundary_start_end_of_seq(b);
    }
    let mut out = String::new();
    let mut from: usize = 0;
    let mut i: usize = 0;
    assert(bytes_of(out@) + rewritten(b, all, 0, 0) =~= rewritten(b, all, 0, 0));
    while i < spans.len()
        invariant
            i <= spans@.len(),
            b == bytes_of(text@),
            vstd::utf8::valid_utf8(b),
            all == span_views(spans@),
            spans_fit(all, b),
            from <= b.len(),
            is_char_boundary(b, from as int),
            i > 0 ==> from == all[i - 1].1,
            i == 0 ==> from == 0,
            bytes_of(out@) + rewritten(b, all, from as int, i as int) == rewritten(b, all, 0, 0),
            fields(refs@) == references(b, all, i as int, start),
        decreases spans@.len() - i,
    {
        let (s, e) = spans[i];
        assert(all[i as int] == (s as int, e as int));
        let before = byte_slice(text, from, s);
        let name = byte_slice(text, s, e);
        let operation = if e - s >= TOOL_PREFIX && text.is_char_boundary(s + TOOL_PREFIX) {
            byte_slice(text, s + TOOL_PREFIX, e)
        } else {
            String::new()
        };
        proof {
            assert(bytes_of(operation@) =~= operation_bytes(b, all[i as int]));
            vstd::utf8::encode_utf8_decode_utf8(operation@);
            vstd::utf8::encode_utf8_decode_utf8(name@);
        }
        let ghost so_far = out@;
        out.append(&before);
        out.append("op:");
        out.append(&operation);
        proof {
            lemma_rewritten_step(so_far, before@, operation@, b, all, from as int, i as int);
        }
        set_field(refs, &name, Json::Text(operation));
        from = e;
        i = i + 1;
    }
    let rest = byte_slice(text, from, byte_len(text));
    let ghost so_far = out@;
    out.append(&rest);
    proof {
        crate::text::lemma_bytes_concat(so_far, rest@);
        assert(b.subrange(from as int, b.len() as int) =~= b.skip(from as int));
        vstd::utf8::encode_utf8_decode_utf8(out@);
    }
    out
}

/// A value with the names of tools rewritten in all its texts, and the names found,
/// added to those in `refs`.
pub open spec fn neutral(t: Tree, refs: Fields) -> (Tree, Fields)
    decreases t,
{
    match t {
        Tree::Text(s) => (Tree::Text(neutral_text(s)), text_references(s, refs)),
        Tree::Array(items) => {
            let (items, refs) = neutral_items(items, refs);
            (Tree::Array(items), refs)
        },
        Tree::Object(o) => {
            let (o, refs) = neutral_fields(o, refs);
            (Tree::Object(o), refs)
        },
        _ => (t, refs),
    }
}

pub open spec fn neutral_items(items: Seq<Tree>, refs: Fields) -> (Seq<Tree>, Fields)
    decreases items,
{
    if items.len() == 0 {
        (items, refs)
    } else {
        let (first, refs) = neutral_items(items.drop_last(), refs);
        let (last, refs) = neutral(items.last(), refs);
        (first.push(last), refs)
    }
}

pub open spec fn neutral_fields(o: Fields, refs: Fields) -> (Fields, Fields)
    decreases o,
{
    if o.len() == 0 {
        (o, refs)
    } else {
        let (first, refs) = neutral_fields(o.drop_last(), refs);
        let (last, refs) = neutral_field(o.last(), refs);
        (first.push(last), refs)
    }
}

pub open spec fn neutral_field(f: (Seq<char>, Tree), refs: Fields) -> ((Seq<char>, Tree), Fields)
    decreases f,
{
    let (v, refs) = neutral(f.1, refs);
    ((f.0, v), refs)
}

fn neutralize(value: &Json, refs: &mut Object) -> (r: Json)
    ensures
        r@ == neutral(value@, fields(old(refs)@)).0,
        fields(final(refs)@) == neutral(value@, fields(old(refs)@)).1,
    decreases value,
{
    broadcast use group_json_views;

    match value {
        Json::Text(s) => Json::Text(rewrite(s, refs)),
        Json::Array(items) => {
            let ghost all = trees(items@);
            let ghost start = fields(refs@);
            let mut out: Vec<Json> = Vec::new();
            let mut i: usize = 0;
            assert(trees(out@) =~= neutral_items(all.take(0), start).0);
            while i < items.len()
                invariant
                    i <= items@.len(),
                    value == Json::Array(*items),
                    all == trees(items@),
                    trees(out@) == neutral_items(all.take(i as int), start).0,
                    fields(refs@) == neutral_items(all.take(i as int), start).1,
                decreases items@.len() - i,
            {
                assert(decreases_to!(value => value->Array_0));
                assert(decreases_to!(value->Array_0 => value->Array_0@));
                assert(decreases_to!(value->Array_0@ => value->Array_0@[i as int]));
                let ghost before = trees(out@);
                let item = neutralize(&items[i], refs);
                out.push(item);
                i = i + 1;
                assert(all.take(i as int).drop_last() =~= all.take(i - 1));
                assert(all.take(i as int).last() == items@[i - 1]@);
                assert(trees(out@) =~= before.push(item@));
            }
            assert(all.take(i as int) =~= all);
            Json::Array(out)
        },
        Json::Object(o) => {
            let ghost all = fields(o@);
            let ghost start = fields(refs@);
            let mut out: Object = Vec::new();
            let mut i: usize = 0;
            assert(fields(out@) =~= neutral_fields(all.take(0), start).0);
            while i < o.len()
                invariant
                    i <= o@.len(),
                    value == Json::Object(*o),
                    all == fields(o@),
                    fields(out@) == neutral_fields(all.take(i as int), start).0,
                    fields(refs@) == neutral_fields(all.take(i as int), start).1,
                decreases o@.len() - i,
            {
                assert(decreases_to!(value => value->Object_0));
                assert(decreases_to!(value->Object_0 => value->Object_0@));
                assert(decreases_to!(value->Object_0@ => value->Object_0@[i as int]));
                assert(decreases_to!(value->Object_0@[i as int] => value->Object_0@[i as int].1));
                let ghost before = fields(out@);
                let ghost refs_before = fields(refs@);
                let v = neutralize(&o[i].1, refs);
                out.push((o[i].0.clone(), v));
                i = i + 1;
                assert(all.take(i as int).drop_last() =~= all.take(i - 1));
                assert(all.take(i as int).last() == all[i - 1]);
                assert(neutral_field(all[i - 1], refs_before) == (
                    (all[i - 1].0, neutral(all[i - 1].1, refs_before).0),
                    neutral(all[i - 1].1, refs_before).1,
                ));
                assert(fields(out@) =~= before.push((all[i - 1].0, v@)));
            }
            assert(all.take(i as int) =~= all);
            Json::Object(out)
        },
        other => copy(other),
    }
}

/// What is told of names that were rewritten.
pub open spec fn presented(result: Fields, refs: Fields) -> Fields {
    if refs.len() == 0 {
        result
    } else {
        result.with(
            "presentation"@,
            Tree::Object(
                no_fields().with("tool_reference_map"@, Tree::Object(refs)).with(
                    "note"@,
                    Tree::Text(
                        "Progressive guidance rewrites full-profile sentinel_* names as op:<name>. Route op:<name> through the active Hub profile."@,
                    ),
                ),
            ),
        )
    }
}

fn present(result: &mut Object, refs: Object)
    ensures
        fields(final(result)@) == presented(fields(old(result)@), fields(refs@)),
{
    broadcast use group_json_views;

    if refs.len() != 0 {
        let mut o = no_object();
        set_field(&mut o, "tool_reference_map", Json::Object(refs));
        set_field(
            &mut o,
            "note",
            string(
                "Progressive guidance rewrites full-profile sentinel_* names as op:<name>. Route op:<name> through the active Hub profile.",
            ),
        );
        set_field(result, "presentation", Json::Object(o));
    }
}

/// The value under a key, or `null`.
pub open spec fn value_or_null(o: Fields, k: Seq<char>) -> Tree {
    match get(o, k) {
        Some(v) => v,
        None => Tree::Null,
    }
}

fn field_or_null(o: &Object, k: &str) -> (r: Json)
    ensures
        r@ == value_or_null(fields(o@), k@),
{
    match field(o, k) {
        Some(v) => copy(v),
        None => Json::Null,
    }
}

/// What every portion of help begins with.
pub open spec fn base_fields(full: Fields) -> Fields {
    no_fields().with("agent"@, value_or_null(full, "agent"@)).with("version"@, value_or_null(full, "version"@)).with(
        "host_label"@,
        value_or_null(full, "host_label"@),
    )
}

fn base(full: &Object) -> (r: Object)
    ensures
        fields(r@) == base_fields(fields(full@)),
{
    let mut o = no_object();
    set_field(&mut o, "agent", field_or_null(full, "agent"));
    set_field(&mut o, "version", field_or_null(full, "version"));
    set_field(&mut o, "host_label", field_or_null(full, "host_label"));
    o
}

pub open spec fn has_page(payload: Fields) -> bool {
    get(payload, "offset"@) is Some || get(payload, "limit"@) is Some
}

/// A value that was selected: a page of it where it is a list.
pub open spec fn projected(value: Tree, payload: Fields) -> Result<(Tree, Option<Page>), Fault> {
    match value {
        Tree::Array(items) => match page_of(items, payload) {
            Ok((items, p)) => Ok((Tree::Array(items), Some(p))),
            Err(e) => Err(e),
        },
        _ => if has_page(payload) {
            Err(bad("offset/limit require a list-valued path"@))
        } else {
            Ok((value, None))
        },
    }
}

fn project_selected(value: Json, payload: &Object) -> (r: Result<(Json, Option<Page>), HandlerError>)
    ensures
        match r {
            Ok((v, p)) => projected(value@, fields(payload@)) == Ok::<(Tree, Option<Page>), Fault>((v@, p)),
            Err(e) => projected(value@, fields(payload@)) == Err::<(Tree, Option<Page>), Fault>(e@),
        },
{
    broadcast use group_json_views;

    match value {
        Json::Array(items) => match page(&items, payload) {
            Ok((items, p)) => Ok((Json::Array(items), Some(p))),
            Err(e) => Err(e),
        },
        other => if has_field(payload, "offset") || has_field(payload, "limit") {
            Err(bad_payload("offset/limit require a list-valued path"))
        } else {
            Ok((other, None))
        },
    }
}

/// The keys of `o` that are not among `known`.
pub open spec fn unknown_keys(o: Fields, known: Seq<Seq<char>>) -> Seq<Seq<char>>
    decreases o.len(),
{
    if o.len() == 0 {
        Seq::empty()
    } else if known.contains(o.last().0) {
        unknown_keys(o.drop_last(), known)
    } else {
        unknown_keys(o.drop_last(), known).push(o.last().0)
    }
}

fn find_unknown(o: &Object, known: &Vec<&'static str>) -> (r: Vec<String>)
    ensures
        views(r@) == unknown_keys(fields(o@), str_views(known@)),
{
    let mut r: Vec<String> = Vec::new();
    let ghost all = fields(o@);
    let mut i: usize = 0;
    assert(views(r@) =~= unknown_keys(all.take(0), str_views(known@)));
    while i < o.len()
        invariant
            i <= o@.len(),
            all == fields(o@),
            views(r@) == unknown_keys(all.take(i as int), str_views(known@)),
        decreases o@.len() - i,
    {
        let ghost now = all.take(i + 1);
        assert(now.drop_last() =~= all.take(i as int));
        assert(now.last() == all[i as int]);
        if !among(&o[i].0, known) {
            let ghost before = views(r@);
            r.push(o[i].0.clone());
            assert(views(r@) =~= before.push(o@[i as int].0@));
        }
        i = i + 1;
    }
    assert(all.take(i as int) =~= all);
    r
}

/// How much of the capabilities is asked for.
pub open spec fn detail_of(payload: Fields) -> Result<Seq<char>, Fault> {
    let unknown = unknown_keys(payload, seq!["detail"@]);
    if unknown.len() > 0 {
        Err(bad("unknown capabilities field(s): "@ + joined(unknown, ", "@)))
    } else {
        match get(payload, "detail"@) {
            None | Some(Tree::Null) => Ok("full"@),
            Some(Tree::Text(s)) => if lowered(s) == lowered("full"@) {
                Ok("full"@)
            } else if lowered(s) == lowered("summary"@) {
                Ok("summary"@)
            } else {
                Err(bad("detail must be 'full' or 'summary'"@))
            },
            _ => Err(bad("detail must be 'full' or 'summary'"@)),
        }
    }
}

pub fn capabilities_detail(payload: &Object) -> (r: Result<&'static str, HandlerError>)
    ensures
        match r {
            Ok(d) => detail_of(fields(payload@)) == Ok::<Seq<char>, Fault>(d@),
            Err(e) => detail_of(fields(payload@)) == Err::<Seq<char>, Fault>(e@),
        },
{
    let known: Vec<&'static str> = vec!["detail"];
    assert(str_views(known@) =~= seq!["detail"@]);
    let unknown = find_unknown(payload, &known);
    if unknown.len() > 0 {
        return Err(bad_payload(&cat2("unknown capabilities field(s): ", &join(&unknown, ", "))));
    }
    match field(payload, "detail") {
        None | Some(Json::Null) => Ok("full"),
        Some(Json::Text(s)) => if same_ignoring_case(s, "full") {
            Ok("full")
        } else if same_ignoring_case(s, "summary") {
            Ok("summary")
        } else {
            Err(bad_payload("detail must be 'full' or 'summary'"))
        },
        _ => Err(bad_payload("detail must be 'full' or 'summary'")),
    }
}

/// The playbooks as fields; `null` where one has no form in JSON.
pub open spec fn book_fields(books: Seq<(String, Option<Json>)>) -> Fields {
    Seq::new(
        books.len(),
        |i: int|
            (
                books[i].0@,
                match books[i].1 {
                    Some(v) => v@,
                    None => Tree::Null,
                },
            ),
    )
}

/// The names of the playbooks.
pub open spec fn book_names(books: Fields) -> Seq<Tree> {
    Seq::new(books.len(), |i: int| Tree::Text(books[i].0))
}

fn name_list(books: &Vec<(String, Option<Json>)>) -> (r: Vec<Json>)
    ensures
        trees(r@) == book_names(book_fields(books@)),
{
    let mut r: Vec<Json> = Vec::new();
    let mut i: usize = 0;
    while i < books.len()
        invariant
            i <= books@.len(),
            r@.len() == i,
            forall|j: int| 0 <= j < i ==> (#[trigger] r@[j])@ == Tree::Text(books@[j].0@),
        decreases books@.len() - i,
    {
        r.push(string(&books[i].0));
        i = i + 1;
    }
    assert(trees(r@) =~= book_names(book_fields(books@)));
    r
}

proof fn lemma_book_position(books: Seq<(String, Option<Json>)>, name: Seq<char>)
    ensures
        crate::json::position(book_fields(books), name) == named_at(books, name),
    decreases books.len(),
{
    if books.len() > 0 && books[0].0@ != name {
        lemma_book_position(books.drop_first(), name);
        assert(book_fields(books).drop_first() =~= book_fields(books.drop_first()));
    }
}

/// A selected value, rewritten, with its pagination and the way to the next page.
pub open spec fn selection(start: Fields, ask: Fields, value: Tree, p: Option<Page>) -> Fields {
    let (v, refs) = neutral(value, no_fields());
    let with_value = start.with("value"@, v);
    let paged = match p {
        None => with_value,
        Some(p) => {
            let told = with_value.with("pagination"@, page_tree(p));
            match p.next {
                Some(n) => told.with(
                    "next"@,
                    help_query(
                        ask.with("offset"@, Tree::Number(Num::Pos(n as u64))).with(
                            "limit"@,
                            Tree::Number(Num::Pos(p.limit as u64)),
                        ),
                    ),
                ),
                None => told,
            }
        },
    };
    presented(paged, refs)
}

fn select(start: Object, ask: Object, value: &Json, p: Option<Page>) -> (r: Object)
    ensures
        fields(r@) == selection(fields(start@), fields(ask@), value@, p),
{
    let mut result = start;
    let mut refs = no_object();
    let v = neutralize(value, &mut refs);
    set_field(&mut result, "value", v);
    if let Some(p) = p {
        set_field(&mut result, "pagination", page_json(p));
        if let Some(n) = p.next {
            let mut q = ask;
            set_field(&mut q, "offset", count(n as u64));
            set_field(&mut q, "limit", count(p.limit as u64));
            set_field(&mut result, "next", query(q));
        }
    }
    present(&mut result, refs);
    result
}

/// What is said of a playbook that is not there.
pub open spec fn unknown_playbook(books: Fields, name: Seq<char>) -> Fault {
    Fault {
        code: "invalid_payload"@,
        message: "unknown playbook: "@ + name,
        details: no_fields().with(
            "available_playbooks"@,
            names_tree(
                portion(book_names(books), 0, PAGE_DEFAULT as int),
                page_at(book_names(books), 0, PAGE_DEFAULT),
            ),
        ),
    }
}

/// Help on a playbook, or on a part of it.
pub open spec fn playbook_help(payload: Fields, full: Fields, books: Fields, name: Seq<char>, path: Option<Seq<char>>) -> Result<
    Fields,
    Fault,
> {
    match get(books, name) {
        None => Err(unknown_playbook(books, name)),
        Some(definition) => match path {
            Some(path) => match looked_up(definition, path) {
                Err(e) => Err(e),
                Ok(value) => match projected(value, payload) {
                    Err(e) => Err(e),
                    Ok((value, p)) => Ok(
                        selection(
                            base_fields(full).with("playbook"@, Tree::Text(name)).with("path"@, Tree::Text(path)),
                            no_fields().with("playbook"@, Tree::Text(name)).with("path"@, Tree::Text(path)),
                            value,
                            p,
                        ),
                    ),
                },
            },
            None => if has_page(payload) {
                Err(bad("offset/limit require a playbook subpath"@))
            } else {
                let (d, refs) = neutral(definition, no_fields());
                Ok(presented(base_fields(full).with("playbook"@, Tree::Text(name)).with("definition"@, d), refs))
            },
        },
    }
}

fn help_on_playbook(
    payload: &Object,
    full: &Object,
    books: &Vec<(String, Option<Json>)>,
    name: &str,
    path: Option<String>,
) -> (r: HandlerResult)
    ensures
        outcome(r) == playbook_help(fields(payload@), fields(full@), book_fields(books@), name@, opt_view(path)),
{
    let k = find_named(books, name);
    proof {
        lemma_book_position(books@, name@);
    }
    if k >= books.len() {
        let none = no_object();
        let names = name_list(books);
        let (items, p) = match page(&names, &none) {
            Ok(x) => x,
            Err(e) => return Err(e),
        };
        proof {
            lemma_empty_args();
        }
        let mut details = no_object();
        set_field(&mut details, "available_playbooks", names_json(items, p));
        return Err(HandlerError::with_details("invalid_payload", &cat2("unknown playbook: ", name), details));
    }
    let definition = match &books[k].1 {
        Some(v) => copy(v),
        None => Json::Null,
    };
    let mut result = base(full);
    set_field(&mut result, "playbook", string(name));
    match path {
        Some(path) => {
            let value = match lookup(&definition, &path) {
                Ok(v) => v,
                Err(e) => return Err(e),
            };
            let (value, p) = match project_selected(value, payload) {
                Ok(x) => x,
                Err(e) => return Err(e),
            };
            set_field(&mut result, "path", string(&path));
            let mut ask = no_object();
            set_field(&mut ask, "playbook", string(name));
            set_field(&mut ask, "path", string(&path));
            Ok(select(result, ask, &value, p))
        },
        None => {
            if has_field(payload, "offset") || has_field(payload, "limit") {
                return Err(bad_payload("offset/limit require a playbook subpath"));
            }
            let mut refs = no_object();
            let d = neutralize(&definition, &mut refs);
            set_field(&mut result, "definition", d);
            present(&mut result, refs);
            Ok(result)
        },
    }
}

proof fn lemma_empty_args()
    ensures
        count_arg(no_fields(), "offset"@, 0, 0, None) == Ok::<usize, Fault>(0),
        count_arg(no_fields(), "limit"@, PAGE_DEFAULT, 1, Some(PAGE_MAX)) == Ok::<usize, Fault>(PAGE_DEFAULT),
{
}

/// Help on a part of the whole.
pub open spec fn path_help(payload: Fields, full: Fields, path: Seq<char>) -> Result<Fields, Fault> {
    match looked_up(Tree::Object(full), path) {
        Err(e) => Err(e),
        Ok(value) => match projected(value, payload) {
            Err(e) => Err(e),
            Ok((value, p)) => Ok(
                selection(
                    base_fields(full).with("path"@, Tree::Text(path)),
                    no_fields().with("path"@, Tree::Text(path)),
                    value,
                    p,
                ),
            ),
        },
    }
}

fn help_on_path(payload: &Object, full: &Object, path: &str) -> (r: HandlerResult)
    ensures
        outcome(r) == path_help(fields(payload@), fields(full@), path@),
{
    broadcast use group_json_views;

    let whole = Json::Object(copy_object(full));
    let value = match lookup(&whole, path) {
        Ok(v) => v,
        Err(e) => return Err(e),
    };
    let (value, p) = match project_selected(value, payload) {
        Ok(x) => x,
        Err(e) => return Err(e),
    };
    let mut result = base(full);
    set_field(&mut result, "path", string(path));
    let mut ask = no_object();
    set_field(&mut ask, "path", string(path));
    Ok(select(result, ask, &value, p))
}

/// The way to the next page of a topic's list.
pub open spec fn next_page(topic: Seq<char>, p: Page) -> Tree {
    match p.next {
        Some(n) => help_query(
            no_fields().with("topic"@, Tree::Text(topic)).with("offset"@, Tree::Number(Num::Pos(n as u64))).with(
                "limit"@,
                Tree::Number(Num::Pos(p.limit as u64)),
            ),
        ),
        None => Tree::Null,
    }
}

fn next_page_json(topic: &str, p: Page) -> (r: Json)
    ensures
        r@ == next_page(topic@, p),
{
    match p.next {
        Some(n) => {
            let mut q = no_object();
            set_field(&mut q, "topic", string(topic));
            set_field(&mut q, "offset", count(n as u64));
            set_field(&mut q, "limit", count(p.limit as u64));
            query(q)
        },
        None => Json::Null,
    }
}

pub open spec fn one_field(k: Seq<char>, v: Seq<char>) -> Fields {
    no_fields().with(k, Tree::Text(v))
}

fn one_field_object(k: &str, v: &str) -> (r: Object)
    ensures
        fields(r@) == one_field(k@, v@),
{
    let mut o = no_object();
    set_field(&mut o, k, string(v));
    o
}

/// The topics by name, with their descriptions, up to the `n`-th.
pub open spec fn topic_fields(n: int) -> Fields
    decreases n,
{
    if n <= 0 || n > topics().len() {
        no_fields()
    } else {
        topic_fields(n - 1).with(topics()[n - 1].0, Tree::Text(topics()[n - 1].2))
    }
}

/// The index of the help.
pub open spec fn index_help(payload: Fields, full: Fields, books: Fields) -> Result<Fields, Fault> {
    match page_of(book_names(books), payload) {
        Err(e) => Err(e),
        Ok((names, p)) => Ok(
            base_fields(full).with("summary"@, value_or_null(full, "summary"@)).with(
                "topics"@,
                Tree::Object(topic_fields(topics().len() as int)),
            ).with(
                "path_examples"@,
                text_list(
                    seq![
                        "security_model.permission_errors"@,
                        "security_model.allowlist_errors"@,
                        "navigation.exec"@,
                        "managing_hosts.targeting"@,
                    ],
                ),
            ).with("playbooks"@, names_tree(names, p)).with(
                "next"@,
                Tree::Object(
                    no_fields().with("topic"@, help_query(one_field("topic"@, "security"@))).with(
                        "path"@,
                        help_query(one_field("path"@, "security_model.permission_errors"@)),
                    ).with("playbook"@, help_query(one_field("playbook"@, "<name>"@))).with(
                        "next_page"@,
                        next_page("index"@, p),
                    ).with("full"@, help_query(one_field("topic"@, "all"@))),
                ),
            ),
        ),
    }
}

fn help_index(payload: &Object, full: &Object, books: &Vec<(String, Option<Json>)>) -> (r: HandlerResult)
    ensures
        outcome(r) == index_help(fields(payload@), fields(full@), book_fields(books@)),
{
    broadcast use group_json_views;

    let names = name_list(books);
    let (items, p) = match page(&names, payload) {
        Ok(x) => x,
        Err(e) => return Err(e),
    };
    let list = topic_list();
    let mut told = no_object();
    let mut i: usize = 0;
    while i < list.len()
        invariant
            i <= list@.len(),
            topic_views(list@) == topics(),
            fields(told@) == topic_fields(i as int),
        decreases list@.len() - i,
    {
        assert(topic_views(list@)[i as int] == (list@[i as int].0@, list@[i as int].1@, list@[i as int].2@));
        set_field(&mut told, list[i].0, string(list[i].2));
        i = i + 1;
    }
    let mut result = base(full);
    set_field(&mut result, "summary", field_or_null(full, "summary"));
    set_field(&mut result, "topics", Json::Object(told));
    let examples = vec![
        "security_model.permission_errors".to_owned(),
        "security_model.allowlist_errors".to_owned(),
        "navigation.exec".to_owned(),
        "managing_hosts.targeting".to_owned(),
    ];
    assert(views(examples@) =~= seq![
        "security_model.permission_errors"@,
        "security_model.allowlist_errors"@,
        "navigation.exec"@,
        "managing_hosts.targeting"@,
    ]);
    set_field(&mut result, "path_examples", crate::json::strings(&examples));
    set_field(&mut result, "playbooks", names_json(items, p));
    let mut next = no_object();
    set_field(&mut next, "topic", query(one_field_object("topic", "security")));
    set_field(&mut next, "path", query(one_field_object("path", "security_model.permission_errors")));
    set_field(&mut next, "playbook", query(one_field_object("playbook", "<name>")));
    set_field(&mut next, "next_page", next_page_json("index", p));
    set_field(&mut next, "full", query(one_field_object("topic", "all")));
    set_field(&mut result, "next", Json::Object(next));
    Ok(result)
}

/// The list of playbooks.
pub open spec fn playbooks_help(payload: Fields, full: Fields, books: Fields) -> Result<Fields, Fault> {
    match page_of(book_names(books), payload) {
        Err(e) => Err(e),
        Ok((names, p)) => Ok(
            base_fields(full).with("topic"@, Tree::Text("playbooks"@)).with("playbooks"@, names_tree(names, p)).with(
                "next"@,
                Tree::Object(
                    no_fields().with("playbook"@, help_query(one_field("playbook"@, "<name>"@))).with(
                        "next_page"@,
                        next_page("playbooks"@, p),
                    ),
                ),
            ),
        ),
    }
}

fn help_on_playbooks(payload: &Object, full: &Object, books: &Vec<(String, Option<Json>)>) -> (r: HandlerResult)
    ensures
        outcome(r) == playbooks_help(fields(payload@), fields(full@), book_fields(books@)),
{
    broadcast use group_json_views;

    let names = name_list(books);
    let (items, p) = match page(&names, payload) {
        Ok(x) => x,
        Err(e) => return Err(e),
    };
    let mut result = base(full);
    set_field(&mut result, "topic", string("playbooks"));
    set_field(&mut result, "playbooks", names_json(items, p));
    let mut next = no_object();
    set_field(&mut next, "playbook", query(one_field_object("playbook", "<name>")));
    set_field(&mut next, "next_page", next_page_json("playbooks", p));
    set_field(&mut result, "next", Json::Object(next));
    Ok(result)
}

/// The key under which the full help has a topic, from the `i`-th topic on.
pub open spec fn topic_key(name: Seq<char>, i: int) -> Option<Seq<char>>
    decreases topics().len() - i,
{
    if i < 0 || i >= topics().len() {
        None
    } else if topics()[i].0 == name {
        Some(topics()[i].1)
    } else {
        topic_key(name, i + 1)
    }
}

fn find_topic_key(name: &str) -> (r: Option<&'static str>)
    ensures
        match r {
            Some(k) => topic_key(name@, 0) == Some(k@),
            None => topic_key(name@, 0) is None,
        },
{
    let list = topic_list();
    let mut i: usize = 0;
    while i < list.len()
        invariant
            i <= list@.len(),
            topic_views(list@) == topics(),
            topic_key(name@, i as int) == topic_key(name@, 0),
        decreases list@.len() - i,
    {
        assert(topic_views(list@)[i as int] == (list@[i as int].0@, list@[i as int].1@, list@[i as int].2@));
        if same(list[i].0, name) {
            return Some(list[i].1);
        }
        i = i + 1;
    }
    None
}

/// The names of all topics.
pub open spec fn all_topics() -> Seq<Seq<char>> {
    seq!["index"@] + Seq::new(topics().len(), |i: int| topics()[i].0) + seq!["all"@]
}

fn all_topic_names() -> (r: Vec<String>)
    ensures
        views(r@) == all_topics(),
{
    let list = topic_list();
    let mut r: Vec<String> = Vec::new();
    r.push("index".to_owned());
    let mut i: usize = 0;
    while i < list.len()
        invariant
            i <= list@.len(),
            topic_views(list@) == topics(),
            r@.len() == i + 1,
            r@[0]@ == "index"@,
            forall|j: int| 0 <= j < i ==> r@[j + 1]@ == #[trigger] topics()[j].0,
        decreases list@.len() - i,
    {
        assert(topic_views(list@)[i as int] == (list@[i as int].0@, list@[i as int].1@, list@[i as int].2@));
        r.push(list[i].0.to_owned());
        i = i + 1;
    }
    r.push("all".to_owned());
    proof {
        assert(list@.len() == topics().len());
        assert forall|k: int| 0 <= k < r@.len() implies #[trigger] views(r@)[k] == all_topics()[k] by {
            if 0 < k < r@.len() - 1 {
                assert(topics()[k - 1].0 == r@[k]@);
            }
        }
        assert(views(r@) =~= all_topics());
    }
    r
}

/// Help on a topic, whose name is in lower case.
pub open spec fn topic_help(payload: Fields, full: Fields, books: Fields, topic: Seq<char>) -> Result<Fields, Fault> {
    if topic == "all"@ {
        if has_page(payload) {
            Err(bad("topic=all does not accept offset/limit"@))
        } else {
            Ok(full)
        }
    } else if topic == "index"@ {
        index_help(payload, full, books)
    } else {
        match topic_key(topic, 0) {
            None => Err(
                Fault {
                    code: "invalid_payload"@,
                    message: "unknown help topic: "@ + topic,
                    details: no_fields().with("available_topics"@, text_list(all_topics())),
                },
            ),
            Some(key) => if topic == "playbooks"@ {
                playbooks_help(payload, full, books)
            } else if has_page(payload) {
                Err(bad("offset/limit are valid only for paged lists"@))
            } else {
                let (v, refs) = neutral(value_or_null(full, key), no_fields());
                Ok(presented(base_fields(full).with("topic"@, Tree::Text(topic)).with(key, v), refs))
            },
        }
    }
}

fn help_on_topic(payload: &Object, full: Object, books: &Vec<(String, Option<Json>)>, topic: &str) -> (r: HandlerResult)
    ensures
        outcome(r) == topic_help(fields(payload@), fields(full@), book_fields(books@), topic@),
{
    let paged = has_field(payload, "offset") || has_field(payload, "limit");
    if same(topic, "all") {
        if paged {
            return Err(bad_payload("topic=all does not accept offset/limit"));
        }
        return Ok(full);
    }
    if same(topic, "index") {
        return help_index(payload, &full, books);
    }
    let key = match find_topic_key(topic) {
        Some(key) => key,
        None => {
            let mut details = no_object();
            set_field(&mut details, "available_topics", crate::json::strings(&all_topic_names()));
            return Err(HandlerError::with_details("invalid_payload", &cat2("unknown help topic: ", topic), details));
        },
    };
    if same(topic, "playbooks") {
        return help_on_playbooks(payload, &full, books);
    }
    if paged {
        return Err(bad_payload("offset/limit are valid only for paged lists"));
    }
    let mut refs = no_object();
    let v = neutralize(&field_or_null(&full, key), &mut refs);
    let mut result = base(&full);
    set_field(&mut result, "topic", string(topic));
    set_field(&mut result, key, v);
    present(&mut result, refs);
    Ok(result)
}

/// What may stand in a request for help.
pub open spec fn help_keys() -> Seq<Seq<char>> {
    seq!["topic"@, "path"@, "playbook"@, "offset"@, "limit"@]
}

/// The help that a payload asks for.
pub open spec fn help_selected(payload: Fields, full: Fields, books: Fields) -> Result<Fields, Fault> {
    let unknown = unknown_keys(payload, help_keys());
    if unknown.len() > 0 {
        Err(bad("unknown help field(s): "@ + joined(unknown, ", "@)))
    } else {
        match text_arg(payload, "topic"@) {
            Err(e) => Err(e),
            Ok(topic) => match text_arg(payload, "path"@) {
                Err(e) => Err(e),
                Ok(path) => match text_arg(payload, "playbook"@) {
                    Err(e) => Err(e),
                    Ok(playbook) => if topic is Some && (path is Some || playbook is Some) {
                        Err(bad("topic is mutually exclusive with path/playbook"@))
                    } else {
                        match (playbook, path, topic) {
                            (Some(name), _, _) => playbook_help(payload, full, books, name, path),
                            (None, Some(path), _) => path_help(payload, full, path),
                            (None, None, Some(topic)) => topic_help(payload, full, books, lowered(topic)),
                            (None, None, None) => if has_page(payload) {
                                Err(bad("offset/limit require an index or list-valued path"@))
                            } else {
                                Ok(full)
                            },
                        }
                    },
                },
            },
        }
    }
}

/// The help that a payload asks for, out of the full help and the playbooks.
pub fn select_help_response(payload: &Object, full: Object, playbooks: &Vec<(String, Option<Json>)>) -> (r: HandlerResult)
    ensures
        outcome(r) == help_selected(fields(payload@), fields(full@), book_fields(playbooks@)),
{
    let known: Vec<&'static str> = vec!["topic", "path", "playbook", "offset", "limit"];
    assert(str_views(known@) =~= help_keys());
    let unknown = find_unknown(payload, &known);
    if unknown.len() > 0 {
        return Err(bad_payload(&cat2("unknown help field(s): ", &join(&unknown, ", "))));
    }
    let topic = match string_field(payload, "topic") {
        Ok(s) => s,
        Err(e) => return Err(e),
    };
    let path = match string_field(payload, "path") {
        Ok(s) => s,
        Err(e) => return Err(e),
    };
    let playbook = match string_field(payload, "playbook") {
        Ok(s) => s,
        Err(e) => return Err(e),
    };
    if topic.is_some() && (path.is_some() || playbook.is_some()) {
        return Err(bad_payload("topic is mutually exclusive with path/playbook"));
    }
    match playbook {
        Some(name) => help_on_playbook(payload, &full, playbooks, &name, path),
        None => match path {
            Some(path) => help_on_path(payload, &full, &path),
            None => match topic {
                Some(topic) => help_on_topic(payload, full, playbooks, &to_lower(&topic)),
                None => if has_field(payload, "offset") || has_field(payload, "limit") {
                    Err(bad_payload("offset/limit require an index or list-valued path"))
                } else {
                    Ok(full)
                },
            },
        },
    }
}

/// What a value becomes does not depend on the names found before it.
proof fn lemma_neutral_alike(t: Tree, a: Fields, b: Fields)
    ensures
        neutral(t, a).0 == neutral(t, b).0,
    decreases t,
{
    match t {
        Tree::Array(items) => lemma_neutral_items_alike(items, a, b),
        Tree::Object(o) => lemma_neutral_fields_alike(o, a, b),
        _ => {},
    }
}

proof fn lemma_neutral_items_alike(items: Seq<Tree>, a: Fields, b: Fields)
    ensures
        neutral_items(items, a).0 == neutral_items(items, b).0,
    decreases items,
{
    if items.len() > 0 {
        lemma_neutral_items_alike(items.drop_last(), a, b);
        lemma_neutral_alike(items.last(), neutral_items(items.drop_last(), a).1, neutral_items(items.drop_last(), b).1);
    }
}

proof fn lemma_neutral_fields_alike(o: Fields, a: Fields, b: Fields)
    ensures
        neutral_fields(o, a).0 == neutral_fields(o, b).0,
    decreases o,
{
    if o.len() > 0 {
        lemma_neutral_fields_alike(o.drop_last(), a, b);
        lemma_neutral_field_alike(
            o.last(),
            neutral_fields(o.drop_last(), a).1,
            neutral_fields(o.drop_last(), b).1,
        );
    }
}

proof fn lemma_neutral_field_alike(f: (Seq<char>, Tree), a: Fields, b: Fields)
    ensures
        neutral_field(f, a).0 == neutral_field(f, b).0,
    decreases f,
{
    lemma_neutral_alike(f.1, a, b);
}

/// The items of a list, with the names of tools rewritten in each.
pub open spec fn neutral_list(items: Seq<Tree>) -> Seq<Tree> {
    Seq::new(items.len(), |i: int| neutral(items[i], no_fields()).0)
}

proof fn lemma_neutral_list(items: Seq<Tree>, refs: Fields)
    ensures
        neutral_items(items, refs).0 == neutral_list(items),
    decreases items.len(),
{
    if items.len() > 0 {
        lemma_neutral_list(items.drop_last(), refs);
        lemma_neutral_alike(items.last(), neutral_items(items.drop_last(), refs).1, no_fields());
        assert(neutral_items(items, refs).0 =~= neutral_list(items));
    } else {
        assert(neutral_list(items) =~= items);
    }
}

/// A request for at most `limit` items of the list at a path, from `offset` on.
pub open spec fn list_request(path: Seq<char>, offset: usize, limit: usize) -> Fields {
    no_fields().with("path"@, Tree::Text(path)).with("offset"@, Tree::Number(Num::Pos(offset as u64))).with(
        "limit"@,
        Tree::Number(Num::Pos(limit as u64)),
    )
}

/// An object with known keys only has no unknown ones.
pub proof fn lemma_no_unknown(o: Fields, known: Seq<Seq<char>>)
    requires
        keys_within(o, known),
    ensures
        unknown_keys(o, known).len() == 0,
    decreases o.len(),
{
    if o.len() > 0 {
        let front = o.drop_last();
        assert forall|i: int| 0 <= i < front.len() implies known.contains(#[trigger] front[i].0) by {
            assert(known.contains(o[i].0));
        }
        lemma_no_unknown(front, known);
        assert(known.contains(o[o.len() - 1].0));
    }
}

/// The keys of requests and replies differ.
proof fn lemma_help_keys_differ()
    ensures
        "path"@ != "offset"@ && "path"@ != "limit"@ && "offset"@ != "limit"@,
        "topic"@ != "path"@ && "topic"@ != "offset"@ && "topic"@ != "limit"@,
        "playbook"@ != "path"@ && "playbook"@ != "offset"@ && "playbook"@ != "limit"@,
        "next"@ != "agent"@ && "next"@ != "version"@ && "next"@ != "host_label"@ && "next"@ != "path"@,
        "value"@ != "next"@ && "value"@ != "pagination"@ && "value"@ != "presentation"@,
        "next"@ != "pagination"@ && "next"@ != "presentation"@ && "pagination"@ != "presentation"@,
        "backend_operation"@ != "payload"@ && "truncated"@ != "next_offset"@,
{
    reveal_strlit("path");
    reveal_strlit("offset");
    reveal_strlit("limit");
    reveal_strlit("topic");
    reveal_strlit("playbook");
    reveal_strlit("next");
    reveal_strlit("agent");
    reveal_strlit("version");
    reveal_strlit("host_label");
    reveal_strlit("value");
    reveal_strlit("pagination");
    reveal_strlit("presentation");
    reveal_strlit("backend_operation");
    reveal_strlit("payload");
    reveal_strlit("truncated");
    reveal_strlit("next_offset");
    assert("path"@[0] == 'p' && "next"@[0] == 'n' && "topic"@[0] == 't' && "limit"@[0] == 'l');
    assert("path"@.len() == 4 && "offset"@.len() == 6 && "limit"@.len() == 5 && "topic"@.len() == 5 && "playbook"@.len()
        == 8 && "agent"@.len() == 5 && "version"@.len() == 7 && "host_label"@.len() == 10 && "value"@.len() == 5
        && "pagination"@.len() == 10 && "presentation"@.len() == 12 && "next"@.len() == 4 && "backend_operation"@.len()
        == 17 && "payload"@.len() == 7 && "truncated"@.len() == 9 && "next_offset"@.len() == 11);
}

/// What is asked for at a path that names a list is answered with a page of it: the
/// items from the offset on, rewritten, with the way to the next page exactly where
/// there is more.
pub proof fn lists_are_answered_in_pages(
    full: Fields,
    books: Fields,
    path: Seq<char>,
    values: Seq<Tree>,
    offset: usize,
    limit: usize,
)
    requires
        !blank(path),
        looked_up(Tree::Object(full), trimmed(path)) == Ok::<Tree, Fault>(Tree::Array(values)),
        values.len() <= usize::MAX,
        1 <= limit <= PAGE_MAX,
    ensures
        help_selected(list_request(path, offset, limit), full, books) matches Ok(reply) && {
            let items = portion(values, offset as int, limit as int);
            &&& items.len() <= limit
            &&& get(reply, "value"@) == Some(Tree::Array(neutral_list(items)))
            &&& get(reply, "pagination"@) == Some(page_tree(page_at(values, offset, limit)))
            &&& get(page_tree(page_at(values, offset, limit))->Object_0, "truncated"@) == Some(
                Tree::Bool(offset + limit < values.len()),
            )
            &&& get(reply, "next"@) == if offset + limit < values.len() {
                Some(help_query(list_request(trimmed(path), (offset + limit) as usize, limit)))
            } else {
                None
            }
        },
{
    broadcast use {lemma_get_put, lemma_put_keys};

    lemma_help_keys_differ();
    let payload = list_request(path, offset, limit);
    let known = help_keys();
    assert(known[1] == "path"@ && known[3] == "offset"@ && known[4] == "limit"@);
    assert(keys_within(no_fields(), known));
    lemma_no_unknown(payload, known);
    assert(get(payload, "path"@) == Some(Tree::Text(path)));
    assert(get(payload, "offset"@) == Some(Tree::Number(Num::Pos(offset as u64))));
    assert(get(payload, "limit"@) == Some(Tree::Number(Num::Pos(limit as u64))));
    assert(get(payload, "topic"@) is None);
    assert(get(payload, "playbook"@) is None);
    let way = trimmed(path);
    let items = portion(values, offset as int, limit as int);
    let p = page_at(values, offset, limit);
    assert(page_of(values, payload) == Ok::<(Seq<Tree>, Page), Fault>((items, p)));
    let start = base_fields(full).with("path"@, Tree::Text(way));
    let ask = no_fields().with("path"@, Tree::Text(way));
    let reply = selection(start, ask, Tree::Array(items), Some(p));
    assert(help_selected(payload, full, books) == Ok::<Fields, Fault>(reply));
    lemma_neutral_list(items, no_fields());
    let (v, refs) = neutral(Tree::Array(items), no_fields());
    assert(v == Tree::Array(neutral_list(items)));
    let told = start.with("value"@, v).with("pagination"@, page_tree(p));
    assert(get(start, "next"@) is None);
    assert(get(told, "next"@) is None);
    assert(get(told, "value"@) == Some(v));
    assert(get(told, "pagination"@) == Some(page_tree(p)));
}

/// What the replies to a request hold together, where every way to a next page is
/// followed, at most `steps` times.
pub open spec fn followed(payload: Fields, full: Fields, books: Fields, steps: nat) -> Option<Seq<Tree>>
    decreases steps,
{
    match help_selected(payload, full, books) {
        Err(_) => None,
        Ok(reply) => match get(reply, "value"@) {
            Some(Tree::Array(items)) => match get(reply, "next"@) {
                None => Some(items),
                Some(Tree::Object(query)) => match get(query, "payload"@) {
                    Some(Tree::Object(next)) => if steps == 0 {
                        None
                    } else {
                        match followed(next, full, books, (steps - 1) as nat) {
                            Some(rest) => Some(items + rest),
                            None => None,
                        }
                    },
                    _ => None,
                },
                Some(_) => None,
            },
            _ => None,
        },
    }
}

proof fn lemma_followed(
    full: Fields,
    books: Fields,
    path: Seq<char>,
    values: Seq<Tree>,
    offset: usize,
    limit: usize,
    steps: nat,
)
    requires
        !blank(path),
        looked_up(Tree::Object(full), trimmed(path)) == Ok::<Tree, Fault>(Tree::Array(values)),
        offset <= values.len() <= usize::MAX,
        1 <= limit <= PAGE_MAX,
        values.len() - offset <= steps,
    ensures
        followed(list_request(path, offset, limit), full, books, steps) == Some(
            neutral_list(values.skip(offset as int)),
        ),
    decreases steps,
{
    broadcast use lemma_get_put;

    lemma_help_keys_differ();
    lists_are_answered_in_pages(full, books, path, values, offset, limit);
    pages_make_up_the_list(values, offset, limit);
    let items = portion(values, offset as int, limit as int);
    let reply = help_selected(list_request(path, offset, limit), full, books)->Ok_0;
    if offset + limit < values.len() {
        let next = (offset + limit) as usize;
        crate::text::lemma_trimmed_twice(path);
        lemma_followed(full, books, trimmed(path), values, next, limit, (steps - 1) as nat);
        let query = help_query(list_request(trimmed(path), next, limit))->Object_0;
        assert(get(query, "payload"@) == Some(Tree::Object(list_request(trimmed(path), next, limit))));
        assert(neutral_list(items) + neutral_list(values.skip(next as int)) =~= neutral_list(values.skip(offset as int)));
    }
}

/// Following the way to the next page from page to page gives back the whole list at a
/// path, every item once and in order.
pub proof fn following_pages_gives_the_list(full: Fields, books: Fields, path: Seq<char>, values: Seq<Tree>, limit: usize)
    requires
        !blank(path),
        looked_up(Tree::Object(full), trimmed(path)) == Ok::<Tree, Fault>(Tree::Array(values)),
        values.len() <= usize::MAX,
        1 <= limit <= PAGE_MAX,
    ensures
        followed(list_request(path, 0, limit), full, books, values.len()) == Some(neutral_list(values)),
{
    lemma_followed(full, books, path, values, 0, limit, values.len());
    assert(values.skip(0) =~= values);
}

/// A part of the help is found along a path of keys with dots between them.
pub proof fn parts_are_looked_up(o: Fields, key: Seq<char>)
    requires
        key.len() > 0,
        !key.contains('.'),
    ensures
        match get(o, key) {
            Some(v) => looked_up(Tree::Object(o), key) == Ok::<Tree, Fault>(v),
            None => looked_up(Tree::Object(o), key) is Err,
        },
{
    lemma_first_index(key, '.');
    let parts = pieces(key, '.');
    assert(parts =~= seq![key]);
    reveal_with_fuel(walked, 3);
}

/// A part within a part is found behind the dot.
pub proof fn inner_parts_are_looked_up(o: Fields, inner: Fields, outer: Seq<char>, key: Seq<char>, v: Tree)
    requires
        outer.len() > 0,
        key.len() > 0,
        !outer.contains('.'),
        !key.contains('.'),
        get(o, outer) == Some(Tree::Object(inner)),
        get(inner, key) == Some(v),
    ensures
        looked_up(Tree::Object(o), outer + seq!['.'] + key) == Ok::<Tree, Fault>(v),
{
    lemma_first_index(key, '.');
    lemma_first_index(outer, '.');
    lemma_pieces_joined(outer, key, '.');
    let parts = pieces(outer + seq!['.'] + key, '.');
    assert(parts =~= seq![outer, key]);
    reveal_with_fuel(walked, 4);
}

/// A number is the one that was sent where it lies within its bounds, and the default where
/// none was.
pub proof fn numbers_are_as_sent(payload: Fields, key: Seq<char>, default: usize, minimum: usize, maximum: usize)
    requires
        minimum <= default <= maximum,
    ensures
        get(payload, key) is None ==> count_arg(payload, key, default, minimum, Some(maximum)) == Ok::<usize, Fault>(default),
        get(payload, key) matches Some(Tree::Number(Num::Pos(n))) ==> (if minimum <= n <= maximum {
            count_arg(payload, key, default, minimum, Some(maximum)) == Ok::<usize, Fault>(n as usize)
        } else {
            count_arg(payload, key, default, minimum, Some(maximum)) is Err
        }),
{
}

/// A page tells how many entries there are, where it begins and where the next one does.
pub proof fn pages_are_told(o: Fields, p: Page)
    ensures
        get(with_page(o, p), "total"@) == Some(Tree::Number(Num::Pos(p.total as u64))),
        get(with_page(o, p), "offset"@) == Some(Tree::Number(Num::Pos(p.offset as u64))),
        get(with_page(o, p), "limit"@) == Some(Tree::Number(Num::Pos(p.limit as u64))),
        p.next matches Some(n) ==> get(with_page(o, p), "next_offset"@) == Some(Tree::Number(Num::Pos(n as u64))) && get(
            with_page(o, p),
            "truncated"@,
        ) == Some(Tree::Bool(true)),
        p.next is None ==> get(with_page(o, p), "next_offset"@) == Some(Tree::Null) && get(with_page(o, p), "truncated"@)
            == Some(Tree::Bool(false)),
{
    broadcast use lemma_get_put;

    reveal_strlit("total");
    reveal_strlit("offset");
    reveal_strlit("limit");
    reveal_strlit("next_offset");
    reveal_strlit("truncated");
    assert("total"@.len() == 5 && "offset"@.len() == 6 && "limit"@.len() == 5 && "next_offset"@.len() == 11
        && "truncated"@.len() == 9 && "total"@[0] == 't' && "limit"@[0] == 'l');
}

/// The detail of the capabilities is the full one unless the summary is asked for, whatever
/// the case of its name.
pub proof fn details_are_as_asked_for(s: Seq<char>)
    ensures
        detail_of(no_fields()) == Ok::<Seq<char>, Fault>("full"@),
        lowered(s) == lowered("summary"@) ==> detail_of(seq![("detail"@, Tree::Text(s))]) == Ok::<Seq<char>, Fault>("summary"@),
        lowered(s) == lowered("full"@) ==> detail_of(seq![("detail"@, Tree::Text(s))]) == Ok::<Seq<char>, Fault>("full"@),
        lowered(s) != lowered("full"@) && lowered(s) != lowered("summary"@) ==> detail_of(
            seq![("detail"@, Tree::Text(s))],
        ) is Err,
{
    let o = seq![("detail"@, Tree::Text(s))];
    let known = seq!["detail"@];
    assert(known[0] == "detail"@);
    assert(known.contains("detail"@));
    assert(o.drop_last() =~= Seq::<(Seq<char>, Tree)>::empty());
    reveal_with_fuel(unknown_keys, 2);
    assert(unknown_keys(o, known).len() == 0);
    reveal_strlit("full");
    reveal_strlit("summary");
    assert(lowered("full"@).len() == 4 && lowered("summary"@).len() == 7);
    assert(o[0].0 == "detail"@);
}

/// A playbook is shown by its name, and one that is not there is told.
pub proof fn playbooks_are_found(payload: Fields, full: Fields, books: Fields, name: Seq<char>)
    ensures
        get(books, name) is None ==> (playbook_help(payload, full, books, name, None) matches Err(f) && f.code
            == "invalid_payload"@),
        get(books, name) is Some && !has_page(payload) ==> (playbook_help(payload, full, books, name, None) matches Ok(o)
            && get(o, "playbook"@) == Some(Tree::Text(name)) && get(o, "definition"@) == Some(
            neutral(get(books, name)->0, no_fields()).0,
        )),
{
    broadcast use lemma_get_put;

    reveal_strlit("agent");
    reveal_strlit("version");
    reveal_strlit("host_label");
    reveal_strlit("playbook");
    reveal_strlit("definition");
    reveal_strlit("presentation");
    assert("agent"@.len() == 5 && "version"@.len() == 7 && "host_label"@.len() == 10 && "playbook"@.len() == 8
        && "definition"@.len() == 10 && "presentation"@.len() == 12 && "host_label"@[0] == 'h'
        && "definition"@[0] == 'd');
}

/// Without a question the whole help is given, and for the topic of all of it too.
pub proof fn the_whole_help_is_given(full: Fields, books: Fields, payload: Fields)
    ensures
        help_selected(no_fields(), full, books) == Ok::<Fields, Fault>(full),
        !has_page(payload) ==> topic_help(payload, full, books, "all"@) == Ok::<Fields, Fault>(full),
        has_page(payload) ==> topic_help(payload, full, books, "all"@) is Err,
{
}

/// A part of the help is given under the path that was asked for.
pub proof fn asked_parts_are_given(payload: Fields, full: Fields, path: Seq<char>, value: Tree)
    requires
        looked_up(Tree::Object(full), path) == Ok::<Tree, Fault>(value),
        !(value is Array),
        !has_page(payload),
    ensures
        path_help(payload, full, path) matches Ok(o) && get(o, "path"@) == Some(Tree::Text(path)) && get(o, "value"@) == Some(
            neutral(value, no_fields()).0,
        ),
{
    broadcast use lemma_get_put;

    reveal_strlit("agent");
    reveal_strlit("version");
    reveal_strlit("host_label");
    reveal_strlit("path");
    reveal_strlit("value");
    reveal_strlit("presentation");
    assert("agent"@.len() == 5 && "version"@.len() == 7 && "host_label"@.len() == 10 && "path"@.len() == 4
        && "value"@.len() == 5 && "presentation"@.len() == 12 && "agent"@[0] == 'a' && "value"@[0] == 'v');
}

/// A text that names no tool stays as it is, and so does what is no text.
pub proof fn other_texts_stay(s: Seq<char>, n: Num, b: bool, refs: Fields)
    ensures
        tool_spans(s).len() == 0 ==> neutral(Tree::Text(s), refs) == (Tree::Text(s), refs),
        neutral(Tree::Number(n), refs) == (Tree::Number(n), refs),
        neutral(Tree::Bool(b), refs) == (Tree::Bool(b), refs),
        neutral(Tree::Null, refs) == (Tree::Null, refs),
{
    if tool_spans(s).len() == 0 {
        let b = bytes_of(s);
        assert(b.skip(0) =~= b);
        assert(rewritten(b, tool_spans(s), 0, 0) == b);
        vstd::utf8::encode_utf8_decode_utf8(s);
    }
}

/// The name of a tool is rewritten as that of its operation, and the text around it stays.
pub proof fn tools_are_named_by_operation(before: Seq<u8>, operation: Seq<u8>, after: Seq<u8>)
    requires
        ({
            let b = before + bytes_of("sentinel_"@) + operation + after;
            is_char_boundary(b, before.len() as int + 9)
        }),
        bytes_of("sentinel_"@).len() == 9,
    ensures
        ({
            let b = before + bytes_of("sentinel_"@) + operation + after;
            let span = (before.len() as int, before.len() as int + 9 + operation.len());
            rewritten(b, seq![span], 0, 0) == before + (bytes_of("op:"@) + operation) + after
        }),
{
    let b = before + bytes_of("sentinel_"@) + operation + after;
    let span = (before.len() as int, before.len() as int + 9 + operation.len());
    let spans = seq![span];
    reveal_with_fuel(rewritten, 3);
    assert(b.subrange(0, span.0) =~= before);
    assert(b.subrange(span.0 + 9, span.1) =~= operation);
    assert(b.skip(span.1) =~= after);
}

} // verus!
