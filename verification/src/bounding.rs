//! Keeping a response under the frame limit: its largest texts are shortened
//! around a marker until it fits, and what was done is recorded in the result.

use crate::digits::{decimal, decimal_text, signed_decimal, signed_text};
use crate::json::{
    as_fields, as_flag, as_text, copy, copy_object, count, field, fields, flag_field, get, group_json_views,
    into_object, lemma_get_put, no_fields, no_object, object_field, position, put, set_field, string, text_field, trees,
    Entries, Fields, Json, Num, Number, Object, Tree,
};
use crate::ratio::{
    divide, double_of, from_count, multiply, product, quotient, six_tenths, to_count, whole, Double, FRACTION,
    NINETEEN_TWENTIETHS, THREE_FIFTHS,
};
use crate::text::{byte_len, bytes_of, cat3, chars_of, from_utf8, lemma_bytes_concat, utf8_fault};
use vstd::prelude::*;
use vstd::slice::slice_subrange;
use vstd::utf8::{decode_utf8, valid_utf8};

verus! {

pub const RESPONSE_SOFT_LIMIT_BYTES: usize = 131_072;

pub const TRUNCATION_KEY: &'static str = "_truncation";

/// What is kept free for the truncation record.
pub const META_RESERVE: usize = 512;

/// How often the largest text is shortened at most.
pub const MAX_PASSES: usize = 64;

/// The shortest text, in bytes, that is worth shortening.
pub const MIN_TRUNCATABLE: usize = 256;

/// What a character takes in a JSON string that is written in ASCII.
pub open spec fn char_size(c: char) -> nat {
    if c == '"' || c == '\\' || c == '\u{8}' || c == '\u{c}' || c == '\n' || c == '\r' || c == '\t' {
        2
    } else if (c as u32) < 0x20 {
        6
    } else if (c as u32) < 0x80 {
        1
    } else if (c as u32) <= 0xffff {
        6
    } else {
        12
    }
}

/// What the characters of a text take.
pub open spec fn chars_size(s: Seq<char>) -> nat
    decreases s.len(),
{
    if s.len() == 0 {
        0
    } else {
        chars_size(s.drop_last()) + char_size(s.last())
    }
}

/// What a text takes with its quotes.
pub open spec fn string_size(s: Seq<char>) -> nat {
    2 + chars_size(s)
}

/// What a number takes.
pub open spec fn number_size(n: Num) -> nat {
    match n {
        Num::Pos(v) => bytes_of(decimal(v as nat)).len(),
        Num::Neg(v) => bytes_of(signed_decimal(v as int)).len(),
        Num::Float(text) => bytes_of(text).len(),
    }
}

/// What stands between `n` members: a comma and a space each.
pub open spec fn separators(n: nat) -> nat {
    if n == 0 {
        0
    } else {
        (2 * (n - 1)) as nat
    }
}

/// The length of a value written as JSON in ASCII, with `", "` and `": "` as
/// separators.
pub open spec fn json_size(t: Tree) -> nat
    decreases t,
{
    match t {
        Tree::Null => 4,
        Tree::Bool(b) => if b {
            4
        } else {
            5
        },
        Tree::Number(n) => number_size(n),
        Tree::Text(s) => string_size(s),
        Tree::Array(items) => 2 + items_size(items) + separators(items.len()),
        Tree::Object(o) => 2 + fields_size(o) + separators(o.len()),
    }
}

pub open spec fn items_size(items: Seq<Tree>) -> nat
    decreases items,
{
    if items.len() == 0 {
        0
    } else {
        items_size(items.drop_last()) + json_size(items.last())
    }
}

pub open spec fn fields_size(o: Fields) -> nat
    decreases o,
{
    if o.len() == 0 {
        0
    } else {
        fields_size(o.drop_last()) + field_size(o.last())
    }
}

pub open spec fn field_size(f: (Seq<char>, Tree)) -> nat
    decreases f,
{
    string_size(f.0) + 2 + json_size(f.1)
}

/// `n`, or the greatest count where it is beyond that.
pub open spec fn capped(n: nat) -> usize {
    if n <= usize::MAX {
        n as usize
    } else {
        usize::MAX
    }
}

/// The length of a text as a JSON string in ASCII.
pub fn python_json_string_size(text: &str) -> (r: usize)
    ensures
        r == capped(string_size(text@)),
{
    let chars = chars_of(text);
    let mut size: usize = 2;
    let mut i: usize = 0;
    while i < chars.len()
        invariant
            i <= chars@.len(),
            size == capped(2 + chars_size(chars@.take(i as int))),
        decreases chars@.len() - i,
    {
        let c = chars[i];
        let more: usize = if c == '"' || c == '\\' || c == '\u{8}' || c == '\u{c}' || c == '\n' || c == '\r' || c
            == '\t' {
            2
        } else if (c as u32) < 0x20 {
            6
        } else if (c as u32) < 0x80 {
            1
        } else if (c as u32) <= 0xffff {
            6
        } else {
            12
        };
        size = size.saturating_add(more);
        i = i + 1;
        assert(chars@.take(i as int).drop_last() =~= chars@.take(i - 1));
    }
    assert(chars@.take(i as int) =~= chars@);
    size
}

fn number_text_size(n: &Number) -> (r: usize)
    ensures
        r == number_size(n@),
{
    match n {
        Number::Pos(v) => byte_len(&decimal_text(*v)),
        Number::Neg(v) => byte_len(&signed_text(*v)),
        Number::Float(text) => byte_len(text),
    }
}

fn gaps(n: usize) -> (r: usize)
    ensures
        r == capped(separators(n as nat)),
{
    if n == 0 {
        0
    } else {
        (n - 1).saturating_add(n - 1)
    }
}

/// The length of a value written as JSON in ASCII.
pub fn serialized_size(value: &Json) -> (r: usize)
    ensures
        r == capped(json_size(value@)),
    decreases value,
{
    broadcast use group_json_views;

    match value {
        Json::Null => 4,
        Json::Bool(b) => if *b {
            4
        } else {
            5
        },
        Json::Number(n) => number_text_size(n),
        Json::Text(s) => python_json_string_size(s),
        Json::Array(items) => {
            let mut size: usize = 0;
            let mut i: usize = 0;
            let ghost all = trees(items@);
            while i < items.len()
                invariant
                    i <= items@.len(),
                    value == Json::Array(*items),
                    all == trees(items@),
                    size == capped(items_size(all.take(i as int))),
                decreases items@.len() - i,
            {
                assert(decreases_to!(value => value->Array_0));
                assert(decreases_to!(value->Array_0 => value->Array_0@));
                assert(decreases_to!(value->Array_0@ => value->Array_0@[i as int]));
                let more = serialized_size(&items[i]);
                size = size.saturating_add(more);
                i = i + 1;
                assert(all.take(i as int).drop_last() =~= all.take(i - 1));
            }
            assert(all.take(i as int) =~= all);
            size.saturating_add(2).saturating_add(gaps(items.len()))
        },
        Json::Object(o) => {
            assert(decreases_to!(value => value->Object_0));
            object_size(o)
        },
    }
}

/// The length of an object written as JSON in ASCII.
pub fn object_size(o: &Object) -> (r: usize)
    ensures
        r == capped(json_size(Tree::Object(fields(o@)))),
    decreases o,
{
    let mut size: usize = 0;
    let mut i: usize = 0;
    let ghost all = fields(o@);
    while i < o.len()
        invariant
            i <= o@.len(),
            all == fields(o@),
            size == capped(fields_size(all.take(i as int))),
        decreases o@.len() - i,
    {
        assert(decreases_to!(o => o@));
        assert(decreases_to!(o@ => o@[i as int]));
        assert(decreases_to!(o@[i as int] => o@[i as int].1));
        let more = python_json_string_size(&o[i].0).saturating_add(2).saturating_add(serialized_size(&o[i].1));
        size = size.saturating_add(more);
        i = i + 1;
        assert(all.take(i as int).drop_last() =~= all.take(i - 1));
        assert(all.take(i as int).last() == all[i - 1]);
        assert(field_size(all[i - 1]) == string_size(all[i - 1].0) + 2 + json_size(all[i - 1].1));
    }
    assert(all.take(i as int) =~= all);
    size.saturating_add(2).saturating_add(gaps(o.len()))
}

/// The text in bytes that may be broken off within a character: what is
/// malformed is left out.
pub open spec fn kept_text(b: Seq<u8>) -> Seq<char>
    decreases b.len(),
{
    if b.len() == 0 {
        Seq::empty()
    } else if valid_utf8(b) {
        decode_utf8(b)
    } else {
        let fault = utf8_fault(b);
        decode_utf8(b.take(fault.0)) + match fault.1 {
            Some(n) => if 0 < n && 0 <= fault.0 && fault.0 + n <= b.len() {
                kept_text(b.skip(fault.0 + n))
            } else {
                Seq::empty()
            },
            None => Seq::empty(),
        }
    }
}

/// The text in `bytes`, without what is malformed.
pub fn decode_utf8_ignoring_invalid(bytes: &[u8]) -> (r: String)
    ensures
        r@ == kept_text(bytes@),
        bytes_of(r@).len() <= bytes@.len(),
{
    let mut out = String::new();
    let mut at: usize = 0;
    let total = bytes.len();
    assert(bytes@.skip(0) =~= bytes@);
    while at < total
        invariant
            total == bytes@.len(),
            at <= total,
            out@ + kept_text(bytes@.skip(at as int)) == kept_text(bytes@),
            bytes_of(out@).len() <= at,
        decreases total - at,
    {
        let rest = slice_subrange(bytes, at, total);
        assert(rest@ =~= bytes@.skip(at as int));
        let ghost before = out@;
        match from_utf8(rest) {
            Ok(text) => {
                out.append(&text);
                at = total;
                proof {
                    lemma_bytes_concat(before, text@);
                    vstd::utf8::decode_utf8_encode_utf8(rest@);
                }
                assert(kept_text(bytes@.skip(total as int)) =~= Seq::<char>::empty());
            },
            Err((valid, skip)) => {
                let prefix = slice_subrange(rest, 0, valid);
                assert(prefix@ =~= rest@.take(valid as int));
                if let Ok(text) = from_utf8(prefix) {
                    out.append(&text);
                    proof {
                        lemma_bytes_concat(before, text@);
                        vstd::utf8::decode_utf8_encode_utf8(prefix@);
                    }
                }
                match skip {
                    Some(n) => {
                        assert(rest@.skip(valid + n) =~= bytes@.skip(at + valid + n));
                        at = at + valid + n;
                    },
                    None => {
                        at = total;
                        assert(kept_text(bytes@.skip(total as int)) =~= Seq::<char>::empty());
                    },
                }
            },
        }
    }
    assert(kept_text(bytes@.skip(total as int)) =~= Seq::<char>::empty());
    out
}

/// What stands in place of the bytes that were left out.
pub open spec fn marker_text(omitted: nat) -> Seq<char> {
    "\n…[sentinelx: truncated "@ + decimal(omitted) + " bytes]…\n"@
}

pub fn marker(omitted: usize) -> (r: String)
    ensures
        r@ == marker_text(omitted as nat),
{
    cat3("\n…[sentinelx: truncated ", &decimal_text(omitted as u64), " bytes]…\n")
}

/// How much of `keep` bytes goes to the beginning of a text: six tenths, in
/// double precision.
pub open spec fn head_share(keep: int) -> int {
    whole(product(double_of(keep), (THREE_FIFTHS as int, FRACTION as int)))
}

/// A text shortened to about `keep` bytes: its beginning, a marker, its end.
pub open spec fn shortened(s: Seq<char>, keep: int) -> Seq<char> {
    let raw = bytes_of(s);
    if raw.len() <= keep || keep == 0 {
        s
    } else {
        let head_budget = head_share(keep);
        let tail_budget = if head_budget <= keep {
            keep - head_budget
        } else {
            0
        };
        let head = kept_text(raw.take(if head_budget <= raw.len() {
            head_budget
        } else {
            raw.len() as int
        }));
        let tail = kept_text(raw.skip(raw.len() - tail_budget));
        let omitted = raw.len() - bytes_of(head).len() - bytes_of(tail).len();
        head + marker_text(omitted as nat) + tail
    }
}

/// `text` shortened to about `keep_bytes` bytes.
pub fn truncate_text(text: &str, keep_bytes: usize) -> (r: String)
    ensures
        r@ == shortened(text@, keep_bytes as int),
{
    let raw = text.as_bytes();
    let original = raw.len();
    if original <= keep_bytes || keep_bytes == 0 {
        return text.to_owned();
    }
    let head_budget = to_count(multiply(from_count(keep_bytes), Double { m: THREE_FIFTHS, e: FRACTION }));
    let tail_budget = keep_bytes.saturating_sub(head_budget);
    let head_end = if head_budget <= original {
        head_budget
    } else {
        original
    };
    let head_bytes = slice_subrange(raw, 0, head_end);
    assert(head_bytes@ =~= raw@.take(head_end as int));
    let head = decode_utf8_ignoring_invalid(head_bytes);
    let tail_bytes = slice_subrange(raw, original - tail_budget, original);
    assert(tail_bytes@ =~= raw@.skip(original - tail_budget));
    let tail = decode_utf8_ignoring_invalid(tail_bytes);
    let omitted = original - byte_len(&head) - byte_len(&tail);
    cat3(&head, &marker(omitted), &tail)
}

/// A step from a value to one that it holds.
#[derive(Debug, PartialEq, Eq)]
pub enum PathPart {
    Key(String),
    Index(usize),
}

/// What a `PathPart` is.
pub enum Step {
    Key(Seq<char>),
    Index(int),
}

impl View for PathPart {
    type V = Step;

    open spec fn view(&self) -> Step {
        match self {
            PathPart::Key(k) => Step::Key(k@),
            PathPart::Index(i) => Step::Index(*i as int),
        }
    }
}

pub open spec fn steps(path: Seq<PathPart>) -> Seq<Step> {
    Seq::new(path.len(), |i: int| path[i]@)
}

/// A path to a text, and the length of that text in bytes.
pub type Largest = Option<(Seq<Step>, nat)>;

/// The better of `best` and the texts in `t`, which stands at `path`: a text of
/// at least `MIN_TRUNCATABLE` bytes that is longer than all before it.
pub open spec fn best_of(t: Tree, path: Seq<Step>, best: Largest) -> Largest
    decreases t,
{
    match t {
        Tree::Text(s) => if bytes_of(s).len() >= MIN_TRUNCATABLE && (best matches Some(b) ==> bytes_of(s).len() > b.1) {
            Some((path, bytes_of(s).len()))
        } else {
            best
        },
        Tree::Array(items) => best_item(items, path, best),
        Tree::Object(o) => best_field(o, path, best),
        _ => best,
    }
}

pub open spec fn best_item(items: Seq<Tree>, path: Seq<Step>, best: Largest) -> Largest
    decreases items,
{
    if items.len() == 0 {
        best
    } else {
        best_of(items.last(), path.push(Step::Index(items.len() - 1)), best_item(items.drop_last(), path, best))
    }
}

pub open spec fn best_field(o: Fields, path: Seq<Step>, best: Largest) -> Largest
    decreases o,
{
    if o.len() == 0 {
        best
    } else {
        best_value(o.last(), path, best_field(o.drop_last(), path, best))
    }
}

pub open spec fn best_value(f: (Seq<char>, Tree), path: Seq<Step>, best: Largest) -> Largest
    decreases f,
{
    best_of(f.1, path.push(Step::Key(f.0)), best)
}

/// The longest text in `root`, the first of them where several are as long. A
/// text that is `root` itself does not count.
pub open spec fn largest_text(root: Tree) -> Largest {
    match root {
        Tree::Text(_) => None,
        _ => best_of(root, Seq::empty(), None),
    }
}

pub open spec fn found(best: Option<(Vec<PathPart>, usize)>) -> Largest {
    match best {
        Some(b) => Some((steps(b.0@), b.1 as nat)),
        None => None,
    }
}

fn copy_path(path: &Vec<PathPart>) -> (r: Vec<PathPart>)
    ensures
        steps(r@) == steps(path@),
{
    let mut r: Vec<PathPart> = Vec::new();
    let mut i: usize = 0;
    while i < path.len()
        invariant
            i <= path@.len(),
            r@.len() == i,
            forall|j: int| 0 <= j < i ==> (#[trigger] r@[j])@ == path@[j]@,
        decreases path@.len() - i,
    {
        let part = match &path[i] {
            PathPart::Key(k) => PathPart::Key(k.clone()),
            PathPart::Index(n) => PathPart::Index(*n),
        };
        r.push(part);
        i = i + 1;
    }
    assert(steps(r@) =~= steps(path@));
    r
}

fn visit(node: &Json, path: &Vec<PathPart>, best: Option<(Vec<PathPart>, usize)>) -> (r: Option<
    (Vec<PathPart>, usize),
>)
    ensures
        found(r) == best_of(node@, steps(path@), found(best)),
    decreases node,
{
    broadcast use group_json_views;

    match node {
        Json::Text(s) => {
            let size = byte_len(s);
            let better = match &best {
                Some((_, n)) => size > *n,
                None => true,
            };
            if size >= MIN_TRUNCATABLE && better {
                Some((copy_path(path), size))
            } else {
                best
            }
        },
        Json::Array(items) => {
            let mut found_best = best;
            let mut i: usize = 0;
            let ghost all = trees(items@);
            while i < items.len()
                invariant
                    i <= items@.len(),
                    node == Json::Array(*items),
                    all == trees(items@),
                    found(found_best) == best_item(all.take(i as int), steps(path@), found(best)),
                decreases items@.len() - i,
            {
                assert(decreases_to!(node => node->Array_0));
                assert(decreases_to!(node->Array_0 => node->Array_0@));
                assert(decreases_to!(node->Array_0@ => node->Array_0@[i as int]));
                let mut here = copy_path(path);
                here.push(PathPart::Index(i));
                assert(steps(here@) =~= steps(path@).push(Step::Index(i as int)));
                found_best = visit(&items[i], &here, found_best);
                i = i + 1;
                assert(all.take(i as int).drop_last() =~= all.take(i - 1));
            }
            assert(all.take(i as int) =~= all);
            found_best
        },
        Json::Object(o) => {
            let mut found_best = best;
            let mut i: usize = 0;
            let ghost all = fields(o@);
            while i < o.len()
                invariant
                    i <= o@.len(),
                    node == Json::Object(*o),
                    all == fields(o@),
                    found(found_best) == best_field(all.take(i as int), steps(path@), found(best)),
                decreases o@.len() - i,
            {
                assert(decreases_to!(node => node->Object_0));
                assert(decreases_to!(node->Object_0 => node->Object_0@));
                assert(decreases_to!(node->Object_0@ => node->Object_0@[i as int]));
                assert(decreases_to!(node->Object_0@[i as int] => node->Object_0@[i as int].1));
                let mut here = copy_path(path);
                here.push(PathPart::Key(o[i].0.clone()));
                assert(steps(here@) =~= steps(path@).push(Step::Key(o@[i as int].0@)));
                let ghost sofar = found(found_best);
                found_best = visit(&o[i].1, &here, found_best);
                i = i + 1;
                assert(all.take(i as int).drop_last() =~= all.take(i - 1));
                assert(all.take(i as int).last() == all[i - 1]);
                assert(best_value(all[i - 1], steps(path@), sofar) == best_of(
                    all[i - 1].1,
                    steps(path@).push(Step::Key(all[i - 1].0)),
                    sofar,
                ));
            }
            assert(all.take(i as int) =~= all);
            found_best
        },
        _ => best,
    }
}

/// The path to the longest text in `root`, and its length in bytes.
pub fn largest_string_path(root: &Json) -> (r: Option<(Vec<PathPart>, usize)>)
    ensures
        found(r) == largest_text(root@),
{
    broadcast use group_json_views;

    match root {
        Json::Text(_) => None,
        _ => {
            let path: Vec<PathPart> = Vec::new();
            assert(steps(path@) =~= Seq::empty());
            visit(root, &path, None)
        },
    }
}

/// `t` with the text at `path` shortened to about `keep` bytes; nothing where
/// there is no text.
pub open spec fn cut_at(t: Tree, path: Seq<Step>, keep: int) -> Option<Tree>
    decreases path.len(),
{
    if path.len() == 0 {
        match t {
            Tree::Text(s) => Some(Tree::Text(shortened(s, keep))),
            _ => None,
        }
    } else {
        match (path[0], t) {
            (Step::Key(k), Tree::Object(o)) => if position(o, k) < o.len() {
                match cut_at(o[position(o, k)].1, path.drop_first(), keep) {
                    Some(v) => Some(Tree::Object(put(o, k, v))),
                    None => None,
                }
            } else {
                None
            },
            (Step::Index(i), Tree::Array(items)) => if 0 <= i < items.len() {
                match cut_at(items[i], path.drop_first(), keep) {
                    Some(v) => Some(Tree::Array(items.update(i, v))),
                    None => None,
                }
            } else {
                None
            },
            _ => None,
        }
    }
}

/// Shortens the text at `path[from..]` in `value`; `None` where there is none.
fn truncate_at(value: Json, path: &Vec<PathPart>, from: usize, keep: usize) -> (r: Option<Json>)
    requires
        from <= path@.len(),
    ensures
        match r {
            Some(v) => cut_at(value@, steps(path@).skip(from as int), keep as int) == Some(v@),
            None => cut_at(value@, steps(path@).skip(from as int), keep as int) is None,
        },
    decreases path@.len() - from,
{
    broadcast use group_json_views;

    let ghost rest = steps(path@).skip(from as int);
    if from == path.len() {
        return match value {
            Json::Text(s) => Some(Json::Text(truncate_text(&s, keep))),
            _ => None,
        };
    }
    assert(rest.drop_first() =~= steps(path@).skip(from + 1));
    assert(rest[0] == path@[from as int]@);
    match &path[from] {
        PathPart::Key(k) => match value {
            Json::Object(mut o) => {
                let ghost before = fields(o@);
                let v = match field(&o, k) {
                    Some(v) => copy(v),
                    None => return None,
                };
                proof {
                    crate::json::lemma_position(before, k@);
                }
                match truncate_at(v, path, from + 1, keep) {
                    Some(cut) => {
                        set_field(&mut o, k, cut);
                        Some(Json::Object(o))
                    },
                    None => None,
                }
            },
            _ => None,
        },
        PathPart::Index(i) => match value {
            Json::Array(mut items) => {
                if *i >= items.len() {
                    return None;
                }
                let ghost before = trees(items@);
                let v = copy(&items[*i]);
                match truncate_at(v, path, from + 1, keep) {
                    Some(cut) => {
                        items.set(*i, cut);
                        assert(trees(items@) =~= before.update(*i as int, cut@));
                        Some(Json::Array(items))
                    },
                    None => None,
                }
            },
            _ => None,
        },
    }
}

/// How many bytes of a text of `raw` bytes are kept, where the whole takes
/// `current` and may take `budget`: in proportion, and a little less.
pub open spec fn kept_share(raw: int, budget: int, current: int) -> int {
    let share = whole(
        product(
            product(double_of(raw), quotient(double_of(budget), double_of(current))),
            (NINETEEN_TWENTIETHS as int, FRACTION as int),
        ),
    );
    let wanted = if share >= MIN_TRUNCATABLE {
        share
    } else {
        MIN_TRUNCATABLE as int
    };
    if wanted < raw {
        wanted
    } else if raw > 0 {
        raw - 1
    } else {
        0
    }
}

fn share_of(raw: usize, budget: usize, current: usize) -> (r: usize)
    requires
        current > 0,
    ensures
        r == kept_share(raw as int, budget as int, current as int),
{
    let c = from_count(current);
    proof {
        crate::ratio::lemma_double_of_positive(current as int);
    }
    let ratio = divide(from_count(budget), c);
    let share = to_count(
        multiply(multiply(from_count(raw), ratio), Double { m: NINETEEN_TWENTIETHS, e: FRACTION }),
    );
    let wanted = if share >= MIN_TRUNCATABLE {
        share
    } else {
        MIN_TRUNCATABLE
    };
    if wanted < raw {
        wanted
    } else {
        raw.saturating_sub(1)
    }
}

/// What `root` under `key` becomes when its largest texts are shortened, `passes`
/// times at most, until the whole takes no more than `budget`; and whether it does.
pub open spec fn shrunk(o: Fields, key: Seq<char>, budget: usize, passes: nat) -> (Fields, bool)
    decreases passes,
{
    let current = capped(json_size(Tree::Object(o)));
    if passes == 0 || current <= budget {
        (o, current <= budget)
    } else {
        match get(o, key) {
            Some(root) => match largest_text(root) {
                Some((path, raw)) => match cut_at(
                    root,
                    path,
                    kept_share(raw as int, budget as int, current as int),
                ) {
                    Some(cut) => shrunk(put(o, key, cut), key, budget, (passes - 1) as nat),
                    None => (o, false),
                },
                None => (o, false),
            },
            None => (o, false),
        }
    }
}

/// Shortens the largest texts under `root_key` until the response takes no more
/// than `budget`; whether it does.
pub fn shrink_largest(response: Object, root_key: &str, budget: usize) -> (r: (Object, bool))
    ensures
        fields(r.0@) == shrunk(fields(response@), root_key@, budget, MAX_PASSES as nat).0,
        r.1 == shrunk(fields(response@), root_key@, budget, MAX_PASSES as nat).1,
{
    let mut o = response;
    let ghost start = fields(response@);
    let mut passes: usize = MAX_PASSES;
    loop
        invariant
            start == fields(response@),
            passes <= MAX_PASSES,
            shrunk(fields(o@), root_key@, budget, passes as nat) == shrunk(start, root_key@, budget, MAX_PASSES as nat),
        decreases passes,
    {
        let current = object_size(&o);
        if passes == 0 || current <= budget {
            return (o, current <= budget);
        }
        let cut = match field(&o, root_key) {
            Some(root) => match largest_string_path(root) {
                Some((path, raw)) => {
                    let keep = share_of(raw, budget, current);
                    assert(steps(path@).skip(0) =~= steps(path@));
                    truncate_at(copy(root), &path, 0, keep)
                },
                None => None,
            },
            None => None,
        };
        match cut {
            Some(v) => {
                set_field(&mut o, root_key, v);
                passes = passes - 1;
            },
            None => {
                return (o, false);
            },
        }
    }
}

/// What is recorded of a response that took `original` bytes and now is `response`.
pub open spec fn record(original: usize, response: Tree) -> Fields {
    let done = match response {
        Tree::Object(o) => as_flag(get(o, "ok"@)) == Some(true),
        _ => false,
    };
    no_fields().with("response_truncated"@, Tree::Bool(true)).with(
        "original_bytes"@,
        Tree::Number(Num::Pos(original as u64)),
    ).with("delivered_bytes"@, Tree::Number(Num::Pos(capped(json_size(response)) as u64))).with(
        "continuation_available"@,
        Tree::Bool(false),
    ).with(
        "execution_status"@,
        Tree::Text(
            if done {
                "completed"@
            } else {
                "failed"@
            },
        ),
    )
}

pub fn truncation_meta(original: usize, response: &Json) -> (r: Object)
    ensures
        fields(r@) == record(original, response@),
{
    broadcast use group_json_views;

    let done = match response {
        Json::Object(o) => match flag_field(o, "ok") {
            Some(ok) => ok,
            None => false,
        },
        _ => false,
    };
    let mut meta = no_object();
    set_field(&mut meta, "response_truncated", Json::Bool(true));
    set_field(&mut meta, "original_bytes", count(original as u64));
    set_field(&mut meta, "delivered_bytes", count(serialized_size(response) as u64));
    set_field(&mut meta, "continuation_available", Json::Bool(false));
    set_field(
        &mut meta,
        "execution_status",
        string(
            if done {
                "completed"
            } else {
                "failed"
            },
        ),
    );
    meta
}

/// The response `o` with `meta` recorded in `result`; the record holds the length
/// of the response that carries it.
pub open spec fn recorded(o: Fields, result: Fields, meta: Fields) -> (Fields, Fields) {
    let once = o.with("result"@, Tree::Object(result.with(TRUNCATION_KEY@, Tree::Object(meta))));
    let delivered = capped(json_size(Tree::Object(once)));
    let last = meta.with("delivered_bytes"@, Tree::Number(Num::Pos(delivered as u64)));
    (once.with("result"@, Tree::Object(result.with(TRUNCATION_KEY@, Tree::Object(last)))), last)
}

fn write_record(response: Object, result: Object, meta: Object) -> (r: (Object, Object))
    ensures
        fields(r.0@) == recorded(fields(response@), fields(result@), fields(meta@)).0,
        fields(r.1@) == recorded(fields(response@), fields(result@), fields(meta@)).1,
{
    broadcast use group_json_views;

    let mut o = response;
    let mut last = copy_object(&meta);
    let mut first = copy_object(&result);
    set_field(&mut first, TRUNCATION_KEY, Json::Object(meta));
    set_field(&mut o, "result", Json::Object(first));
    let delivered = object_size(&o);
    set_field(&mut last, "delivered_bytes", count(delivered as u64));
    let mut second = result;
    set_field(&mut second, TRUNCATION_KEY, Json::Object(copy_object(&last)));
    set_field(&mut o, "result", Json::Object(second));
    (o, last)
}

/// Whether an error with a message stands in the response.
pub open spec fn has_message(o: Fields) -> bool {
    match as_fields(get(o, "error"@)) {
        Some(e) => as_text(get(e, "message"@)) is Some,
        None => false,
    }
}

/// What stands for a result that is left out.
pub open spec fn omission() -> Tree {
    Tree::Object(no_fields().with("note"@, Tree::Text("result omitted: too large to bound field-wise"@)))
}

/// What a response becomes under a limit of `limit` bytes, and what is recorded
/// of it; a response within the limit stays as it is.
pub open spec fn bounded(t: Tree, limit: usize) -> (Tree, Option<Tree>) {
    let original = capped(json_size(t));
    if original <= limit {
        (t, None)
    } else {
        let budget = (if limit >= META_RESERVE {
            limit - META_RESERVE
        } else {
            0
        }) as usize;
        let o = match t {
            Tree::Object(o) => o,
            _ => no_fields(),
        };
        if get(o, "result"@) matches Some(Tree::Object(_)) {
            let (first, fits) = shrunk(o, "result"@, budget, MAX_PASSES as nat);
            let small = if fits {
                first
            } else {
                first.with("result"@, omission())
            };
            let result = match get(small, "result"@) {
                Some(Tree::Object(f)) => f,
                _ => no_fields(),
            };
            let (last, meta) = recorded(small, result, record(original, Tree::Object(small)));
            (Tree::Object(last), Some(Tree::Object(meta)))
        } else {
            let small = if has_message(o) {
                shrunk(o, "error"@, budget, MAX_PASSES as nat).0
            } else {
                o
            };
            let now = match t {
                Tree::Object(_) => Tree::Object(small),
                _ => t,
            };
            let meta = record(original, now);
            match get(small, "result"@) {
                None | Some(Tree::Null) => {
                    let (last, meta) = recorded(small, no_fields(), meta);
                    (Tree::Object(last), Some(Tree::Object(meta)))
                },
                Some(Tree::Object(f)) => {
                    let (last, meta) = recorded(small, f, meta);
                    (Tree::Object(last), Some(Tree::Object(meta)))
                },
                _ => (
                    now,
                    Some(
                        Tree::Object(
                            meta.with(
                                "delivered_bytes"@,
                                Tree::Number(Num::Pos(capped(json_size(now)) as u64)),
                            ),
                        ),
                    ),
                ),
            }
        }
    }
}

/// Brings a response under `soft_limit` bytes as far as its texts allow. Returns
/// what was recorded, or nothing where the response was short enough.
pub fn bound_response(response: &mut Json, soft_limit: usize) -> (r: Option<Json>)
    requires
        old(response)@ is Object || old(response)@ is Null || json_size(old(response)@) <= soft_limit,
    ensures
        final(response)@ == bounded(old(response)@, soft_limit).0,
        match r {
            Some(meta) => bounded(old(response)@, soft_limit).1 == Some(meta@),
            None => bounded(old(response)@, soft_limit).1 is None,
        },
{
    broadcast use group_json_views;

    let original = serialized_size(response);
    if original <= soft_limit {
        return None;
    }
    let budget = soft_limit.saturating_sub(META_RESERVE);
    let mut whole_value = Json::Null;
    std::mem::swap(&mut whole_value, response);
    let ghost t = whole_value@;
    let is_object = match &whole_value {
        Json::Object(_) => true,
        _ => false,
    };
    let o = into_object(whole_value);
    let result_is_object = match field(&o, "result") {
        Some(Json::Object(_)) => true,
        _ => false,
    };
    if result_is_object {
        let (first, fits) = shrink_largest(o, "result", budget);
        let mut small = first;
        if !fits {
            let mut note = no_object();
            set_field(&mut note, "note", string("result omitted: too large to bound field-wise"));
            set_field(&mut small, "result", Json::Object(note));
        }
        let result = match field(&small, "result") {
            Some(Json::Object(f)) => copy_object(f),
            _ => no_object(),
        };
        let now = Json::Object(small);
        let meta = truncation_meta(original, &now);
        let (last, meta) = write_record(into_object(now), result, meta);
        *response = Json::Object(last);
        return Some(Json::Object(meta));
    }
    let message = match object_field(&o, "error") {
        Some(e) => text_field(e, "message").is_some(),
        None => false,
    };
    let small = if message {
        shrink_largest(o, "error", budget).0
    } else {
        o
    };
    let result = match field(&small, "result") {
        None | Some(Json::Null) => Some(no_object()),
        Some(Json::Object(f)) => Some(copy_object(f)),
        _ => None,
    };
    let now = if is_object {
        Json::Object(small)
    } else {
        Json::Null
    };
    let meta = truncation_meta(original, &now);
    match result {
        Some(result) => {
            let (last, meta) = write_record(into_object(now), result, meta);
            *response = Json::Object(last);
            Some(Json::Object(meta))
        },
        None => {
            let mut last = meta;
            set_field(&mut last, "delivered_bytes", count(serialized_size(&now) as u64));
            *response = now;
            Some(Json::Object(last))
        },
    }
}

/// `bound_response` under the protocol's own limit.
pub fn bound_response_default(response: &mut Json) -> (r: Option<Json>)
    requires
        old(response)@ is Object || old(response)@ is Null || json_size(old(response)@) <= RESPONSE_SOFT_LIMIT_BYTES,
    ensures
        final(response)@ == bounded(old(response)@, RESPONSE_SOFT_LIMIT_BYTES).0,
        match r {
            Some(meta) => bounded(old(response)@, RESPONSE_SOFT_LIMIT_BYTES).1 == Some(meta@),
            None => bounded(old(response)@, RESPONSE_SOFT_LIMIT_BYTES).1 is None,
        },
{
    bound_response(response, RESPONSE_SOFT_LIMIT_BYTES)
}

proof fn lemma_update_size(o: Fields, i: int, f: (Seq<char>, Tree))
    requires
        0 <= i < o.len(),
    ensures
        fields_size(o.update(i, f)) + field_size(o[i]) == fields_size(o) + field_size(f),
    decreases o.len(),
{
    let u = o.update(i, f);
    if i == o.len() - 1 {
        assert(u.drop_last() =~= o.drop_last());
    } else {
        lemma_update_size(o.drop_last(), i, f);
        assert(u.drop_last() =~= o.drop_last().update(i, f));
    }
}

proof fn lemma_insert_size(o: Fields, i: int, f: (Seq<char>, Tree))
    requires
        0 <= i <= o.len(),
    ensures
        fields_size(o.insert(i, f)) == fields_size(o) + field_size(f),
    decreases o.len(),
{
    let u = o.insert(i, f);
    if i == o.len() {
        assert(u.drop_last() =~= o);
    } else {
        lemma_insert_size(o.drop_last(), i, f);
        assert(u.drop_last() =~= o.drop_last().insert(i, f));
        assert(u.last() == o.last());
    }
}

/// What putting a value under a key adds at most.
proof fn lemma_put_size(o: Fields, k: Seq<char>, v: Tree)
    ensures
        json_size(Tree::Object(put(o, k, v))) <= json_size(Tree::Object(o)) + string_size(k) + 4 + json_size(v),
        get(o, k) matches Some(w) ==> json_size(Tree::Object(put(o, k, v))) + json_size(w) == json_size(Tree::Object(o))
            + json_size(v),
{
    reveal(put);
    crate::json::lemma_position(o, k);
    crate::json::lemma_slot(o, k);
    let p = position(o, k);
    assert(field_size((k, v)) == string_size(k) + 2 + json_size(v));
    if p < o.len() {
        lemma_update_size(o, p, (k, v));
        assert(field_size(o[p]) == string_size(o[p].0) + 2 + json_size(o[p].1));
    } else {
        lemma_insert_size(o, crate::json::slot(o, k), (k, v));
    }
}

/// Characters that JSON writes as they are.
pub open spec fn plain(s: Seq<char>) -> bool {
    forall|i: int| 0 <= i < s.len() ==> char_size(#[trigger] s[i]) == 1
}

proof fn lemma_plain_size(s: Seq<char>)
    requires
        plain(s),
    ensures
        chars_size(s) == s.len(),
    decreases s.len(),
{
    if s.len() > 0 {
        assert(plain(s.drop_last()));
        lemma_plain_size(s.drop_last());
        assert(char_size(s[s.len() - 1]) == 1);
    }
}

proof fn lemma_record_size(original: usize, response: Tree, delivered: u64)
    ensures
        json_size(
            Tree::Object(record(original, response).with("delivered_bytes"@, Tree::Number(Num::Pos(delivered)))),
        ) <= 230,
        string_size(TRUNCATION_KEY@) == 13,
{
    reveal_strlit("response_truncated");
    reveal_strlit("original_bytes");
    reveal_strlit("delivered_bytes");
    reveal_strlit("continuation_available");
    reveal_strlit("execution_status");
    reveal_strlit("completed");
    reveal_strlit("failed");
    reveal_strlit("_truncation");
    lemma_plain_size("response_truncated"@);
    lemma_plain_size("original_bytes"@);
    lemma_plain_size("delivered_bytes"@);
    lemma_plain_size("continuation_available"@);
    lemma_plain_size("execution_status"@);
    lemma_plain_size("completed"@);
    lemma_plain_size("failed"@);
    lemma_plain_size("_truncation"@);
    let now = capped(json_size(response)) as u64;
    crate::digits::lemma_decimal_bytes(original as u64);
    crate::digits::lemma_decimal_bytes(now);
    crate::digits::lemma_decimal_bytes(delivered);
    let done = match response {
        Tree::Object(o) => as_flag(get(o, "ok"@)) == Some(true),
        _ => false,
    };
    let status = Tree::Text(
        if done {
            "completed"@
        } else {
            "failed"@
        },
    );
    let a = no_fields();
    let b = a.with("response_truncated"@, Tree::Bool(true));
    lemma_put_size(a, "response_truncated"@, Tree::Bool(true));
    let c = b.with("original_bytes"@, Tree::Number(Num::Pos(original as u64)));
    lemma_put_size(b, "original_bytes"@, Tree::Number(Num::Pos(original as u64)));
    let d = c.with("delivered_bytes"@, Tree::Number(Num::Pos(now)));
    lemma_put_size(c, "delivered_bytes"@, Tree::Number(Num::Pos(now)));
    let e = d.with("continuation_available"@, Tree::Bool(false));
    lemma_put_size(d, "continuation_available"@, Tree::Bool(false));
    let f = e.with("execution_status"@, status);
    lemma_put_size(e, "execution_status"@, status);
    lemma_put_size(f, "delivered_bytes"@, Tree::Number(Num::Pos(delivered)));
    assert(f == record(original, response));
    assert(json_size(Tree::Object(a)) == 2);
}

proof fn lemma_shrunk_keeps_object(o: Fields, key: Seq<char>, budget: usize, passes: nat)
    requires
        get(o, key) matches Some(Tree::Object(_)),
    ensures
        get(shrunk(o, key, budget, passes).0, key) matches Some(Tree::Object(_)),
        shrunk(o, key, budget, passes).1 ==> capped(json_size(Tree::Object(shrunk(o, key, budget, passes).0))) <= budget,
    decreases passes,
{
    let current = capped(json_size(Tree::Object(o)));
    if passes != 0 && current > budget {
        let root = get(o, key)->0;
        if let Some((path, raw)) = largest_text(root) {
            if let Some(cut) = cut_at(root, path, kept_share(raw as int, budget as int, current as int)) {
                crate::json::put_then_get(o, key, cut, key);
                lemma_shrunk_keeps_object(put(o, key, cut), key, budget, (passes - 1) as nat);
            }
        }
    }
}

/// Of two values under a key, the later one stays.
proof fn lemma_put_again(o: Fields, k: Seq<char>, first: Tree, second: Tree)
    requires
        get(o, k) is Some,
    ensures
        put(put(o, k, first), k, second) == put(o, k, second),
{
    reveal(put);
    crate::json::lemma_position(o, k);
    let p = position(o, k);
    let one = put(o, k, first);
    assert forall|i: int| 0 <= i < p implies #[trigger] one[i].0 != k by {
        assert(one[i] == o[i]);
    }
    crate::json::lemma_position_is(one, k, p);
    assert(put(one, k, second) =~= put(o, k, second));
}

/// Shortening texts under a key leaves the other fields as they are.
proof fn lemma_shrunk_keeps_the_rest(o: Fields, key: Seq<char>, budget: usize, passes: nat, v: Tree)
    requires
        get(o, key) is Some,
    ensures
        get(shrunk(o, key, budget, passes).0, key) is Some,
        put(shrunk(o, key, budget, passes).0, key, v) == put(o, key, v),
    decreases passes,
{
    let current = capped(json_size(Tree::Object(o)));
    if passes != 0 && current > budget {
        let root = get(o, key)->0;
        if let Some((path, raw)) = largest_text(root) {
            if let Some(cut) = cut_at(root, path, kept_share(raw as int, budget as int, current as int)) {
                crate::json::put_then_get(o, key, cut, key);
                lemma_shrunk_keeps_the_rest(put(o, key, cut), key, budget, (passes - 1) as nat, v);
                lemma_put_again(o, key, cut, v);
            }
        }
    }
}

proof fn lemma_omission_size()
    ensures
        json_size(omission()) <= 70,
{
    reveal_strlit("note");
    reveal_strlit("result omitted: too large to bound field-wise");
    lemma_plain_size("note"@);
    lemma_plain_size("result omitted: too large to bound field-wise"@);
    lemma_put_size(no_fields(), "note"@, Tree::Text("result omitted: too large to bound field-wise"@));
    assert(json_size(Tree::Object(no_fields())) == 2);
}

/// What recording adds to a response.
proof fn lemma_recorded_size(small: Fields, original: usize)
    requires
        get(small, "result"@) matches Some(Tree::Object(_)),
    ensures
        json_size(
            Tree::Object(
                recorded(small, get(small, "result"@)->0->Object_0, record(original, Tree::Object(small))).0,
            ),
        ) <= json_size(Tree::Object(small)) + 247,
{
    let result = get(small, "result"@)->0->Object_0;
    let meta = record(original, Tree::Object(small));
    let in_first = Tree::Object(result.with(TRUNCATION_KEY@, Tree::Object(meta)));
    let once = small.with("result"@, in_first);
    let delivered = capped(json_size(Tree::Object(once))) as u64;
    let last = meta.with("delivered_bytes"@, Tree::Number(Num::Pos(delivered)));
    let in_second = Tree::Object(result.with(TRUNCATION_KEY@, Tree::Object(last)));
    lemma_record_size(original, Tree::Object(small), delivered);
    lemma_put_size(result, TRUNCATION_KEY@, Tree::Object(last));
    lemma_put_size(small, "result"@, in_first);
    crate::json::put_then_get(small, "result"@, in_first, "result"@);
    lemma_put_size(once, "result"@, in_second);
}

/// A response with a result is, with its record, within the limit: its texts could
/// be shortened enough, or else the result is left out, which is enough where the
/// other fields leave room for the record.
pub proof fn bounded_fits(o: Fields, limit: usize)
    requires
        META_RESERVE <= limit < usize::MAX,
        get(o, "result"@) matches Some(Tree::Object(_)),
        shrunk(o, "result"@, (limit - META_RESERVE) as usize, MAX_PASSES as nat).1 || json_size(
            Tree::Object(o.with("result"@, Tree::Null)),
        ) <= limit - META_RESERVE,
    ensures
        json_size(bounded(Tree::Object(o), limit).0) <= limit,
{
    let t = Tree::Object(o);
    let original = capped(json_size(t));
    if original > limit {
        let budget = (limit - META_RESERVE) as usize;
        let (first, fits) = shrunk(o, "result"@, budget, MAX_PASSES as nat);
        lemma_shrunk_keeps_object(o, "result"@, budget, MAX_PASSES as nat);
        let small = if fits {
            first
        } else {
            first.with("result"@, omission())
        };
        if !fits {
            lemma_shrunk_keeps_the_rest(o, "result"@, budget, MAX_PASSES as nat, omission());
            crate::json::put_then_get(o, "result"@, Tree::Null, "result"@);
            crate::json::put_then_get(first, "result"@, omission(), "result"@);
            lemma_put_again(o, "result"@, Tree::Null, omission());
            lemma_put_size(o.with("result"@, Tree::Null), "result"@, omission());
            lemma_omission_size();
        }
        lemma_recorded_size(small, original);
    }
}

proof fn lemma_chars_size_adds(a: Seq<char>, b: Seq<char>)
    ensures
        chars_size(a + b) == chars_size(a) + chars_size(b),
    decreases b.len(),
{
    if b.len() == 0 {
        assert(a + b =~= a);
    } else {
        assert((a + b).drop_last() =~= a + b.drop_last());
        assert((a + b).last() == b.last());
        lemma_chars_size_adds(a, b.drop_last());
    }
}

/// Two texts in one take what both take, less one pair of quotes.
pub proof fn joined_texts_add_up(a: Seq<char>, b: Seq<char>)
    ensures
        string_size(a + b) + 2 == string_size(a) + string_size(b),
{
    lemma_chars_size_adds(a, b);
}

/// A text takes at least its characters and the quotes.
pub proof fn texts_take_their_characters(s: Seq<char>)
    ensures
        string_size(s) >= 2 + s.len(),
    decreases s.len(),
{
    if s.len() > 0 {
        texts_take_their_characters(s.drop_last());
    }
}

/// Text that is well-formed is kept as it is.
pub proof fn whole_text_is_kept(s: Seq<char>)
    ensures
        kept_text(bytes_of(s)) == s,
{
    vstd::utf8::encode_utf8_valid_utf8(s);
    vstd::utf8::encode_utf8_decode_utf8(s);
    if bytes_of(s).len() == 0 {
        if s.len() > 0 {
            vstd::utf8::encode_utf8_first_scalar(s);
        }
        assert(s =~= Seq::empty());
    }
}

/// Of a text that is longer than may be kept, the beginning and the end stay, with a
/// marker between them that says how many bytes are missing. The beginning gets six
/// tenths of the room up to a byte, and the end the rest of it.
pub proof fn shortened_text_keeps_its_ends(head: Seq<char>, middle: Seq<char>, tail: Seq<char>, keep: int)
    requires
        0 < keep < 0x1000000000000,
        keep <= usize::MAX,
        bytes_of(middle).len() > 0,
        bytes_of(head).len() == head_share(keep),
        bytes_of(head).len() + bytes_of(tail).len() == keep,
    ensures
        shortened(head + middle + tail, keep) == head + ("\n…[sentinelx: truncated "@ + decimal(bytes_of(middle).len())
            + " bytes]…\n"@) + tail,
        5 * bytes_of(head).len() <= 3 * keep <= 5 * bytes_of(head).len() + 5,
{
    let s = head + middle + tail;
    six_tenths(keep);
    lemma_bytes_concat(head + middle, tail);
    lemma_bytes_concat(head, middle);
    let raw = bytes_of(s);
    assert(raw.len() == bytes_of(head).len() + bytes_of(middle).len() + bytes_of(tail).len());
    assert(raw.take(head_share(keep)) =~= bytes_of(head));
    assert(raw.skip(raw.len() - bytes_of(tail).len()) =~= bytes_of(tail));
    whole_text_is_kept(head);
    whole_text_is_kept(tail);
}

/// A plain text that is longer than may be kept becomes a prefix and a suffix of it
/// around a marker, which together have as many characters as may be kept.
pub proof fn shortened_plain_text_keeps_its_ends(s: Seq<char>, keep: int) -> (h: int)
    requires
        vstd::utf8::is_ascii_chars(s),
        0 < keep < s.len(),
        keep < 0x1000000000000,
        keep <= usize::MAX,
    ensures
        0 <= h <= keep,
        5 * h <= 3 * keep <= 5 * h + 5,
        shortened(s, keep) == s.take(h) + ("\n…[sentinelx: truncated "@ + decimal((s.len() - keep) as nat) + " bytes]…\n"@)
            + s.skip(s.len() - (keep - h)),
{
    let h = head_share(keep);
    six_tenths(keep);
    let t = s.len() - (keep - h);
    let (a, b, c) = (s.take(h), s.subrange(h, t), s.skip(t));
    vstd::utf8::is_ascii_chars_encode_utf8(a);
    vstd::utf8::is_ascii_chars_encode_utf8(b);
    vstd::utf8::is_ascii_chars_encode_utf8(c);
    assert(a + b + c =~= s);
    shortened_text_keeps_its_ends(a, b, c, keep);
    h
}

/// A text that is short enough stays as it is.
pub proof fn short_text_stays(s: Seq<char>, keep: int)
    requires
        bytes_of(s).len() <= keep,
    ensures
        shortened(s, keep) == s,
{
}

/// A response that fits is delivered as it is, and nothing is recorded of it.
pub proof fn small_responses_stay(t: Tree, limit: usize)
    requires
        json_size(t) <= limit,
    ensures
        bounded(t, limit) == (t, None::<Tree>),
{
}

/// What is recorded of a truncation tells the size before and after, and whether the
/// operation went well.
pub proof fn truncations_are_told(original: usize, o: Fields)
    ensures
        get(record(original, Tree::Object(o)), "response_truncated"@) == Some(Tree::Bool(true)),
        get(record(original, Tree::Object(o)), "original_bytes"@) == Some(Tree::Number(Num::Pos(original as u64))),
        json_size(Tree::Object(o)) <= usize::MAX ==> get(record(original, Tree::Object(o)), "delivered_bytes"@) == Some(
            Tree::Number(Num::Pos(json_size(Tree::Object(o)) as u64)),
        ),
        get(record(original, Tree::Object(o)), "continuation_available"@) == Some(Tree::Bool(false)),
        get(o, "ok"@) == Some(Tree::Bool(true)) ==> get(record(original, Tree::Object(o)), "execution_status"@) == Some(
            Tree::Text("completed"@),
        ),
        get(o, "ok"@) != Some(Tree::Bool(true)) ==> get(record(original, Tree::Object(o)), "execution_status"@) == Some(
            Tree::Text("failed"@),
        ),
{
    broadcast use lemma_get_put;

    reveal_strlit("response_truncated");
    reveal_strlit("original_bytes");
    reveal_strlit("delivered_bytes");
    reveal_strlit("continuation_available");
    reveal_strlit("execution_status");
    assert("response_truncated"@.len() == 18 && "original_bytes"@.len() == 14 && "delivered_bytes"@.len() == 15
        && "continuation_available"@.len() == 22 && "execution_status"@.len() == 16);
}

/// Shortening the texts of one part leaves the others as they are.
pub proof fn other_parts_stay(o: Fields, key: Seq<char>, budget: usize, passes: nat, other: Seq<char>)
    requires
        other != key,
    ensures
        get(shrunk(o, key, budget, passes).0, other) == get(o, other),
    decreases passes,
{
    broadcast use lemma_get_put;

    let current = capped(json_size(Tree::Object(o)));
    if passes == 0 || current <= budget {
    } else if let Some(root) = get(o, key) {
        if let Some((path, raw)) = largest_text(root) {
            if let Some(cut) = cut_at(root, path, kept_share(raw as int, budget as int, current as int)) {
                other_parts_stay(put(o, key, cut), key, budget, (passes - 1) as nat, other);
            }
        }
    }
}

/// A result that is too large is delivered with the record of its truncation, the same one
/// that is returned; whether the operation went well, and which request it answers, stays.
pub proof fn large_results_are_recorded(o: Fields, limit: usize, result: Fields, other: Seq<char>)
    requires
        json_size(Tree::Object(o)) > limit,
        limit < usize::MAX,
        get(o, "result"@) == Some(Tree::Object(result)),
        other != "result"@,
    ensures
        bounded(Tree::Object(o), limit).0 matches Tree::Object(p) && get(p, other) == get(o, other),
        bounded(Tree::Object(o), limit).0 matches Tree::Object(p) && get(p, "result"@) matches Some(Tree::Object(r)) && bounded(
            Tree::Object(o),
            limit,
        ).1 is Some && get(r, "_truncation"@) == bounded(Tree::Object(o), limit).1,
        bounded(Tree::Object(o), limit).1 matches Some(Tree::Object(m)) && get(m, "response_truncated"@) == Some(
            Tree::Bool(true),
        ) && get(m, "original_bytes"@) == Some(Tree::Number(Num::Pos(capped(json_size(Tree::Object(o))) as u64))),
{
    broadcast use lemma_get_put;

    reveal_strlit("response_truncated");
    reveal_strlit("original_bytes");
    reveal_strlit("delivered_bytes");
    reveal_strlit("continuation_available");
    reveal_strlit("execution_status");
    assert("response_truncated"@.len() == 18 && "original_bytes"@.len() == 14 && "delivered_bytes"@.len() == 15
        && "continuation_available"@.len() == 22 && "execution_status"@.len() == 16);
    let budget = (if limit >= META_RESERVE {
        limit - META_RESERVE
    } else {
        0
    }) as usize;
    other_parts_stay(o, "result"@, budget, MAX_PASSES as nat, other);
}

/// What is kept of a text is less than all of it, and at least as much as is worth keeping.
pub proof fn shares_are_smaller(raw: int, budget: int, current: int)
    requires
        raw > 0,
    ensures
        0 <= kept_share(raw, budget, current) < raw,
        raw > 256 ==> kept_share(raw, budget, current) >= 256,
{
}

/// A plain text takes as many bytes as it has characters, and two for its quotes.
pub proof fn plain_texts_take_one_byte_each(s: Seq<char>)
    requires
        plain(s),
    ensures
        json_size(Tree::Text(s)) == s.len() + 2,
    decreases s.len(),
{
    lemma_plain_size(s);
}

/// A list takes the bytes of its entries, two for its brackets and two between each two.
pub proof fn lists_take_their_entries(items: Seq<Tree>, t: Tree)
    ensures
        json_size(Tree::Array(Seq::empty())) == 2,
        json_size(Tree::Array(seq![t])) == 2 + json_size(t),
        items.len() > 0 ==> json_size(Tree::Array(items.push(t))) == json_size(Tree::Array(items)) + 2 + json_size(t),
{
    let one = seq![t];
    let more = items.push(t);
    assert(more.drop_last() =~= items);
    assert(one.drop_last() =~= Seq::<Tree>::empty());
    assert(items_size(Seq::<Tree>::empty()) == 0);
    assert(items_size(one) == items_size(one.drop_last()) + json_size(one.last()));
    assert(items_size(more) == items_size(more.drop_last()) + json_size(more.last()));
    assert(json_size(Tree::Array(one)) == 2 + items_size(one) + separators(one.len()));
    assert(json_size(Tree::Array(more)) == 2 + items_size(more) + separators(more.len()));
    assert(json_size(Tree::Array(items)) == 2 + items_size(items) + separators(items.len()));
}

/// An object takes the bytes of its keys and its values, two for its braces, and two behind
/// each key and between each two entries.
pub proof fn objects_take_their_entries(o: Fields, k: Seq<char>, t: Tree)
    ensures
        json_size(Tree::Object(seq![(k, t)])) == 4 + string_size(k) + json_size(t),
        o.len() > 0 ==> json_size(Tree::Object(o.push((k, t)))) == json_size(Tree::Object(o)) + 4 + string_size(k) + json_size(t),
{
    let one = seq![(k, t)];
    let more = o.push((k, t));
    assert(more.drop_last() =~= o);
    assert(one.drop_last() =~= Seq::<(Seq<char>, Tree)>::empty());
    assert(fields_size(Seq::<(Seq<char>, Tree)>::empty()) == 0);
    assert(fields_size(one) == fields_size(one.drop_last()) + field_size(one.last()));
    assert(fields_size(more) == fields_size(more.drop_last()) + field_size(more.last()));
    assert(field_size((k, t)) == string_size(k) + 2 + json_size(t));
    assert(json_size(Tree::Object(one)) == 2 + fields_size(one) + separators(one.len()));
    assert(json_size(Tree::Object(more)) == 2 + fields_size(more) + separators(more.len()));
    assert(json_size(Tree::Object(o)) == 2 + fields_size(o) + separators(o.len()));
}

spec fn length_of(best: Largest) -> nat {
    match best {
        Some(b) => b.1,
        None => 0,
    }
}

proof fn lemma_best_grows(t: Tree, path: Seq<Step>, best: Largest)
    ensures
        length_of(best_of(t, path, best)) >= length_of(best),
    decreases t,
{
    match t {
        Tree::Array(items) => lemma_best_item_grows(items, path, best),
        Tree::Object(o) => lemma_best_field_grows(o, path, best),
        _ => {},
    }
}

proof fn lemma_best_item_grows(items: Seq<Tree>, path: Seq<Step>, best: Largest)
    ensures
        length_of(best_item(items, path, best)) >= length_of(best),
    decreases items,
{
    if items.len() > 0 {
        lemma_best_item_grows(items.drop_last(), path, best);
        lemma_best_grows(
            items.last(),
            path.push(Step::Index(items.len() - 1)),
            best_item(items.drop_last(), path, best),
        );
    }
}

proof fn lemma_best_field_grows(o: Fields, path: Seq<Step>, best: Largest)
    ensures
        length_of(best_field(o, path, best)) >= length_of(best),
    decreases o,
{
    if o.len() > 0 {
        lemma_best_field_grows(o.drop_last(), path, best);
        lemma_best_value_grows(o.last(), path, best_field(o.drop_last(), path, best));
    }
}

proof fn lemma_best_value_grows(f: (Seq<char>, Tree), path: Seq<Step>, best: Largest)
    ensures
        length_of(best_value(f, path, best)) >= length_of(best),
    decreases f,
{
    lemma_best_grows(f.1, path.push(Step::Key(f.0)), best);
}

/// The text at a place: the number of an entry of a list or of an object, from the outside in.
pub open spec fn text_at(t: Tree, place: Seq<int>) -> Option<Seq<char>>
    decreases place.len(),
{
    if place.len() == 0 {
        match t {
            Tree::Text(s) => Some(s),
            _ => None,
        }
    } else {
        match t {
            Tree::Array(items) => if 0 <= place[0] < items.len() {
                text_at(items[place[0]], place.drop_first())
            } else {
                None
            },
            Tree::Object(o) => if 0 <= place[0] < o.len() {
                text_at(o[place[0]].1, place.drop_first())
            } else {
                None
            },
            _ => None,
        }
    }
}

proof fn lemma_best_is_longest(t: Tree, place: Seq<int>, path: Seq<Step>, best: Largest)
    requires
        text_at(t, place) matches Some(s) && bytes_of(s).len() >= MIN_TRUNCATABLE,
    ensures
        best_of(t, path, best) is Some,
        length_of(best_of(t, path, best)) >= bytes_of(text_at(t, place)->0).len(),
    decreases place.len(), 0int,
{
    if place.len() > 0 {
        match t {
            Tree::Array(items) => lemma_best_item_is_longest(items, items.len() as int, place, path, best),
            Tree::Object(o) => lemma_best_field_is_longest(o, o.len() as int, place, path, best),
            _ => {},
        }
    }
}

proof fn lemma_best_item_is_longest(items: Seq<Tree>, n: int, place: Seq<int>, path: Seq<Step>, best: Largest)
    requires
        place.len() > 0,
        0 <= place[0] < n,
        n == items.len(),
        text_at(items[place[0]], place.drop_first()) matches Some(s) && bytes_of(s).len() >= MIN_TRUNCATABLE,
    ensures
        best_item(items, path, best) is Some,
        length_of(best_item(items, path, best)) >= bytes_of(text_at(items[place[0]], place.drop_first())->0).len(),
    decreases place.len(), 0int, n,
{
    let front = items.drop_last();
    let last = path.push(Step::Index(items.len() - 1));
    if place[0] == n - 1 {
        lemma_best_is_longest(items.last(), place.drop_first(), last, best_item(front, path, best));
    } else {
        assert(front[place[0]] == items[place[0]]);
        lemma_best_item_is_longest(front, n - 1, place, path, best);
        lemma_best_grows(items.last(), last, best_item(front, path, best));
    }
}

proof fn lemma_best_field_is_longest(o: Fields, n: int, place: Seq<int>, path: Seq<Step>, best: Largest)
    requires
        place.len() > 0,
        0 <= place[0] < n,
        n == o.len(),
        text_at(o[place[0]].1, place.drop_first()) matches Some(s) && bytes_of(s).len() >= MIN_TRUNCATABLE,
    ensures
        best_field(o, path, best) is Some,
        length_of(best_field(o, path, best)) >= bytes_of(text_at(o[place[0]].1, place.drop_first())->0).len(),
    decreases place.len(), 0int, n,
{
    let front = o.drop_last();
    if place[0] == n - 1 {
        lemma_best_is_longest(o.last().1, place.drop_first(), path.push(Step::Key(o.last().0)), best_field(front, path, best));
    } else {
        assert(front[place[0]] == o[place[0]]);
        lemma_best_field_is_longest(front, n - 1, place, path, best);
        lemma_best_value_grows(o.last(), path, best_field(front, path, best));
    }
}

/// No text of a value is longer than the one that is shortened next, wherever it stands.
pub proof fn longest_texts_are_shortened_first(root: Tree, place: Seq<int>)
    requires
        !(root is Text),
        text_at(root, place) matches Some(s) && bytes_of(s).len() >= 256,
    ensures
        largest_text(root) matches Some((_, n)) && n >= bytes_of(text_at(root, place)->0).len(),
{
    lemma_best_is_longest(root, place, Seq::empty(), None);
}

} // verus!
