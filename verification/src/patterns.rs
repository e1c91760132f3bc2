//! Regular expressions, matched by the `regex` crate.

use crate::text::bytes_of;
use vstd::prelude::*;
use vstd::utf8::is_char_boundary;

verus! {

/// What is wrong with a regular expression, where something is.
pub uninterp spec fn regex_fault(pattern: Seq<char>, multiline: bool, dotall: bool) -> Option<Seq<char>>;

/// Where a regular expression matches in a text: the bytes from which to which.
pub uninterp spec fn regex_spans(pattern: Seq<char>, multiline: bool, dotall: bool, text: Seq<char>) -> Seq<(int, int)>;

/// A text with the matches of a regular expression replaced, the first `limit` of
/// them, or all where that is zero.
pub uninterp spec fn regex_replaced(
    pattern: Seq<char>,
    multiline: bool,
    dotall: bool,
    text: Seq<char>,
    limit: usize,
    replacement: Seq<char>,
) -> Seq<char>;

pub open spec fn span_views(spans: Seq<(usize, usize)>) -> Seq<(int, int)> {
    Seq::new(spans.len(), |i: int| (spans[i].0 as int, spans[i].1 as int))
}

/// Spans lie one behind the other in bytes, and begin and end between characters.
pub open spec fn spans_fit(spans: Seq<(int, int)>, bytes: Seq<u8>) -> bool {
    &&& forall|i: int|
        0 <= i < spans.len() ==> 0 <= (#[trigger] spans[i]).0 <= spans[i].1 <= bytes.len() && is_char_boundary(
            bytes,
            spans[i].0,
        ) && is_char_boundary(bytes, spans[i].1)
    &&& forall|i: int, j: int| 0 <= i < j < spans.len() ==> (#[trigger] spans[i]).1 <= (#[trigger] spans[j]).0
}

/// Bytes with the spans replaced by the parts, one for each.
pub open spec fn spliced(bytes: Seq<u8>, spans: Seq<(int, int)>, parts: Seq<Seq<u8>>) -> Seq<u8>
    decreases spans.len(),
{
    if spans.len() == 0 {
        bytes
    } else {
        spliced(bytes.take(spans.last().0), spans.drop_last(), parts.drop_last()) + parts.last() + bytes.skip(spans.last().1)
    }
}

/// How many of the spans are replaced: the first `limit`, or all where that is zero.
pub open spec fn replaced_spans(spans: Seq<(int, int)>, limit: usize) -> int {
    if 0 < limit < spans.len() {
        limit as int
    } else {
        spans.len() as int
    }
}

/// One text is another with the first `limit` spans replaced, or all of them where that
/// is zero: by the replacement itself where that has no dollar sign.
pub open spec fn replaces_spans(
    before: Seq<char>,
    after: Seq<char>,
    spans: Seq<(int, int)>,
    limit: usize,
    replacement: Seq<char>,
) -> bool {
    exists|parts: Seq<Seq<u8>>|
        {
            &&& parts.len() == replaced_spans(spans, limit)
            &&& !replacement.contains('$') ==> forall|i: int| 0 <= i < parts.len() ==> #[trigger] parts[i] == bytes_of(replacement)
            &&& bytes_of(after) == #[trigger] spliced(
                bytes_of(before),
                spans.take(replaced_spans(spans, limit)),
                parts,
            )
        }
}

/// `regex::RegexBuilder` with `multi_line` and `dot_matches_new_line`, its `build`,
/// and `Regex::find_iter`: the error by its `to_string`, or the start and end of
/// every match. Which texts match is `regex`'s matter; the matches do not overlap,
/// come in order, and begin and end between characters.
#[verifier::external_body]
pub(crate) fn find_all(pattern: &str, multiline: bool, dotall: bool, text: &str) -> (r: Result<Vec<(usize, usize)>, String>)
    ensures
        r is Err <==> regex_fault(pattern@, multiline, dotall) is Some,
        r matches Err(e) ==> regex_fault(pattern@, multiline, dotall) == Some(e@),
        r matches Ok(s) ==> span_views(s@) == regex_spans(pattern@, multiline, dotall, text@),
        r matches Ok(s) ==> spans_fit(span_views(s@), bytes_of(text@)),
{
    match regex::RegexBuilder::new(pattern).multi_line(multiline).dot_matches_new_line(dotall).build() {
        Ok(regex) => Ok(regex.find_iter(text).map(|m| (m.start(), m.end())).collect()),
        Err(error) => Err(error.to_string()),
    }
}

/// `regex::Regex::replacen` of an expression that `regex::RegexBuilder` builds: the
/// text with the first `limit` matches replaced, or all of them where `limit` is
/// zero. The matches are those of `Regex::find_iter`, and what lies around them stays.
/// How a replacement with a dollar sign refers to the groups of a match is `regex`'s
/// matter.
#[verifier::external_body]
pub(crate) fn replace_matches(
    pattern: &str,
    multiline: bool,
    dotall: bool,
    text: &str,
    limit: usize,
    replacement: &str,
) -> (r: Result<String, String>)
    ensures
        r is Err <==> regex_fault(pattern@, multiline, dotall) is Some,
        r matches Err(e) ==> regex_fault(pattern@, multiline, dotall) == Some(e@),
        r matches Ok(s) ==> s@ == regex_replaced(pattern@, multiline, dotall, text@, limit, replacement@),
        r matches Ok(s) ==> replaces_spans(
            text@,
            s@,
            regex_spans(pattern@, multiline, dotall, text@),
            limit,
            replacement@,
        ),
{
    match regex::RegexBuilder::new(pattern).multi_line(multiline).dot_matches_new_line(dotall).build() {
        Ok(regex) => Ok(regex.replacen(text, limit, replacement).into_owned()),
        Err(error) => Err(error.to_string()),
    }
}

/// The text in the bytes from `from` to `to`.
pub fn byte_slice(text: &str, from: usize, to: usize) -> (r: String)
    requires
        from <= to <= bytes_of(text@).len(),
        is_char_boundary(bytes_of(text@), from as int),
        is_char_boundary(bytes_of(text@), to as int),
    ensures
        bytes_of(r@) == bytes_of(text@).subrange(from as int, to as int),
{
    let b: Ghost<Seq<u8>> = Ghost(bytes_of(text@));
    proof {
        vstd::utf8::encode_utf8_valid_utf8(text@);
        vstd::utf8::valid_utf8_split(b@, to as int);
        lemma_boundary_in_prefix(b@, from as int, to as int);
    }
    let (head, _) = text.split_at(to);
    let (_, middle) = head.split_at(from);
    assert(bytes_of(middle@) =~= b@.subrange(from as int, to as int));
    middle.to_owned()
}

/// A boundary before another is one in what comes before that other.
proof fn lemma_boundary_in_prefix(b: Seq<u8>, i: int, j: int)
    requires
        vstd::utf8::valid_utf8(b),
        0 <= i <= j <= b.len(),
        is_char_boundary(b, i),
        is_char_boundary(b, j),
    ensures
        vstd::utf8::valid_utf8(b.subrange(0, j)),
        is_char_boundary(b.subrange(0, j), i),
{
    let p = b.subrange(0, j);
    vstd::utf8::valid_utf8_split(b, j);
    if i < j {
        vstd::utf8::is_char_boundary_iff_not_is_continuation_byte(b, i);
        vstd::utf8::is_char_boundary_iff_not_is_continuation_byte(p, i);
        assert(p[i] == b[i]);
    } else {
        vstd::utf8::is_char_boundary_start_end_of_seq(p);
        assert(p.len() == j);
    }
}

/// What lies before the first span and behind the last one stays.
pub proof fn spliced_bytes_keep_their_ends(bytes: Seq<u8>, spans: Seq<(int, int)>, parts: Seq<Seq<u8>>)
    requires
        spans_fit(spans, bytes),
        parts.len() == spans.len(),
    ensures
        spans.len() == 0 ==> spliced(bytes, spans, parts) == bytes,
        spans.len() > 0 ==> {
            let r = spliced(bytes, spans, parts);
            let rest = bytes.skip(spans.last().1);
            &&& r.len() >= spans[0].0 + rest.len()
            &&& r.take(spans[0].0) == bytes.take(spans[0].0)
            &&& r.skip(r.len() - rest.len()) == rest
            &&& r.len() == bytes.len() + parts_len(parts) - spans_len(spans)
        },
{
    lemma_spliced(bytes, spans, parts);
}

/// How many bytes the parts have together.
pub open spec fn parts_len(parts: Seq<Seq<u8>>) -> int
    decreases parts.len(),
{
    if parts.len() == 0 {
        0
    } else {
        parts_len(parts.drop_last()) + parts.last().len()
    }
}

/// How many bytes the spans have together.
pub open spec fn spans_len(spans: Seq<(int, int)>) -> int
    decreases spans.len(),
{
    if spans.len() == 0 {
        0
    } else {
        spans_len(spans.drop_last()) + (spans.last().1 - spans.last().0)
    }
}

proof fn lemma_spliced(bytes: Seq<u8>, spans: Seq<(int, int)>, parts: Seq<Seq<u8>>)
    requires
        parts.len() == spans.len(),
        forall|i: int| 0 <= i < spans.len() ==> 0 <= (#[trigger] spans[i]).0 <= spans[i].1 <= bytes.len(),
        forall|i: int, j: int| 0 <= i < j < spans.len() ==> (#[trigger] spans[i]).1 <= (#[trigger] spans[j]).0,
    ensures
        spliced(bytes, spans, parts).len() == bytes.len() + parts_len(parts) - spans_len(spans),
        spans.len() > 0 ==> {
            let r = spliced(bytes, spans, parts);
            let rest = bytes.skip(spans.last().1);
            &&& r.len() >= spans[0].0 + rest.len()
            &&& r.take(spans[0].0) == bytes.take(spans[0].0)
            &&& r.skip(r.len() - rest.len()) == rest
        },
    decreases spans.len(),
{
    if spans.len() > 0 {
        let k = spans.len() - 1;
        let head = bytes.take(spans[k].0);
        let front = spans.drop_last();
        assert forall|i: int| 0 <= i < front.len() implies 0 <= (#[trigger] front[i]).0 <= front[i].1 <= head.len() by {
            assert(front[i] == spans[i]);
        }
        assert forall|i: int, j: int| 0 <= i < j < front.len() implies (#[trigger] front[i]).1 <= (#[trigger] front[j]).0 by {
            assert(front[i] == spans[i] && front[j] == spans[j]);
        }
        lemma_spliced(head, front, parts.drop_last());
        let r = spliced(bytes, spans, parts);
        let rest = bytes.skip(spans.last().1);
        let before = spliced(head, front, parts.drop_last());
        assert(r.skip(r.len() - rest.len()) =~= rest);
        if k > 0 {
            assert(front[0] == spans[0]);
            assert(r.take(spans[0].0) =~= before.take(spans[0].0));
            assert(head.take(spans[0].0) =~= bytes.take(spans[0].0));
        } else {
            assert(before == head);
            assert(r.take(spans[0].0) =~= bytes.take(spans[0].0));
        }
    }
}

} // verus!
