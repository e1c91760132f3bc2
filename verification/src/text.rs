//! Text as sequences of characters: the string operations that the protocol
//! handlers are written with, each with an exact meaning over `Seq<char>`.

use crate::order::{joined, lemma_joined_first};
use vstd::prelude::*;

verus! {

/// `String::push` of std: the character is appended.
pub assume_specification[ String::push ](s: &mut String, c: char)
    ensures
        final(s)@ == old(s)@.push(c),
;

/// `==` of std on string slices: true exactly when both hold the same characters.
pub assume_specification[ <str as PartialEq>::eq ](a: &str, b: &str) -> (r: bool)
    ensures
        r == (a@ == b@),
;

/// `a == b`.
pub fn same(a: &str, b: &str) -> (r: bool)
    ensures
        r == (a@ == b@),
{
    *a == *b
}

/// What `{:?}` prints for a string: std's escaped form between double quotes.
pub uninterp spec fn debug_text(s: Seq<char>) -> Seq<char>;

/// `format!("{:?}", s)` of std on a string slice. The escaping is std's own;
/// its result is a function of the characters alone and is named `debug_text`.
#[verifier::external_body]
pub(crate) fn quoted(s: &str) -> (r: String)
    ensures
        r@ == debug_text(s@),
{
    format!("{s:?}")
}

/// What Unicode lower-casing makes of a text.
pub uninterp spec fn lowercase_text(s: Seq<char>) -> Seq<char>;

/// `str::to_lowercase` of std (Unicode lower case, a function of the text alone).
#[verifier::external_body]
pub(crate) fn to_lowercase(s: &str) -> (r: String)
    ensures
        r@ == lowercase_text(s@),
{
    s.to_lowercase()
}

/// What `String::from_utf8_lossy` makes of bytes.
pub uninterp spec fn lossy_text(bytes: Seq<u8>) -> Seq<char>;

/// `String::from_utf8_lossy` of std. Well-formed UTF-8 is decoded as it is; what
/// malformed sequences become is std's rule, named `lossy_text`.
#[verifier::external_body]
pub(crate) fn from_utf8_lossy(bytes: &[u8]) -> (r: String)
    ensures
        r@ == lossy_text(bytes@),
        vstd::utf8::valid_utf8(bytes@) ==> r@ == vstd::utf8::decode_utf8(bytes@),
{
    String::from_utf8_lossy(bytes).into_owned()
}

/// What `String::from_utf16_lossy` makes of code units.
pub uninterp spec fn utf16_lossy_text(units: Seq<u16>) -> Seq<char>;

/// `String::from_utf16_lossy` of std, a function of the code units alone.
#[verifier::external_body]
pub(crate) fn from_utf16_lossy(units: &[u16]) -> (r: String)
    ensures
        r@ == utf16_lossy_text(units@),
{
    String::from_utf16_lossy(units)
}

/// Where bytes stop being UTF-8: the length of the longest well-formed prefix,
/// and the length of the malformed sequence behind it where more bytes follow.
pub uninterp spec fn utf8_fault(bytes: Seq<u8>) -> (int, Option<int>);

/// `std::str::from_utf8` of std: text exactly for well-formed UTF-8. For other
/// bytes, `valid_up_to` and `error_len` of its error, named `utf8_fault`: the
/// prefix is well-formed and the malformed sequence is not empty and lies within
/// the bytes. Which sequences std takes as one is left to that name.
#[verifier::external_body]
pub(crate) fn from_utf8(bytes: &[u8]) -> (r: Result<String, (usize, Option<usize>)>)
    ensures
        r is Ok <==> vstd::utf8::valid_utf8(bytes@),
        r matches Ok(text) ==> text@ == vstd::utf8::decode_utf8(bytes@),
        r matches Err((valid, skip)) ==> utf8_fault(bytes@) == (
            valid as int,
            match skip {
                Some(n) => Some(n as int),
                None => None,
            },
        ) && valid <= bytes@.len() && vstd::utf8::valid_utf8(bytes@.take(valid as int)) && (skip matches Some(n) ==> 0
            < n && valid + n <= bytes@.len()),
{
    match std::str::from_utf8(bytes) {
        Ok(text) => Ok(text.to_owned()),
        Err(error) => Err((error.valid_up_to(), error.error_len())),
    }
}

/// The UTF-8 bytes of a text.
pub open spec fn bytes_of(s: Seq<char>) -> Seq<u8> {
    vstd::utf8::encode_utf8(s)
}

/// The bytes of two texts in a row are those of the first and of the second.
pub proof fn lemma_bytes_concat(a: Seq<char>, b: Seq<char>)
    ensures
        bytes_of(a + b) == bytes_of(a) + bytes_of(b),
    decreases a.len(),
{
    if a.len() == 0 {
        assert(a + b =~= b);
        assert(bytes_of(a) + bytes_of(b) =~= bytes_of(b));
    } else {
        lemma_bytes_concat(a.drop_first(), b);
        assert((a + b).drop_first() =~= a.drop_first() + b);
        assert(bytes_of(a + b) =~= bytes_of(a) + bytes_of(b));
    }
}

/// How many bytes a text takes.
pub fn byte_len(s: &str) -> (r: usize)
    ensures
        r == bytes_of(s@).len(),
{
    s.as_bytes().len()
}

/// The characters of a string slice.
pub fn chars_of(s: &str) -> (r: Vec<char>)
    ensures
        r@ == s@,
{
    let mut r: Vec<char> = Vec::new();
    for c in it: s.chars()
        invariant
            it.seq() == s@,
            r@ == s@.take(it.index() as int),
    {
        proof {
            assert(s@.take(it.index() as int + 1) =~= s@.take(it.index() as int).push(s@[it.index() as int]));
        }
        r.push(c);
    }
    assert(s@.take(s@.len() as int) =~= s@);
    r
}

/// The string that holds the characters `chars[from..to]`.
pub fn slice_text(chars: &Vec<char>, from: usize, to: usize) -> (r: String)
    requires
        from <= to <= chars@.len(),
    ensures
        r@ == chars@.subrange(from as int, to as int),
{
    let mut r = String::new();
    let mut i: usize = from;
    while i < to
        invariant
            from <= i <= to <= chars@.len(),
            r@ == chars@.subrange(from as int, i as int),
        decreases to - i,
    {
        r.push(chars[i]);
        i = i + 1;
        assert(chars@.subrange(from as int, i as int) =~= chars@.subrange(from as int, i - 1).push(chars@[i - 1]));
    }
    r
}

/// The string that holds all of `chars`.
pub fn text_of(chars: &Vec<char>) -> (r: String)
    ensures
        r@ == chars@,
{
    let r = slice_text(chars, 0, chars.len());
    assert(chars@.subrange(0, chars@.len() as int) =~= chars@);
    r
}

pub fn cat2(a: &str, b: &str) -> (r: String)
    ensures
        r@ == a@ + b@,
{
    a.to_owned().concat(b)
}

pub fn cat3(a: &str, b: &str, c: &str) -> (r: String)
    ensures
        r@ == a@ + b@ + c@,
{
    a.to_owned().concat(b).concat(c)
}

pub fn cat4(a: &str, b: &str, c: &str, d: &str) -> (r: String)
    ensures
        r@ == a@ + b@ + c@ + d@,
{
    a.to_owned().concat(b).concat(c).concat(d)
}

pub fn cat5(a: &str, b: &str, c: &str, d: &str, e: &str) -> (r: String)
    ensures
        r@ == a@ + b@ + c@ + d@ + e@,
{
    a.to_owned().concat(b).concat(c).concat(d).concat(e)
}

// ---------------------------------------------------------------- white space

/// The Unicode `White_Space` property.
pub open spec fn white(c: char) -> bool {
    ||| '\u{9}' <= c <= '\u{d}'
    ||| c == ' '
    ||| c == '\u{85}'
    ||| c == '\u{a0}'
    ||| c == '\u{1680}'
    ||| '\u{2000}' <= c <= '\u{200a}'
    ||| c == '\u{2028}'
    ||| c == '\u{2029}'
    ||| c == '\u{202f}'
    ||| c == '\u{205f}'
    ||| c == '\u{3000}'
}

pub fn is_white(c: char) -> (r: bool)
    ensures
        r == white(c),
{
    ('\u{9}' <= c && c <= '\u{d}') || c == ' ' || c == '\u{85}' || c == '\u{a0}' || c == '\u{1680}' || ('\u{2000}'
        <= c && c <= '\u{200a}') || c == '\u{2028}' || c == '\u{2029}' || c == '\u{202f}' || c == '\u{205f}' || c
        == '\u{3000}'
}

/// `s` without its leading white space.
pub open spec fn trim_start(s: Seq<char>) -> Seq<char>
    decreases s.len(),
{
    if s.len() > 0 && white(s[0]) {
        trim_start(s.drop_first())
    } else {
        s
    }
}

/// `s` without its trailing white space.
pub open spec fn trim_end(s: Seq<char>) -> Seq<char>
    decreases s.len(),
{
    if s.len() > 0 && white(s.last()) {
        trim_end(s.drop_last())
    } else {
        s
    }
}

/// `s` without the white space around it.
pub open spec fn trimmed(s: Seq<char>) -> Seq<char> {
    trim_end(trim_start(s))
}

proof fn lemma_trim_start_ends(s: Seq<char>)
    ensures
        trim_start(s).len() > 0 ==> !white(trim_start(s)[0]),
    decreases s.len(),
{
    if s.len() > 0 && white(s[0]) {
        lemma_trim_start_ends(s.drop_first());
    }
}

proof fn lemma_trim_end_ends(s: Seq<char>)
    ensures
        trim_end(s).len() > 0 ==> !white(trim_end(s).last()) && trim_end(s)[0] == s[0],
    decreases s.len(),
{
    if s.len() > 0 && white(s.last()) {
        lemma_trim_end_ends(s.drop_last());
    }
}

/// A trimmed text stays as it is.
pub proof fn lemma_trimmed_twice(s: Seq<char>)
    ensures
        trimmed(trimmed(s)) == trimmed(s),
{
    lemma_trim_start_ends(s);
    lemma_trim_end_ends(trim_start(s));
}

/// Only white space, or nothing at all.
pub open spec fn blank(s: Seq<char>) -> bool {
    trimmed(s).len() == 0
}

pub proof fn lemma_trim_start_from(s: Seq<char>, k: int)
    requires
        0 <= k <= s.len(),
        forall|i: int| 0 <= i < k ==> white(#[trigger] s[i]),
    ensures
        trim_start(s) == trim_start(s.skip(k)),
    decreases k,
{
    if k == 0 {
        assert(s.skip(0) =~= s);
    } else {
        assert(white(s[0]));
        lemma_trim_start_from(s.drop_first(), k - 1);
        assert(s.drop_first().skip(k - 1) =~= s.skip(k));
    }
}

pub proof fn lemma_trim_end_from(s: Seq<char>, k: int)
    requires
        0 <= k <= s.len(),
        forall|i: int| k <= i < s.len() ==> white(#[trigger] s[i]),
    ensures
        trim_end(s) == trim_end(s.take(k)),
    decreases s.len() - k,
{
    if k == s.len() {
        assert(s.take(k) =~= s);
    } else {
        assert(white(s[s.len() - 1]));
        lemma_trim_end_from(s.drop_last(), k);
        assert(s.drop_last().take(k) =~= s.take(k));
    }
}

/// `str::trim`.
pub fn trim(s: &str) -> (r: String)
    ensures
        r@ == trimmed(s@),
{
    let chars = chars_of(s);
    let mut from: usize = 0;
    while from < chars.len() && is_white(chars[from])
        invariant
            from <= chars@.len(),
            forall|i: int| 0 <= i < from ==> white(#[trigger] chars@[i]),
        decreases chars@.len() - from,
    {
        from = from + 1;
    }
    let mut to: usize = chars.len();
    while to > from && is_white(chars[to - 1])
        invariant
            from <= to <= chars@.len(),
            forall|i: int| to <= i < chars@.len() ==> white(#[trigger] chars@[i]),
        decreases to,
    {
        to = to - 1;
    }
    proof {
        lemma_trim_start_from(chars@, from as int);
        let rest = chars@.skip(from as int);
        assert(trim_start(rest) == rest);
        assert forall|i: int| to - from <= i < rest.len() implies white(#[trigger] rest[i]) by {
            assert(rest[i] == chars@[i + from]);
        }
        lemma_trim_end_from(rest, to - from);
        let kept = rest.take(to - from);
        assert(kept =~= chars@.subrange(from as int, to as int));
        if kept.len() > 0 {
            assert(kept.last() == chars@[to - 1]);
        }
        assert(trim_end(kept) == kept);
    }
    slice_text(&chars, from, to)
}

/// Whether `s` is blank.
pub fn is_blank(s: &str) -> (r: bool)
    ensures
        r == blank(s@),
{
    trim(s).as_str().is_empty()
}

// ------------------------------------------------------------------ splitting

/// Where `c` first stands in `s`, or `s.len()`.
pub open spec fn first_index(s: Seq<char>, c: char) -> int
    decreases s.len(),
{
    if s.len() == 0 || s[0] == c {
        0
    } else {
        1 + first_index(s.drop_first(), c)
    }
}

pub proof fn lemma_first_index(s: Seq<char>, c: char)
    ensures
        0 <= first_index(s, c) <= s.len(),
        forall|i: int| 0 <= i < first_index(s, c) ==> #[trigger] s[i] != c,
        first_index(s, c) < s.len() ==> s[first_index(s, c)] == c,
    decreases s.len(),
{
    if s.len() > 0 && s[0] != c {
        let t = s.drop_first();
        lemma_first_index(t, c);
        assert forall|i: int| 0 <= i < first_index(s, c) implies #[trigger] s[i] != c by {
            if i > 0 {
                assert(t[i - 1] != c);
            }
        }
        if first_index(s, c) < s.len() {
            assert(t[first_index(t, c)] == c);
        }
    }
}

pub proof fn lemma_first_index_is(s: Seq<char>, c: char, k: int)
    requires
        0 <= k <= s.len(),
        forall|i: int| 0 <= i < k ==> #[trigger] s[i] != c,
        k < s.len() ==> s[k] == c,
    ensures
        first_index(s, c) == k,
{
    lemma_first_index(s, c);
    let f = first_index(s, c);
    if f < k {
        assert(s[f] != c);
    } else if f > k {
        assert(s[k] != c);
    }
}

/// The parts of `s` between occurrences of `sep` (one more than there are of those).
pub open spec fn pieces(s: Seq<char>, sep: char) -> Seq<Seq<char>>
    decreases s.len(),
{
    let k = first_index(s, sep);
    if 0 <= k < s.len() {
        seq![s.take(k)] + pieces(s.skip(k + 1), sep)
    } else {
        seq![s]
    }
}

/// The views of a vector of strings.
pub open spec fn views(v: Seq<String>) -> Seq<Seq<char>> {
    Seq::new(v.len(), |i: int| v[i]@)
}

/// Where `c` first stands in `chars` at or after `from`, or the length.
pub fn index_from(chars: &Vec<char>, c: char, from: usize) -> (r: usize)
    requires
        from <= chars@.len(),
    ensures
        from <= r <= chars@.len(),
        r == from + first_index(chars@.skip(from as int), c),
{
    let mut i: usize = from;
    while i < chars.len() && chars[i] != c
        invariant
            from <= i <= chars@.len(),
            forall|j: int| from <= j < i ==> #[trigger] chars@[j] != c,
        decreases chars@.len() - i,
    {
        i = i + 1;
    }
    proof {
        let rest = chars@.skip(from as int);
        assert forall|j: int| 0 <= j < i - from implies #[trigger] rest[j] != c by {
            assert(rest[j] == chars@[j + from]);
        }
        lemma_first_index_is(rest, c, i - from);
    }
    i
}

/// The pieces of a text between the characters `sep`.
pub fn split(s: &str, sep: char) -> (r: Vec<String>)
    ensures
        views(r@) == pieces(s@, sep),
        r@.len() >= 1,
{
    let chars = chars_of(s);
    let mut r: Vec<String> = Vec::new();
    let mut from: usize = 0;
    assert(chars@.skip(0) =~= chars@);
    loop
        invariant_except_break
            from <= chars@.len(),
            chars@ == s@,
            views(r@) + pieces(chars@.skip(from as int), sep) == pieces(s@, sep),
        ensures
            views(r@) == pieces(s@, sep),
            r@.len() >= 1,
        decreases chars@.len() - from,
    {
        let ghost before = r@;
        let k = index_from(&chars, sep, from);
        let part = slice_text(&chars, from, k);
        let ghost rest = chars@.skip(from as int);
        proof {
            lemma_first_index(rest, sep);
            assert(rest.take(k - from) =~= part@);
        }
        r.push(part);
        assert(views(r@) =~= views(before).push(part@));
        if k == chars.len() {
            proof {
                assert(rest =~= part@);
                assert(views(before) + seq![part@] =~= views(before).push(part@));
            }
            break;
        }
        proof {
            assert(rest.skip(k - from + 1) =~= chars@.skip(k + 1));
            assert(views(before) + (seq![part@] + pieces(chars@.skip(k + 1), sep)) =~= views(before).push(part@)
                + pieces(chars@.skip(k + 1), sep));
        }
        from = k + 1;
    }
    r
}

/// The text before and after the first `sep`, where there is one.
pub open spec fn once(s: Seq<char>, sep: char) -> Option<(Seq<char>, Seq<char>)> {
    let k = first_index(s, sep);
    if 0 <= k < s.len() {
        Some((s.take(k), s.skip(k + 1)))
    } else {
        None
    }
}

pub open spec fn pair_view(p: Option<(String, String)>) -> Option<(Seq<char>, Seq<char>)> {
    match p {
        Some((a, b)) => Some((a@, b@)),
        None => None,
    }
}

pub fn split_once(s: &str, sep: char) -> (r: Option<(String, String)>)
    ensures
        pair_view(r) == once(s@, sep),
{
    let chars = chars_of(s);
    let k = index_from(&chars, sep, 0);
    proof {
        assert(chars@.skip(0) =~= chars@);
        lemma_first_index(s@, sep);
    }
    if k == chars.len() {
        None
    } else {
        let a = slice_text(&chars, 0, k);
        let b = slice_text(&chars, k + 1, chars.len());
        proof {
            assert(a@ =~= s@.take(k as int));
            assert(b@ =~= s@.skip(k + 1));
        }
        Some((a, b))
    }
}

/// The length of the run of characters before the first white space of `s`.
pub open spec fn word_end(s: Seq<char>) -> int
    decreases s.len(),
{
    if s.len() == 0 || white(s[0]) {
        0
    } else {
        1 + word_end(s.drop_first())
    }
}

/// The maximal runs of `s` that hold no white space.
pub open spec fn words(s: Seq<char>) -> Seq<Seq<char>>
    decreases s.len(),
{
    if s.len() == 0 {
        Seq::empty()
    } else if white(s[0]) {
        words(s.drop_first())
    } else {
        let k = word_end(s);
        if 0 < k <= s.len() {
            seq![s.take(k)] + words(s.skip(k))
        } else {
            Seq::empty()
        }
    }
}

pub proof fn lemma_word_end_is(s: Seq<char>, k: int)
    requires
        0 <= k <= s.len(),
        forall|i: int| 0 <= i < k ==> !white(#[trigger] s[i]),
        k < s.len() ==> white(s[k]),
    ensures
        word_end(s) == k,
    decreases s.len(),
{
    if k > 0 {
        assert(!white(s[0]));
        let t = s.drop_first();
        assert forall|i: int| 0 <= i < k - 1 implies !white(#[trigger] t[i]) by {
            assert(t[i] == s[i + 1]);
        }
        lemma_word_end_is(t, k - 1);
    }
}

pub proof fn lemma_words_skip(s: Seq<char>, k: int)
    requires
        0 <= k <= s.len(),
        forall|i: int| 0 <= i < k ==> white(#[trigger] s[i]),
    ensures
        words(s) == words(s.skip(k)),
    decreases k,
{
    if k == 0 {
        assert(s.skip(0) =~= s);
    } else {
        assert(white(s[0]));
        let t = s.drop_first();
        assert forall|i: int| 0 <= i < k - 1 implies white(#[trigger] t[i]) by {
            assert(t[i] == s[i + 1]);
        }
        lemma_words_skip(t, k - 1);
        assert(t.skip(k - 1) =~= s.skip(k));
    }
}

/// The words of a text.
pub fn split_words(s: &str) -> (r: Vec<String>)
    ensures
        views(r@) == words(s@),
{
    let chars = chars_of(s);
    let mut r: Vec<String> = Vec::new();
    let mut from: usize = 0;
    assert(chars@.skip(0) =~= chars@);
    assert(views(r@) + words(s@) =~= words(s@));
    loop
        invariant_except_break
            from <= chars@.len(),
            chars@ == s@,
            views(r@) + words(chars@.skip(from as int)) == words(s@),
        ensures
            views(r@) == words(s@),
        decreases chars@.len() - from,
    {
        let mut start: usize = from;
        while start < chars.len() && is_white(chars[start])
            invariant
                from <= start <= chars@.len(),
                forall|i: int| from <= i < start ==> white(#[trigger] chars@[i]),
            decreases chars@.len() - start,
        {
            start = start + 1;
        }
        proof {
            let rest = chars@.skip(from as int);
            assert forall|i: int| 0 <= i < start - from implies white(#[trigger] rest[i]) by {
                assert(rest[i] == chars@[i + from]);
            }
            lemma_words_skip(rest, start - from);
            assert(rest.skip(start - from) =~= chars@.skip(start as int));
        }
        if start == chars.len() {
            assert(words(chars@.skip(start as int)) =~= Seq::empty());
            assert(views(r@) + Seq::<Seq<char>>::empty() =~= views(r@));
            break;
        }
        let mut end: usize = start;
        while end < chars.len() && !is_white(chars[end])
            invariant
                start <= end <= chars@.len(),
                forall|i: int| start <= i < end ==> !white(#[trigger] chars@[i]),
            decreases chars@.len() - end,
        {
            end = end + 1;
        }
        let part = slice_text(&chars, start, end);
        let ghost before = r@;
        r.push(part);
        proof {
            let rest = chars@.skip(start as int);
            assert(!white(rest[0]));
            assert forall|i: int| 0 <= i < end - start implies !white(#[trigger] rest[i]) by {
                assert(rest[i] == chars@[i + start]);
            }
            lemma_word_end_is(rest, end - start);
            assert(end > start) by {
                assert(!white(chars@[start as int]));
            }
            assert(rest.take(end - start) =~= part@);
            assert(rest.skip(end - start) =~= chars@.skip(end as int));
            assert(views(r@) =~= views(before).push(part@));
            assert(views(before) + (seq![part@] + words(chars@.skip(end as int))) =~= views(r@) + words(
                chars@.skip(end as int),
            ));
        }
        from = end;
    }
    r
}

/// The first word of `s`, or nothing.
pub open spec fn first_word_of(s: Seq<char>) -> Seq<char> {
    if words(s).len() > 0 {
        words(s)[0]
    } else {
        Seq::empty()
    }
}

/// A line without the carriage return that ended it.
pub open spec fn chop(line: Seq<char>) -> Seq<char> {
    if line.len() > 0 && line.last() == '\r' {
        line.drop_last()
    } else {
        line
    }
}

/// The lines of `s`: what `\n` and `\r\n` end, and what follows the last of those.
pub open spec fn rows(s: Seq<char>) -> Seq<Seq<char>>
    decreases s.len(),
{
    if s.len() == 0 {
        Seq::empty()
    } else {
        let k = first_index(s, '\n');
        if 0 <= k < s.len() {
            seq![chop(s.take(k))] + rows(s.skip(k + 1))
        } else {
            seq![s]
        }
    }
}

/// The lines of a text, without their breaks.
pub fn lines(s: &str) -> (r: Vec<String>)
    ensures
        views(r@) == rows(s@),
{
    let chars = chars_of(s);
    let mut r: Vec<String> = Vec::new();
    let mut from: usize = 0;
    assert(chars@.skip(0) =~= chars@);
    assert(views(r@) + rows(s@) =~= rows(s@));
    while from < chars.len()
        invariant
            from <= chars@.len(),
            chars@ == s@,
            views(r@) + rows(chars@.skip(from as int)) == rows(s@),
        decreases chars@.len() - from,
    {
        let ghost before = r@;
        let ghost rest = chars@.skip(from as int);
        let k = index_from(&chars, '\n', from);
        proof {
            lemma_first_index(rest, '\n');
        }
        if k == chars.len() {
            let part = slice_text(&chars, from, k);
            assert(part@ =~= rest);
            r.push(part);
            proof {
                assert(views(r@) =~= views(before).push(part@));
                assert(rows(chars@.skip(k as int)) =~= Seq::empty());
                assert(views(before) + seq![part@] =~= views(r@) + rows(chars@.skip(k as int)));
            }
            from = k;
        } else {
            let end = if k > from && chars[k - 1] == '\r' {
                k - 1
            } else {
                k
            };
            let part = slice_text(&chars, from, end);
            assert(part@ =~= chop(rest.take(k - from)));
            r.push(part);
            proof {
                assert(views(r@) =~= views(before).push(part@));
                assert(rest.skip(k - from + 1) =~= chars@.skip(k + 1));
                assert(views(before) + (seq![part@] + rows(chars@.skip(k + 1))) =~= views(r@) + rows(
                    chars@.skip(k + 1),
                ));
            }
            from = k + 1;
        }
    }
    assert(rows(chars@.skip(from as int)) =~= Seq::empty());
    assert(views(r@) + Seq::<Seq<char>>::empty() =~= views(r@));
    r
}

// ------------------------------------------------------------------ searching

pub open spec fn prefixed(s: Seq<char>, prefix: Seq<char>) -> bool {
    prefix.len() <= s.len() && s.take(prefix.len() as int) == prefix
}

pub open spec fn suffixed(s: Seq<char>, suffix: Seq<char>) -> bool {
    suffix.len() <= s.len() && s.skip(s.len() - suffix.len()) == suffix
}

/// Where `pat` first occurs in `s`, or -1.
pub open spec fn first_match(s: Seq<char>, pat: Seq<char>) -> int
    decreases s.len(),
{
    if prefixed(s, pat) {
        0
    } else if s.len() == 0 {
        -1
    } else {
        let r = first_match(s.drop_first(), pat);
        if r < 0 {
            -1
        } else {
            r + 1
        }
    }
}

pub open spec fn contained(s: Seq<char>, pat: Seq<char>) -> bool {
    first_match(s, pat) >= 0
}

/// `first_match` is the least position at which `pat` stands.
pub proof fn lemma_first_match(s: Seq<char>, pat: Seq<char>)
    ensures
        first_match(s, pat) >= 0 ==> {
            &&& first_match(s, pat) + pat.len() <= s.len()
            &&& s.subrange(first_match(s, pat), first_match(s, pat) + pat.len()) == pat
        },
        forall|i: int|
            0 <= i <= s.len() && (first_match(s, pat) < 0 || i < first_match(s, pat)) ==> !prefixed(
                #[trigger] s.skip(i),
                pat,
            ),
    decreases s.len(),
{
    assert(s.skip(0) =~= s);
    if prefixed(s, pat) {
        assert(s.subrange(0, pat.len() as int) =~= s.take(pat.len() as int));
    } else if s.len() > 0 {
        let t = s.drop_first();
        lemma_first_match(t, pat);
        let r = first_match(t, pat);
        if r >= 0 {
            assert(s.subrange(r + 1, r + 1 + pat.len()) =~= t.subrange(r, r + pat.len()));
        }
        assert forall|i: int|
            0 <= i <= s.len() && (first_match(s, pat) < 0 || i < first_match(s, pat)) implies !prefixed(
            #[trigger] s.skip(i),
            pat,
        ) by {
            if i > 0 {
                assert(t.skip(i - 1) =~= s.skip(i));
            }
        }
    }
}

pub proof fn lemma_first_match_is(s: Seq<char>, pat: Seq<char>, k: int)
    requires
        0 <= k <= s.len(),
        prefixed(s.skip(k), pat),
        forall|i: int| 0 <= i < k ==> !prefixed(#[trigger] s.skip(i), pat),
    ensures
        first_match(s, pat) == k,
    decreases k,
{
    assert(s.skip(0) =~= s);
    if k > 0 {
        assert(!prefixed(s.skip(0), pat));
        let t = s.drop_first();
        assert forall|i: int| 0 <= i < k - 1 implies !prefixed(#[trigger] t.skip(i), pat) by {
            assert(t.skip(i) =~= s.skip(i + 1));
        }
        assert(t.skip(k - 1) =~= s.skip(k));
        lemma_first_match_is(t, pat, k - 1);
    }
}

pub proof fn lemma_no_match(s: Seq<char>, pat: Seq<char>)
    requires
        forall|i: int| 0 <= i <= s.len() ==> !prefixed(#[trigger] s.skip(i), pat),
    ensures
        first_match(s, pat) == -1,
    decreases s.len(),
{
    assert(s.skip(0) =~= s);
    assert(!prefixed(s.skip(0), pat));
    if s.len() > 0 {
        let t = s.drop_first();
        assert forall|i: int| 0 <= i <= t.len() implies !prefixed(#[trigger] t.skip(i), pat) by {
            assert(t.skip(i) =~= s.skip(i + 1));
        }
        lemma_no_match(t, pat);
    }
}

/// Whether `pat` stands in `chars` at position `at`.
pub fn stands_at(chars: &Vec<char>, pat: &Vec<char>, at: usize) -> (r: bool)
    requires
        at <= chars@.len(),
    ensures
        r == prefixed(chars@.skip(at as int), pat@),
{
    let total = chars.len();
    if pat.len() > total - at {
        return false;
    }
    let mut i: usize = 0;
    while i < pat.len()
        invariant
            total == chars@.len(),
            i <= pat@.len() <= chars@.len() - at,
            forall|j: int| 0 <= j < i ==> chars@[at + j] == #[trigger] pat@[j],
        decreases pat@.len() - i,
    {
        if chars[at + i] != pat[i] {
            assert(chars@.skip(at as int).take(pat@.len() as int)[i as int] != pat@[i as int]);
            return false;
        }
        i = i + 1;
    }
    assert(chars@.skip(at as int).take(pat@.len() as int) =~= pat@);
    true
}

/// Where `pat` first occurs in `chars` at or after `from`.
pub fn find_from(chars: &Vec<char>, pat: &Vec<char>, from: usize) -> (r: Option<usize>)
    requires
        from <= chars@.len(),
    ensures
        match r {
            Some(k) => from <= k && k + pat@.len() <= chars@.len() && first_match(chars@.skip(from as int), pat@) == k
                - from && chars@.subrange(k as int, k + pat@.len()) == pat@,
            None => first_match(chars@.skip(from as int), pat@) == -1,
        },
{
    let ghost rest = chars@.skip(from as int);
    let mut k: usize = from;
    loop
        invariant
            from <= k <= chars@.len(),
            rest == chars@.skip(from as int),
            forall|i: int| 0 <= i < k - from ==> !prefixed(#[trigger] rest.skip(i), pat@),
        decreases chars@.len() - k,
    {
        assert(rest.skip(k - from) =~= chars@.skip(k as int));
        if stands_at(chars, pat, k) {
            proof {
                lemma_first_match_is(rest, pat@, k - from);
                assert(chars@.skip(k as int).take(pat@.len() as int) =~= chars@.subrange(k as int, k + pat@.len()));
            }
            return Some(k);
        }
        if k == chars.len() {
            proof {
                lemma_no_match(rest, pat@);
            }
            return None;
        }
        k = k + 1;
    }
}

/// Where `pat` first stands in a text, in characters.
pub fn find(s: &str, pat: &str) -> (r: Option<usize>)
    ensures
        match r {
            Some(k) => first_match(s@, pat@) == k && k + pat@.len() <= s@.len(),
            None => first_match(s@, pat@) == -1,
        },
{
    let chars = chars_of(s);
    assert(chars@.skip(0) =~= chars@);
    find_from(&chars, &chars_of(pat), 0)
}

/// Whether `pat` stands in a text.
pub fn contains(s: &str, pat: &str) -> (r: bool)
    ensures
        r == contained(s@, pat@),
{
    match find(s, pat) {
        Some(_) => true,
        None => false,
    }
}

/// Whether a text begins with `prefix`.
pub fn starts_with(s: &str, prefix: &str) -> (r: bool)
    ensures
        r == prefixed(s@, prefix@),
{
    let chars = chars_of(s);
    assert(chars@.skip(0) =~= chars@);
    stands_at(&chars, &chars_of(prefix), 0)
}

/// Whether a text ends with `suffix`.
pub fn ends_with(s: &str, suffix: &str) -> (r: bool)
    ensures
        r == suffixed(s@, suffix@),
{
    let chars = chars_of(s);
    let pat = chars_of(suffix);
    if pat.len() > chars.len() {
        return false;
    }
    let at = chars.len() - pat.len();
    assert(chars@.skip(at as int).take(pat@.len() as int) =~= chars@.skip(at as int));
    stands_at(&chars, &pat, at)
}

pub open spec fn opt_view(s: Option<String>) -> Option<Seq<char>> {
    match s {
        Some(s) => Some(s@),
        None => None,
    }
}

pub open spec fn stripped(s: Seq<char>, prefix: Seq<char>) -> Option<Seq<char>> {
    if prefixed(s, prefix) {
        Some(s.skip(prefix.len() as int))
    } else {
        None
    }
}

/// What follows on `prefix`, where a text begins with it.
pub fn strip_prefix(s: &str, prefix: &str) -> (r: Option<String>)
    ensures
        opt_view(r) == stripped(s@, prefix@),
{
    let chars = chars_of(s);
    let pat = chars_of(prefix);
    assert(chars@.skip(0) =~= chars@);
    if stands_at(&chars, &pat, 0) {
        let rest = slice_text(&chars, pat.len(), chars.len());
        assert(rest@ =~= s@.skip(prefix@.len() as int));
        Some(rest)
    } else {
        None
    }
}

/// `s` with every occurrence of the non-empty `pat` replaced by `new`, from the left.
pub open spec fn replaced(s: Seq<char>, pat: Seq<char>, new: Seq<char>) -> Seq<char>
    decreases s.len(),
{
    let k = first_match(s, pat);
    if pat.len() == 0 || k < 0 || k + pat.len() > s.len() {
        s
    } else {
        s.take(k) + new + replaced(s.skip(k + pat.len()), pat, new)
    }
}

/// How often `pat` was replaced there.
pub open spec fn occurrences(s: Seq<char>, pat: Seq<char>) -> nat
    decreases s.len(),
{
    let k = first_match(s, pat);
    if pat.len() == 0 || k < 0 || k + pat.len() > s.len() {
        0
    } else {
        1 + occurrences(s.skip(k + pat.len()), pat)
    }
}

pub fn push_range(out: &mut String, chars: &Vec<char>, from: usize, to: usize)
    requires
        from <= to <= chars@.len(),
    ensures
        final(out)@ == old(out)@ + chars@.subrange(from as int, to as int),
{
    let mut i: usize = from;
    assert(out@ =~= old(out)@ + chars@.subrange(from as int, i as int));
    while i < to
        invariant
            from <= i <= to <= chars@.len(),
            out@ == old(out)@ + chars@.subrange(from as int, i as int),
        decreases to - i,
    {
        out.push(chars[i]);
        i = i + 1;
        assert(chars@.subrange(from as int, i as int) =~= chars@.subrange(from as int, i - 1).push(chars@[i - 1]));
        assert(out@ =~= old(out)@ + chars@.subrange(from as int, i as int));
    }
}

/// A text with `new` for `pat`, which is not empty, and the number of replacements.
pub fn replace(s: &str, pat: &str, new: &str) -> (r: (String, usize))
    requires
        pat@.len() > 0,
    ensures
        r.0@ == replaced(s@, pat@, new@),
        r.1 == occurrences(s@, pat@),
{
    let chars = chars_of(s);
    let pat_chars = chars_of(pat);
    let new_chars = chars_of(new);
    let mut out = String::new();
    let mut from: usize = 0;
    let mut count: usize = 0;
    let total = chars.len();
    assert(chars@.skip(0) =~= chars@);
    assert(out@ + replaced(s@, pat@, new@) =~= replaced(s@, pat@, new@));
    loop
        invariant_except_break
            from <= chars@.len(),
            count <= from,
            total == chars@.len(),
            chars@ == s@,
            pat_chars@ == pat@,
            new_chars@ == new@,
            pat@.len() > 0,
            out@ + replaced(chars@.skip(from as int), pat@, new@) == replaced(s@, pat@, new@),
            count + occurrences(chars@.skip(from as int), pat@) == occurrences(s@, pat@),
        ensures
            out@ == replaced(s@, pat@, new@),
            count == occurrences(s@, pat@),
        decreases chars@.len() - from,
    {
        let ghost rest = chars@.skip(from as int);
        let ghost before = out@;
        match find_from(&chars, &pat_chars, from) {
            None => {
                push_range(&mut out, &chars, from, chars.len());
                assert(rest =~= chars@.subrange(from as int, chars@.len() as int));
                break;
            },
            Some(k) => {
                push_range(&mut out, &chars, from, k);
                push_range(&mut out, &new_chars, 0, new_chars.len());
                proof {
                    assert(new_chars@.subrange(0, new_chars@.len() as int) =~= new@);
                    assert(rest.take(k - from) =~= chars@.subrange(from as int, k as int));
                    assert(rest.skip(k - from + pat@.len()) =~= chars@.skip(k + pat@.len()));
                    let tail = replaced(chars@.skip(k + pat@.len()), pat@, new@);
                    assert(before + (rest.take(k - from) + new@ + tail) =~= out@ + tail);
                }
                from = k + pat_chars.len();
                count = count + 1;
            },
        }
    }
    (out, count)
}

/// `s` with the first `n` occurrences of `pat` replaced by `new`. The empty text
/// occurs where one looks for it.
pub open spec fn replaced_some(s: Seq<char>, pat: Seq<char>, new: Seq<char>, n: nat) -> Seq<char>
    decreases n,
{
    let k = first_match(s, pat);
    if n == 0 || k < 0 {
        s
    } else {
        s.take(k) + new + replaced_some(s.skip(k + pat.len()), pat, new, (n - 1) as nat)
    }
}

/// How often `pat` was replaced there.
pub open spec fn some_occurrences(s: Seq<char>, pat: Seq<char>, n: nat) -> nat
    decreases n,
{
    let k = first_match(s, pat);
    if n == 0 || k < 0 {
        0
    } else {
        1 + some_occurrences(s.skip(k + pat.len()), pat, (n - 1) as nat)
    }
}

/// Replaces the first `limit` occurrences of `pat`, and says how many there were.
pub fn replace_some(s: &str, pat: &str, new: &str, limit: usize) -> (r: (String, usize))
    ensures
        r.0@ == replaced_some(s@, pat@, new@, limit as nat),
        r.1 == some_occurrences(s@, pat@, limit as nat),
{
    let chars = chars_of(s);
    let pat_chars = chars_of(pat);
    let new_chars = chars_of(new);
    let mut out = String::new();
    let mut from: usize = 0;
    let mut count: usize = 0;
    let total = chars.len();
    assert(chars@.skip(0) =~= chars@);
    assert(out@ + replaced_some(s@, pat@, new@, limit as nat) =~= replaced_some(s@, pat@, new@, limit as nat));
    while count < limit
        invariant_except_break
            from <= chars@.len(),
            count <= limit,
            total == chars@.len(),
            chars@ == s@,
            pat_chars@ == pat@,
            new_chars@ == new@,
            out@ + replaced_some(chars@.skip(from as int), pat@, new@, (limit - count) as nat) == replaced_some(
                s@,
                pat@,
                new@,
                limit as nat,
            ),
            count + some_occurrences(chars@.skip(from as int), pat@, (limit - count) as nat) == some_occurrences(
                s@,
                pat@,
                limit as nat,
            ),
        ensures
            from <= chars@.len(),
            chars@ == s@,
            out@ + chars@.skip(from as int) == replaced_some(s@, pat@, new@, limit as nat),
            count == some_occurrences(s@, pat@, limit as nat),
        decreases limit - count,
    {
        let ghost rest = chars@.skip(from as int);
        let ghost before = out@;
        match find_from(&chars, &pat_chars, from) {
            None => {
                break;
            },
            Some(k) => {
                push_range(&mut out, &chars, from, k);
                push_range(&mut out, &new_chars, 0, new_chars.len());
                proof {
                    assert(new_chars@.subrange(0, new_chars@.len() as int) =~= new@);
                    assert(rest.take(k - from) =~= chars@.subrange(from as int, k as int));
                    assert(rest.skip(k - from + pat@.len()) =~= chars@.skip(k + pat@.len()));
                    let tail = replaced_some(chars@.skip(k + pat@.len()), pat@, new@, (limit - count - 1) as nat);
                    assert(before + (rest.take(k - from) + new@ + tail) =~= out@ + tail);
                }
                from = k + pat_chars.len();
                count = count + 1;
            },
        }
    }
    push_range(&mut out, &chars, from, chars.len());
    assert(chars@.skip(from as int) =~= chars@.subrange(from as int, chars@.len() as int));
    (out, count)
}

/// `new` before each character of `s` and at its end.
pub open spec fn interleaved(s: Seq<char>, new: Seq<char>) -> Seq<char>
    decreases s.len(),
{
    if s.len() == 0 {
        new
    } else {
        interleaved(s.drop_last(), new).push(s.last()) + new
    }
}

/// A text with `new` before and behind each of its characters.
pub fn interleave(s: &str, new: &str) -> (r: String)
    ensures
        r@ == interleaved(s@, new@),
{
    let chars = chars_of(s);
    let mut out = new.to_owned();
    let mut i: usize = 0;
    while i < chars.len()
        invariant
            i <= chars@.len(),
            chars@ == s@,
            out@ == interleaved(chars@.take(i as int), new@),
        decreases chars@.len() - i,
    {
        assert(chars@.take(i + 1).drop_last() =~= chars@.take(i as int));
        assert(chars@.take(i + 1).last() == chars@[i as int]);
        out.push(chars[i]);
        out = cat2(&out, new);
        i = i + 1;
    }
    assert(chars@.take(i as int) =~= s@);
    out
}

/// The views of a list of string slices.
pub open spec fn str_views(names: Seq<&'static str>) -> Seq<Seq<char>> {
    Seq::new(names.len(), |i: int| names[i]@)
}

/// Whether a text is among the names.
pub fn among(s: &str, names: &Vec<&'static str>) -> (r: bool)
    ensures
        r == str_views(names@).contains(s@),
{
    let mut i: usize = 0;
    while i < names.len()
        invariant
            i <= names@.len(),
            forall|j: int| 0 <= j < i ==> (#[trigger] names@[j])@ != s@,
        decreases names@.len() - i,
    {
        if same(names[i], s) {
            assert(str_views(names@)[i as int] == s@);
            return true;
        }
        i = i + 1;
    }
    proof {
        if str_views(names@).contains(s@) {
            let j = choose|j: int| 0 <= j < str_views(names@).len() && str_views(names@)[j] == s@;
            assert(names@[j]@ != s@);
        }
    }
    false
}

/// A copy of a list of strings.
pub fn copy_texts(texts: &Vec<String>) -> (r: Vec<String>)
    ensures
        views(r@) == views(texts@),
{
    let mut r: Vec<String> = Vec::new();
    let mut i: usize = 0;
    while i < texts.len()
        invariant
            i <= texts@.len(),
            r@.len() == i,
            forall|j: int| 0 <= j < i ==> (#[trigger] r@[j])@ == texts@[j]@,
        decreases texts@.len() - i,
    {
        r.push(texts[i].clone());
        i = i + 1;
    }
    assert(views(r@) =~= views(texts@));
    r
}

/// A text occurs in another.
pub open spec fn occurs(s: Seq<char>, pat: Seq<char>) -> bool {
    exists|k: int| 0 <= k <= s.len() - pat.len() && #[trigger] s.subrange(k, k + pat.len()) == pat
}

/// What stands before the first occurrence does not hold another one.
proof fn lemma_none_before(s: Seq<char>, pat: Seq<char>)
    requires
        pat.len() > 0,
        first_match(s, pat) >= 0,
    ensures
        !occurs(s.take(first_match(s, pat)), pat),
{
    let k = first_match(s, pat);
    lemma_first_match(s, pat);
    let head = s.take(k);
    if occurs(head, pat) {
        let i = choose|i: int| 0 <= i <= head.len() - pat.len() && #[trigger] head.subrange(i, i + pat.len()) == pat;
        assert(s.subrange(i, i + pat.len()) =~= head.subrange(i, i + pat.len()));
        assert(s.skip(i).take(pat.len() as int) =~= s.subrange(i, i + pat.len()));
        assert(prefixed(s.skip(i), pat));
    }
}

proof fn lemma_none_at_all(s: Seq<char>, pat: Seq<char>)
    requires
        first_match(s, pat) < 0,
    ensures
        !occurs(s, pat),
{
    if occurs(s, pat) {
        let i = choose|i: int| 0 <= i <= s.len() - pat.len() && #[trigger] s.subrange(i, i + pat.len()) == pat;
        lemma_first_match(s, pat);
        assert(s.skip(i).take(pat.len() as int) =~= s.subrange(i, i + pat.len()));
        assert(prefixed(s.skip(i), pat));
    }
}

/// Replacing a text that is not empty takes it from between parts that do not hold it,
/// and puts the new one there; that many times it is counted.
pub proof fn replaced_text_is_between_parts(s: Seq<char>, pat: Seq<char>, new: Seq<char>) -> (parts: Seq<Seq<char>>)
    requires
        pat.len() > 0,
    ensures
        parts.len() == occurrences(s, pat) + 1,
        s == joined(parts, pat),
        replaced(s, pat, new) == joined(parts, new),
        forall|i: int| 0 <= i < parts.len() ==> !occurs(#[trigger] parts[i], pat),
    decreases s.len(),
{
    let k = first_match(s, pat);
    if k < 0 {
        lemma_none_at_all(s, pat);
        seq![s]
    } else {
        lemma_first_match(s, pat);
        lemma_none_before(s, pat);
        let rest = s.skip(k + pat.len());
        let more = replaced_text_is_between_parts(rest, pat, new);
        lemma_joined_first(s.take(k), more, pat);
        lemma_joined_first(s.take(k), more, new);
        assert(s =~= s.take(k) + pat + rest) by {
            assert(s.subrange(k, k + pat.len()) =~= pat);
        }
        let parts = seq![s.take(k)] + more;
        assert forall|i: int| 0 <= i < parts.len() implies !occurs(#[trigger] parts[i], pat) by {
            if i > 0 {
                assert(parts[i] == more[i - 1]);
            }
        }
        parts
    }
}

/// Replacing a text at most `n` times replaces its first occurrences: the parts before
/// the last do not hold it, nor does the last where it was replaced less often.
pub proof fn first_texts_are_replaced(s: Seq<char>, pat: Seq<char>, new: Seq<char>, n: nat) -> (parts: Seq<Seq<char>>)
    requires
        pat.len() > 0,
    ensures
        parts.len() == some_occurrences(s, pat, n) + 1,
        some_occurrences(s, pat, n) <= n,
        s == joined(parts, pat),
        replaced_some(s, pat, new, n) == joined(parts, new),
        forall|i: int| 0 <= i < parts.len() - 1 ==> !occurs(#[trigger] parts[i], pat),
        some_occurrences(s, pat, n) < n ==> !occurs(parts.last(), pat),
    decreases n,
{
    let k = first_match(s, pat);
    if n == 0 || k < 0 {
        if k < 0 {
            lemma_none_at_all(s, pat);
        }
        seq![s]
    } else {
        lemma_first_match(s, pat);
        lemma_none_before(s, pat);
        let rest = s.skip(k + pat.len());
        let more = first_texts_are_replaced(rest, pat, new, (n - 1) as nat);
        lemma_joined_first(s.take(k), more, pat);
        lemma_joined_first(s.take(k), more, new);
        assert(s =~= s.take(k) + pat + rest) by {
            assert(s.subrange(k, k + pat.len()) =~= pat);
        }
        let parts = seq![s.take(k)] + more;
        assert(parts.last() == more.last());
        assert forall|i: int| 0 <= i < parts.len() - 1 implies !occurs(#[trigger] parts[i], pat) by {
            if i > 0 {
                assert(parts[i] == more[i - 1]);
            }
        }
        parts
    }
}

/// Splitting a text gives parts without the separator, which make up the text again.
pub proof fn pieces_make_up_the_text(s: Seq<char>, sep: char)
    ensures
        pieces(s, sep).len() > 0,
        joined(pieces(s, sep), seq![sep]) == s,
        forall|i: int| 0 <= i < pieces(s, sep).len() ==> !(#[trigger] pieces(s, sep)[i]).contains(sep),
    decreases s.len(),
{
    lemma_first_index(s, sep);
    let k = first_index(s, sep);
    if 0 <= k < s.len() {
        pieces_make_up_the_text(s.skip(k + 1), sep);
        let more = pieces(s.skip(k + 1), sep);
        lemma_joined_first(s.take(k), more, seq![sep]);
        assert(s =~= s.take(k) + seq![sep] + s.skip(k + 1));
        let all = pieces(s, sep);
        assert forall|i: int| 0 <= i < all.len() implies !(#[trigger] all[i]).contains(sep) by {
            if i > 0 {
                assert(all[i] == more[i - 1]);
            } else {
                assert(all[0] == s.take(k));
            }
        }
    } else {
        assert(pieces(s, sep)[0] == s);
    }
}

/// Trimming takes white space from both ends of a text, and all of it.
pub proof fn trimming_takes_white_space(s: Seq<char>) -> (k: int)
    ensures
        0 <= k <= s.len() - trimmed(s).len(),
        trimmed(s) == s.subrange(k, k + trimmed(s).len()),
        forall|i: int| 0 <= i < k ==> white(#[trigger] s[i]),
        forall|i: int| k + trimmed(s).len() <= i < s.len() ==> white(#[trigger] s[i]),
        trimmed(s).len() > 0 ==> !white(trimmed(s)[0]) && !white(trimmed(s).last()),
{
    let k = lemma_trim_start_is_suffix(s);
    let t = trim_start(s);
    lemma_trim_end_is_prefix(t);
    lemma_trim_start_ends(s);
    lemma_trim_end_ends(t);
    let u = trimmed(s);
    assert(u =~= s.subrange(k, k + u.len()));
    assert forall|i: int| k + u.len() <= i < s.len() implies white(#[trigger] s[i]) by {
        assert(s[i] == t[i - k]);
    }
    k
}

proof fn lemma_trim_start_is_suffix(s: Seq<char>) -> (k: int)
    ensures
        0 <= k <= s.len(),
        trim_start(s) == s.skip(k),
        forall|i: int| 0 <= i < k ==> white(#[trigger] s[i]),
    decreases s.len(),
{
    if s.len() > 0 && white(s[0]) {
        let k = lemma_trim_start_is_suffix(s.drop_first());
        assert(s.drop_first().skip(k) =~= s.skip(k + 1));
        assert forall|i: int| 0 <= i < k + 1 implies white(#[trigger] s[i]) by {
            if i > 0 {
                assert(s[i] == s.drop_first()[i - 1]);
            }
        }
        k + 1
    } else {
        assert(s.skip(0) =~= s);
        0
    }
}

proof fn lemma_trim_end_is_prefix(s: Seq<char>)
    ensures
        trim_end(s).len() <= s.len(),
        trim_end(s) == s.take(trim_end(s).len() as int),
        forall|i: int| trim_end(s).len() <= i < s.len() ==> white(#[trigger] s[i]),
    decreases s.len(),
{
    if s.len() > 0 && white(s.last()) {
        lemma_trim_end_is_prefix(s.drop_last());
        let n = trim_end(s).len() as int;
        assert(s.drop_last().take(n) =~= s.take(n));
        assert forall|i: int| n <= i < s.len() implies white(#[trigger] s[i]) by {
            if i < s.len() - 1 {
                assert(s[i] == s.drop_last()[i]);
            }
        }
    } else {
        assert(s.take(s.len() as int) =~= s);
    }
}

/// The words of a text are not empty and hold no white space, and its characters other
/// than white space are those of the words in a row.
pub proof fn words_make_up_the_text(s: Seq<char>)
    ensures
        forall|i: int|
            0 <= i < words(s).len() ==> (#[trigger] words(s)[i]).len() > 0 && (forall|j: int|
                0 <= j < words(s)[i].len() ==> !white(#[trigger] words(s)[i][j])),
        joined(words(s), Seq::empty()) == s.filter(|c: char| !white(c)),
    decreases s.len(),
{
    let keep = |c: char| !white(c);
    if s.len() == 0 {
        reveal(Seq::filter);
        assert(s.filter(keep) =~= Seq::empty());
    } else if white(s[0]) {
        words_make_up_the_text(s.drop_first());
        assert(s =~= seq![s[0]] + s.drop_first());
        lemma_filter_adds(seq![s[0]], s.drop_first(), keep);
        assert(seq![s[0]].filter(keep) =~= Seq::empty()) by {
            reveal_with_fuel(Seq::filter, 2);
            assert(seq![s[0]].drop_last() =~= Seq::empty());
            assert(seq![s[0]].last() == s[0]);
        }
        assert(s.filter(keep) =~= s.drop_first().filter(keep));
    } else {
        lemma_word_end(s);
        let k = word_end(s);
        let w = s.take(k);
        let rest = s.skip(k);
        words_make_up_the_text(rest);
        assert(s =~= w + rest);
        lemma_filter_adds(w, rest, keep);
        lemma_filter_all(w, keep);
        let all = words(s);
        let more = words(rest);
        if more.len() > 0 {
            lemma_joined_first(w, more, Seq::empty());
            assert(w + Seq::<char>::empty() =~= w);
        } else {
            assert(all =~= seq![w]);
            assert(joined(more, Seq::empty()) =~= Seq::empty());
            assert(w + rest.filter(keep) =~= w);
        }
        assert forall|i: int| 0 <= i < all.len() implies (#[trigger] all[i]).len() > 0 && (forall|j: int|
            0 <= j < all[i].len() ==> !white(#[trigger] all[i][j])) by {
            if i > 0 {
                assert(all[i] == more[i - 1]);
            } else {
                assert(all[0] == w);
                assert forall|j: int| 0 <= j < w.len() implies !white(#[trigger] w[j]) by {
                    assert(w[j] == s[j]);
                }
            }
        }
    }
}

proof fn lemma_word_end(s: Seq<char>)
    ensures
        0 <= word_end(s) <= s.len(),
        forall|i: int| 0 <= i < word_end(s) ==> !white(#[trigger] s[i]),
        s.len() > 0 && !white(s[0]) ==> word_end(s) > 0,
    decreases s.len(),
{
    if s.len() > 0 && !white(s[0]) {
        lemma_word_end(s.drop_first());
        assert forall|i: int| 0 <= i < word_end(s) implies !white(#[trigger] s[i]) by {
            if i > 0 {
                assert(s[i] == s.drop_first()[i - 1]);
            }
        }
    }
}

proof fn lemma_filter_adds(a: Seq<char>, b: Seq<char>, keep: spec_fn(char) -> bool)
    ensures
        (a + b).filter(keep) == a.filter(keep) + b.filter(keep),
    decreases b.len(),
{
    reveal(Seq::filter);
    if b.len() == 0 {
        assert(a + b =~= a);
        assert(a.filter(keep) + b.filter(keep) =~= a.filter(keep));
    } else {
        assert((a + b).drop_last() =~= a + b.drop_last());
        lemma_filter_adds(a, b.drop_last(), keep);
        assert((a + b).filter(keep) =~= a.filter(keep) + b.filter(keep));
    }
}

proof fn lemma_filter_all(s: Seq<char>, keep: spec_fn(char) -> bool)
    requires
        forall|i: int| 0 <= i < s.len() ==> keep(#[trigger] s[i]),
    ensures
        s.filter(keep) == s,
    decreases s.len(),
{
    reveal(Seq::filter);
    if s.len() > 0 {
        let t = s.drop_last();
        assert forall|i: int| 0 <= i < t.len() implies keep(#[trigger] t[i]) by {
            assert(t[i] == s[i]);
        }
        lemma_filter_all(t, keep);
        assert(keep(s[s.len() - 1]));
        assert(t.push(s.last()) =~= s);
    }
}

/// Splitting a text around a separator splits both sides.
pub proof fn lemma_pieces_joined(a: Seq<char>, b: Seq<char>, sep: char)
    ensures
        pieces(a + seq![sep] + b, sep) == pieces(a, sep) + pieces(b, sep),
    decreases a.len(),
{
    let s = a + seq![sep] + b;
    lemma_first_index(a, sep);
    let k = first_index(a, sep);
    if 0 <= k < a.len() {
        assert forall|i: int| 0 <= i < k implies s[i] != sep by {
            assert(s[i] == a[i]);
        }
        assert(s[k] == sep);
        lemma_first_index_is(s, sep, k);
        assert(s.take(k) =~= a.take(k));
        assert(s.skip(k + 1) =~= a.skip(k + 1) + seq![sep] + b);
        lemma_pieces_joined(a.skip(k + 1), b, sep);
        assert(pieces(s, sep) =~= pieces(a, sep) + pieces(b, sep));
    } else {
        let n = a.len() as int;
        assert forall|i: int| 0 <= i < n implies s[i] != sep by {
            assert(s[i] == a[i]);
        }
        assert(s[n] == sep);
        lemma_first_index_is(s, sep, n);
        assert(s.take(n) =~= a);
        assert(s.skip(n + 1) =~= b);
        assert(pieces(s, sep) =~= pieces(a, sep) + pieces(b, sep));
    }
}

/// Lines end at line breaks: the first ends at the first of them, without a carriage return
/// before it, and the others follow.
pub proof fn lines_end_at_breaks(line: Seq<char>, rest: Seq<char>)
    requires
        !line.contains('\n'),
    ensures
        rows(line + seq!['\n'] + rest) == seq![
            if line.len() > 0 && line.last() == '\r' {
                line.drop_last()
            } else {
                line
            },
        ] + rows(rest),
        line.len() > 0 ==> rows(line) == seq![line],
        rows(Seq::empty()).len() == 0,
{
    let s = line + seq!['\n'] + rest;
    let n = line.len() as int;
    assert forall|i: int| 0 <= i < n implies s[i] != '\n' by {
        assert(s[i] == line[i]);
        assert(line.contains(line[i]));
    }
    lemma_first_index_is(s, '\n', n);
    assert(s.take(n) =~= line);
    assert(s.skip(n + 1) =~= rest);
    lemma_first_index(line, '\n');
}

} // verus!
