//! ASCII case and single-character trimming.

use crate::text::{chars_of, same, slice_text};
use vstd::prelude::*;

verus! {

pub open spec fn lower_char(c: char) -> char {
    if 'A' <= c <= 'Z' {
        (c as u32 + 32) as char
    } else {
        c
    }
}

pub open spec fn upper_char(c: char) -> char {
    if 'a' <= c <= 'z' {
        (c as u32 - 32) as char
    } else {
        c
    }
}

/// `s` with the letters `A` to `Z` in lower case.
pub open spec fn lowered(s: Seq<char>) -> Seq<char> {
    Seq::new(s.len(), |i: int| lower_char(s[i]))
}

/// `s` with the letters `a` to `z` in upper case.
pub open spec fn uppered(s: Seq<char>) -> Seq<char> {
    Seq::new(s.len(), |i: int| upper_char(s[i]))
}

pub fn lower(c: char) -> (r: char)
    ensures
        r == lower_char(c),
{
    if 'A' <= c && c <= 'Z' {
        (c as u8 + 32u8) as char
    } else {
        c
    }
}

pub fn upper(c: char) -> (r: char)
    ensures
        r == upper_char(c),
{
    if 'a' <= c && c <= 'z' {
        (c as u8 - 32u8) as char
    } else {
        c
    }
}

/// The text with its ASCII letters in lower case.
pub fn to_lower(s: &str) -> (r: String)
    ensures
        r@ == lowered(s@),
{
    let chars = chars_of(s);
    let mut r = String::new();
    let mut i: usize = 0;
    while i < chars.len()
        invariant
            i <= chars@.len(),
            r@ == lowered(chars@.take(i as int)),
        decreases chars@.len() - i,
    {
        r.push(lower(chars[i]));
        i = i + 1;
        assert(lowered(chars@.take(i as int)) =~= lowered(chars@.take(i - 1)).push(lower_char(chars@[i - 1])));
    }
    assert(chars@.take(i as int) =~= chars@);
    r
}

/// The text with its ASCII letters in upper case.
pub fn to_upper(s: &str) -> (r: String)
    ensures
        r@ == uppered(s@),
{
    let chars = chars_of(s);
    let mut r = String::new();
    let mut i: usize = 0;
    while i < chars.len()
        invariant
            i <= chars@.len(),
            r@ == uppered(chars@.take(i as int)),
        decreases chars@.len() - i,
    {
        r.push(upper(chars[i]));
        i = i + 1;
        assert(uppered(chars@.take(i as int)) =~= uppered(chars@.take(i - 1)).push(upper_char(chars@[i - 1])));
    }
    assert(chars@.take(i as int) =~= chars@);
    r
}

/// Whether two texts are the same but for the case of ASCII letters.
pub fn same_ignoring_case(a: &str, b: &str) -> (r: bool)
    ensures
        r == (lowered(a@) == lowered(b@)),
{
    let x = to_lower(a);
    let y = to_lower(b);
    same(&x, &y)
}

/// `s` without the run of `c` that it begins with.
pub open spec fn without_leading(s: Seq<char>, c: char) -> Seq<char>
    decreases s.len(),
{
    if s.len() > 0 && s[0] == c {
        without_leading(s.drop_first(), c)
    } else {
        s
    }
}

/// `s` without the run of `c` that it ends with.
pub open spec fn without_trailing(s: Seq<char>, c: char) -> Seq<char>
    decreases s.len(),
{
    if s.len() > 0 && s.last() == c {
        without_trailing(s.drop_last(), c)
    } else {
        s
    }
}

/// The text without the `c` that it begins with.
pub fn drop_leading(s: &str, c: char) -> (r: String)
    ensures
        r@ == without_leading(s@, c),
{
    let chars = chars_of(s);
    let mut i: usize = 0;
    assert(chars@.skip(0) =~= chars@);
    while i < chars.len() && chars[i] == c
        invariant
            i <= chars@.len(),
            without_leading(chars@.skip(i as int), c) == without_leading(chars@, c),
        decreases chars@.len() - i,
    {
        assert(chars@.skip(i as int).drop_first() =~= chars@.skip(i + 1));
        i = i + 1;
    }
    let r = slice_text(&chars, i, chars.len());
    assert(r@ =~= chars@.skip(i as int));
    r
}

/// The text without the `c` that it ends with.
pub fn drop_trailing(s: &str, c: char) -> (r: String)
    ensures
        r@ == without_trailing(s@, c),
{
    let chars = chars_of(s);
    let mut i: usize = chars.len();
    assert(chars@.take(chars@.len() as int) =~= chars@);
    while i > 0 && chars[i - 1] == c
        invariant
            i <= chars@.len(),
            without_trailing(chars@.take(i as int), c) == without_trailing(chars@, c),
        decreases i,
    {
        assert(chars@.take(i as int).drop_last() =~= chars@.take(i - 1));
        i = i - 1;
    }
    let r = slice_text(&chars, 0, i);
    assert(r@ =~= chars@.take(i as int));
    r
}

/// The first `n` characters of `s`, or all of them.
pub open spec fn clipped(s: Seq<char>, n: int) -> Seq<char> {
    if s.len() <= n {
        s
    } else {
        s.take(n)
    }
}

/// The first `n` characters of a text, or all of them.
pub fn take_chars(s: &str, n: usize) -> (r: String)
    ensures
        r@ == clipped(s@, n as int),
{
    let chars = chars_of(s);
    let end = if chars.len() <= n {
        chars.len()
    } else {
        n
    };
    let r = slice_text(&chars, 0, end);
    assert(r@ =~= clipped(s@, n as int));
    r
}

} // verus!
