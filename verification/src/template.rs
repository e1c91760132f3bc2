//! Request templates with placeholders in braces, filled in with percent-encoded
//! values.

use crate::digits::{digit_value, upper_digit, upper_digit_char};
use crate::handler_error::{fault, Fault, HandlerError};
use crate::identity::{scalar_string, scalar_text};
use crate::json::{fields, Fields, Object, Tree};
use crate::order::{sort, sorted};
use crate::text::{
    bytes_of, cat2, cat3, chars_of, debug_text, first_index, index_from, lemma_first_index, lemma_first_index_is,
    lemma_first_match_is, lemma_no_match, prefixed, quoted, replace, replaced, slice_text, views,
};
use vstd::prelude::*;

verus! {

/// A byte that stands for itself in a URL.
pub open spec fn unreserved(b: u8) -> bool {
    ||| 48 <= b <= 57
    ||| 65 <= b <= 90
    ||| 97 <= b <= 122
    ||| b == 45 || b == 46 || b == 95 || b == 126
}

/// A byte in a URL: itself, or `%` and two hexadecimal digits.
pub open spec fn encoded_byte(b: u8) -> Seq<char> {
    if unreserved(b) {
        seq![b as char]
    } else {
        seq!['%', upper_digit_char(b as int / 16), upper_digit_char(b as int % 16)]
    }
}

pub open spec fn encoded(b: Seq<u8>) -> Seq<char>
    decreases b.len(),
{
    if b.len() == 0 {
        Seq::empty()
    } else {
        encoded(b.drop_last()) + encoded_byte(b.last())
    }
}

/// A text as it stands in a URL.
pub fn percent_encode(value: &str) -> (r: String)
    ensures
        r@ == encoded(bytes_of(value@)),
{
    let bytes = value.as_bytes();
    let mut out = String::new();
    let mut i: usize = 0;
    while i < bytes.len()
        invariant
            i <= bytes@.len(),
            out@ == encoded(bytes@.take(i as int)),
        decreases bytes@.len() - i,
    {
        let b = bytes[i];
        assert(bytes@.take(i + 1).drop_last() =~= bytes@.take(i as int));
        let ghost before = out@;
        if (48 <= b && b <= 57) || (65 <= b && b <= 90) || (97 <= b && b <= 122) || b == 45 || b == 46 || b == 95 || b == 126 {
            out.push(b as char);
            assert(out@ =~= before + encoded_byte(b));
        } else {
            out.push('%');
            out.push(upper_digit(b / 16));
            out.push(upper_digit(b % 16));
            assert(out@ =~= before + encoded_byte(b));
        }
        i = i + 1;
    }
    assert(bytes@.take(i as int) =~= bytes@);
    out
}

/// The template with the first `n` values put in, one after the other.
pub open spec fn filled(template: Seq<char>, params: Fields, n: int) -> Seq<char>
    decreases n,
{
    if n <= 0 || n > params.len() {
        template
    } else {
        replaced(
            filled(template, params, n - 1),
            "{"@ + params[n - 1].0 + "}"@,
            encoded(bytes_of(scalar_text(params[n - 1].1))),
        )
    }
}

/// The first placeholder in a text, from its brace to the next closing one.
pub open spec fn placeholder(s: Seq<char>) -> Option<Seq<char>> {
    let k = first_index(s, '{');
    if 0 <= k < s.len() {
        let rest = s.skip(k + 1);
        let e = first_index(rest, '}');
        if 0 <= e < rest.len() {
            Some(rest.take(e))
        } else {
            None
        }
    } else {
        None
    }
}

/// A template with its values, all placeholders filled.
pub open spec fn rendered(template: Seq<char>, params: Fields) -> Result<Seq<char>, Fault> {
    let out = filled(template, params, params.len() as int);
    match placeholder(out) {
        Some(missing) => Err(fault("missing_param"@, "the action needs a value for "@ + debug_text(missing))),
        None => Ok(out),
    }
}

/// A template with its values.
pub fn render(template: &str, params: &Object) -> (r: Result<String, HandlerError>)
    ensures
        match r {
            Ok(s) => rendered(template@, fields(params@)) == Ok::<Seq<char>, Fault>(s@),
            Err(e) => rendered(template@, fields(params@)) == Err::<Seq<char>, Fault>(e@),
        },
{
    let ghost all = fields(params@);
    let mut out = template.to_owned();
    let mut i: usize = 0;
    while i < params.len()
        invariant
            i <= params@.len(),
            all == fields(params@),
            out@ == filled(template@, all, i as int),
        decreases params@.len() - i,
    {
        assert(all[i as int] == (params@[i as int].0@, params@[i as int].1@));
        let mark = cat3("{", &params[i].0, "}");
        proof {
            reveal_strlit("{");
            assert(mark@.len() > 0);
        }
        let (next, _) = replace(&out, &mark, &percent_encode(&scalar_string(&params[i].1)));
        out = next;
        i = i + 1;
    }
    let chars = chars_of(&out);
    assert(chars@.skip(0) =~= chars@);
    let k = index_from(&chars, '{', 0);
    proof {
        crate::text::lemma_first_index(out@, '{');
    }
    if k < chars.len() {
        let e = index_from(&chars, '}', k + 1);
        proof {
            crate::text::lemma_first_index(out@.skip(k + 1), '}');
        }
        if e < chars.len() {
            let missing = slice_text(&chars, k + 1, e);
            assert(missing@ =~= out@.skip(k + 1).take(e - k - 1));
            return Err(
                HandlerError::new("missing_param", &cat2("the action needs a value for ", &quoted(&missing))),
            );
        }
    }
    Ok(out)
}

/// The names in braces from `i` on, each once, added to `names`.
pub open spec fn placeholders(s: Seq<char>, i: int, names: Seq<Seq<char>>) -> Seq<Seq<char>>
    decreases s.len() - i,
{
    if i < 0 || i >= s.len() {
        names
    } else if s[i] == '{' {
        let rest = s.skip(i + 1);
        let e = first_index(rest, '}');
        if 0 <= e < rest.len() {
            let name = rest.take(e);
            placeholders(
                s,
                i + e + 2,
                if name.len() > 0 && !names.contains(name) {
                    names.push(name)
                } else {
                    names
                },
            )
        } else {
            placeholders(s, i + 1, names)
        }
    } else {
        placeholders(s, i + 1, names)
    }
}

/// The names in braces in a template, in order, each once.
pub fn placeholder_names(template: &str) -> (r: Vec<String>)
    ensures
        views(r@) == sorted(placeholders(template@, 0, Seq::empty())),
{
    let chars = chars_of(template);
    let total = chars.len();
    let mut names: Vec<String> = Vec::new();
    let mut i: usize = 0;
    assert(views(names@) =~= Seq::empty());
    while i < total
        invariant
            i <= total,
            total == chars@.len(),
            chars@ == template@,
            placeholders(template@, i as int, views(names@)) == placeholders(template@, 0, Seq::empty()),
        decreases total - i,
    {
        if chars[i] == '{' {
            let e = index_from(&chars, '}', i + 1);
            proof {
                crate::text::lemma_first_index(template@.skip(i + 1), '}');
            }
            if e < total {
                let name = slice_text(&chars, i + 1, e);
                assert(name@ =~= template@.skip(i + 1).take(e - i - 1));
                if !name.as_str().is_empty() && !crate::order::has(&names, &name) {
                    let ghost before = views(names@);
                    names.push(name);
                    assert(views(names@) =~= before.push(name@));
                }
                i = e + 1;
            } else {
                i = i + 1;
            }
        } else {
            i = i + 1;
        }
    }
    sort(names)
}

/// Encoding goes byte by byte.
pub proof fn bytes_are_encoded_one_by_one(a: Seq<u8>, b: Seq<u8>)
    ensures
        encoded(a + b) == encoded(a) + encoded(b),
    decreases b.len(),
{
    if b.len() == 0 {
        assert(a + b =~= a);
        assert(encoded(b) =~= Seq::empty());
    } else {
        assert((a + b).drop_last() =~= a + b.drop_last());
        bytes_are_encoded_one_by_one(a, b.drop_last());
    }
}

/// A letter, a digit, `-`, `.`, `_` and `~` stand for themselves; any other byte is written
/// as a percent sign and its two digits to the base of sixteen.
pub proof fn reserved_bytes_are_written_in_digits(b: u8)
    ensures
        ({
            let c = b as char;
            let kept = 'a' <= c <= 'z' || 'A' <= c <= 'Z' || '0' <= c <= '9' || c == '-' || c == '.' || c == '_' || c == '~';
            let r = encoded(seq![b]);
            &&& kept ==> r == seq![c]
            &&& !kept ==> r.len() == 3 && r[0] == '%' && digit_value(r[1], 16) >= 0 && digit_value(r[2], 16) >= 0
                && digit_value(r[1], 16) * 16 + digit_value(r[2], 16) == b && !('a' <= r[1] <= 'z') && !('a' <= r[2] <= 'z')
        }),
{
    let s = seq![b];
    assert(s.drop_last() =~= Seq::empty());
    assert(encoded(s.drop_last()) =~= Seq::<char>::empty());
    assert(encoded(s) =~= encoded_byte(b));
    let hi = b as int / 16;
    let lo = b as int % 16;
    assert(0 <= hi < 16 && 0 <= lo < 16 && hi * 16 + lo == b);
}

/// The value of a parameter stands, encoded, where the template names the parameter.
pub proof fn values_stand_for_their_names(before: Seq<char>, name: Seq<char>, after: Seq<char>, value: Seq<char>)
    requires
        !before.contains('{'),
        !after.contains('{'),
    ensures
        rendered(before + ("{"@ + name + "}"@) + after, seq![(name, Tree::Text(value))]) == Ok::<Seq<char>, Fault>(
            before + encoded(bytes_of(value)) + after,
        ),
{
    reveal_strlit("{");
    reveal_strlit("}");
    let pat = "{"@ + name + "}"@;
    let s = before + pat + after;
    let params = seq![(name, Tree::Text(value))];
    assert(pat[0] == '{');
    let new = encoded(bytes_of(value));
    assert forall|i: int| 0 <= i < before.len() implies !prefixed(#[trigger] s.skip(i), pat) by {
        assert(s.skip(i)[0] == before[i]);
        assert(before.contains(before[i]));
        if prefixed(s.skip(i), pat) {
            assert(s.skip(i).take(pat.len() as int)[0] == pat[0]);
        }
    }
    assert(s.skip(before.len() as int) =~= pat + after);
    assert((pat + after).take(pat.len() as int) =~= pat);
    lemma_first_match_is(s, pat, before.len() as int);
    assert(s.take(before.len() as int) =~= before);
    assert(s.skip(before.len() as int + pat.len()) =~= after);
    assert forall|i: int| 0 <= i <= after.len() implies !prefixed(#[trigger] after.skip(i), pat) by {
        if prefixed(after.skip(i), pat) {
            assert(after.skip(i).take(pat.len() as int)[0] == pat[0]);
            assert(after.contains(after[i]));
        }
    }
    lemma_no_match(after, pat);
    assert(replaced(after, pat, new) == after);
    assert(replaced(s, pat, new) == before + new + after);
    reveal_with_fuel(filled, 2);
    assert(filled(s, params, 1) == replaced(s, pat, new));
    let out = before + new + after;
    lemma_encoded_plainly(bytes_of(value));
    lemma_first_index(out, '{');
    let k = first_index(out, '{');
    if k < out.len() {
        if k < before.len() {
            assert(before[k] == '{');
        } else if k < before.len() + new.len() {
            assert(new[k - before.len()] == '{');
        } else {
            assert(after[k - before.len() - new.len()] == '{');
        }
    }
}

proof fn lemma_encoded_plainly(b: Seq<u8>)
    ensures
        !encoded(b).contains('{'),
    decreases b.len(),
{
    if b.len() > 0 {
        lemma_encoded_plainly(b.drop_last());
        let front = encoded(b.drop_last());
        let last = encoded_byte(b.last());
        if encoded(b).contains('{') {
            let i = choose|i: int| 0 <= i < encoded(b).len() && encoded(b)[i] == '{';
            if i < front.len() {
                assert(front[i] == '{');
            } else {
                assert(last[i - front.len()] == '{');
            }
        }
    }
}

/// A template that still names a parameter is refused.
pub proof fn missing_values_are_refused(template: Seq<char>, params: Fields)
    ensures
        rendered(template, params) matches Ok(out) ==> forall|i: int, j: int|
            0 <= i < j < out.len() && #[trigger] out[i] == '{' ==> #[trigger] out[j] != '}',
        rendered(template, params) matches Err(f) ==> f.code == "missing_param"@,
{
    if let Ok(out) = rendered(template, params) {
        assert forall|i: int, j: int| 0 <= i < j < out.len() && #[trigger] out[i] == '{' implies #[trigger] out[j] != '}' by {
            lemma_first_index(out, '{');
            let k = first_index(out, '{');
            let rest = out.skip(k + 1);
            assert(k <= i);
            lemma_first_index(rest, '}');
            if out[j] == '}' {
                assert(rest[j - k - 1] == '}');
            }
        }
    }
}

/// The parameters of a template are what stands between its braces.
pub proof fn parameters_stand_between_braces(before: Seq<char>, name: Seq<char>, after: Seq<char>)
    requires
        name.len() > 0,
        !before.contains('{'),
        !after.contains('{'),
        !name.contains('}'),
    ensures
        placeholders(before + seq!['{'] + name + seq!['}'] + after, 0, Seq::empty()) == seq![name],
{
    let s = before + seq!['{'] + name + seq!['}'] + after;
    let k = before.len() as int;
    let end = k + name.len() + 2;
    assert forall|i: int| 0 <= i < k implies s[i] != '{' by {
        assert(s[i] == before[i]);
        assert(before.contains(before[i]));
    }
    assert forall|i: int| end <= i < s.len() implies s[i] != '{' by {
        assert(s[i] == after[i - end]);
        assert(after.contains(after[i - end]));
    }
    lemma_no_braces(s, 0, k, Seq::empty());
    let rest = s.skip(k + 1);
    assert forall|i: int| 0 <= i < name.len() implies rest[i] != '}' by {
        assert(rest[i] == name[i]);
        assert(name.contains(name[i]));
    }
    assert(rest[name.len() as int] == '}');
    lemma_first_index_is(rest, '}', name.len() as int);
    assert(rest.take(name.len() as int) =~= name);
    let names = Seq::<Seq<char>>::empty().push(name);
    assert(placeholders(s, k, Seq::empty()) == placeholders(s, end, names));
    lemma_no_braces(s, end, s.len() as int, names);
    assert(placeholders(s, s.len() as int, names) == names);
    assert(names =~= seq![name]);
}

proof fn lemma_no_braces(s: Seq<char>, i: int, k: int, names: Seq<Seq<char>>)
    requires
        0 <= i <= k <= s.len(),
        forall|j: int| i <= j < k ==> s[j] != '{',
    ensures
        placeholders(s, i, names) == placeholders(s, k, names),
    decreases k - i,
{
    if i < k {
        assert(s[i] != '{');
        lemma_no_braces(s, i + 1, k, names);
    }
}

} // verus!
