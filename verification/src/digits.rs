//! Numbers written as text: decimal and hexadecimal forms, and their parsing.

use crate::text::chars_of;
use vstd::prelude::*;

verus! {

/// The digit that stands for `d` (below 16), in lower case.
pub open spec fn digit_char(d: int) -> char {
    if d < 10 {
        (48 + d) as char
    } else {
        (87 + d) as char
    }
}

/// The digit that stands for `d` (below 16), in upper case.
pub open spec fn upper_digit_char(d: int) -> char {
    if d < 10 {
        (48 + d) as char
    } else {
        (55 + d) as char
    }
}

pub fn digit(d: u8) -> (r: char)
    requires
        d < 16,
    ensures
        r == digit_char(d as int),
{
    if d < 10 {
        (48u8 + d) as char
    } else {
        (87u8 + d) as char
    }
}

pub fn upper_digit(d: u8) -> (r: char)
    requires
        d < 16,
    ensures
        r == upper_digit_char(d as int),
{
    if d < 10 {
        (48u8 + d) as char
    } else {
        (55u8 + d) as char
    }
}

/// `n` in base `radix`, without leading zeros.
pub open spec fn numeral(n: nat, radix: nat) -> Seq<char>
    decreases n,
{
    if radix < 2 || n < radix {
        seq![digit_char(n as int)]
    } else {
        proof {
            assert(n / radix < n) by (nonlinear_arith)
                requires
                    radix >= 2,
                    n >= radix,
            ;
        }
        numeral(n / radix, radix).push(digit_char((n % radix) as int))
    }
}

/// `n` in decimal.
pub open spec fn decimal(n: nat) -> Seq<char> {
    numeral(n, 10)
}

/// A number begins with a digit.
pub proof fn lemma_decimal_begins(n: nat)
    ensures
        decimal(n).len() > 0,
        '0' <= decimal(n)[0] <= '9',
    decreases n,
{
    if n >= 10 {
        lemma_decimal_begins(n / 10);
    }
}

/// `n` in base `radix`.
pub fn numeral_text(n: u64, radix: u64) -> (r: String)
    requires
        2 <= radix <= 16,
    ensures
        r@ == numeral(n as nat, radix as nat),
    decreases n,
{
    if n < radix {
        let mut r = String::new();
        r.push(digit(n as u8));
        assert(r@ =~= seq![digit_char(n as int)]);
        r
    } else {
        proof {
            assert(n / radix < n) by (nonlinear_arith)
                requires
                    radix >= 2,
                    n >= radix,
            ;
        }
        let low = n % radix;
        let mut r = numeral_text(n / radix, radix);
        r.push(digit(low as u8));
        r
    }
}

/// A number in decimal digits.
pub fn decimal_text(n: u64) -> (r: String)
    ensures
        r@ == decimal(n as nat),
{
    numeral_text(n, 10)
}

/// `n` in decimal, with a sign where it is negative.
pub open spec fn signed_decimal(n: int) -> Seq<char> {
    if n < 0 {
        seq!['-'] + decimal((-n) as nat)
    } else {
        decimal(n as nat)
    }
}

/// A signed number in decimal digits.
pub fn signed_text(n: i64) -> (r: String)
    ensures
        r@ == signed_decimal(n as int),
{
    if n < 0 {
        let magnitude: u64 = (-(n as i128)) as u64;
        let mut r = String::new();
        r.push('-');
        let digits = decimal_text(magnitude);
        assert(r@ =~= seq!['-']);
        r.append(&digits);
        r
    } else {
        decimal_text(n as u64)
    }
}

/// `n` in decimal, filled up with zeros on the left to at least `width` digits.
pub open spec fn padded(n: nat, radix: nat, width: nat) -> Seq<char> {
    let d = numeral(n, radix);
    if d.len() < width {
        Seq::new((width - d.len()) as nat, |i: int| '0') + d
    } else {
        d
    }
}

/// `format!("{n:0width$}")` in base `radix`.
pub fn padded_text(n: u64, radix: u64, width: usize) -> (r: String)
    requires
        2 <= radix <= 16,
    ensures
        r@ == padded(n as nat, radix as nat, width as nat),
{
    let digits = chars_of(&numeral_text(n, radix));
    let mut r = String::new();
    let mut i: usize = digits.len();
    assert(r@ =~= Seq::new(0, |j: int| '0'));
    while i < width
        invariant
            digits@.len() <= i,
            i <= width || i == digits@.len(),
            r@ == Seq::new((i - digits@.len()) as nat, |j: int| '0'),
        decreases width - i,
    {
        r.push('0');
        i = i + 1;
        assert(r@ =~= Seq::new((i - digits@.len()) as nat, |j: int| '0'));
    }
    crate::text::push_range(&mut r, &digits, 0, digits.len());
    assert(digits@.subrange(0, digits@.len() as int) =~= digits@);
    assert(r@ =~= padded(n as nat, radix as nat, width as nat));
    r
}

/// What the character `c` counts in base `radix`, or -1.
pub open spec fn digit_value(c: char, radix: int) -> int {
    let v = if '0' <= c <= '9' {
        c as int - 48
    } else if 'a' <= c <= 'z' {
        c as int - 87
    } else if 'A' <= c <= 'Z' {
        c as int - 55
    } else {
        -1
    };
    if v < radix {
        v
    } else {
        -1
    }
}

pub fn value_of(c: char, radix: u8) -> (r: Option<u8>)
    requires
        radix <= 36,
    ensures
        match r {
            Some(v) => v == digit_value(c, radix as int),
            None => digit_value(c, radix as int) == -1,
        },
{
    let code = c as u32;
    let v: u32 = if '0' <= c && c <= '9' {
        code - 48
    } else if 'a' <= c && c <= 'z' {
        code - 87
    } else if 'A' <= c && c <= 'Z' {
        code - 55
    } else {
        255
    };
    if v < radix as u32 {
        Some(v as u8)
    } else {
        None
    }
}

/// Every character is a digit of base `radix`.
pub open spec fn all_digits(s: Seq<char>, radix: int) -> bool {
    forall|i: int| 0 <= i < s.len() ==> digit_value(#[trigger] s[i], radix) >= 0
}

/// The number that the digits `s` write.
pub open spec fn digits_value(s: Seq<char>, radix: int) -> int
    decreases s.len(),
{
    if s.len() == 0 {
        0
    } else {
        digits_value(s.drop_last(), radix) * radix + digit_value(s.last(), radix)
    }
}

/// What std's integer parsers read: an optional plus sign and at least one
/// digit, worth at most `max`.
pub open spec fn parsed(s: Seq<char>, radix: int, max: int) -> Option<int> {
    let body = if s.len() > 0 && s[0] == '+' {
        s.skip(1)
    } else {
        s
    };
    if body.len() > 0 && all_digits(body, radix) && digits_value(body, radix) <= max {
        Some(digits_value(body, radix))
    } else {
        None
    }
}

pub proof fn lemma_digits_grow(s: Seq<char>, radix: int, k: int)
    requires
        0 <= k <= s.len(),
        radix >= 1,
        all_digits(s, radix),
    ensures
        0 <= digits_value(s.take(k), radix) <= digits_value(s, radix),
    decreases s.len() - k,
{
    lemma_digits_nonnegative(s.take(k), radix);
    if k == s.len() {
        assert(s.take(k) =~= s);
    } else {
        lemma_digits_grow(s, radix, k + 1);
        let a = digits_value(s.take(k), radix);
        assert(s.take(k + 1).drop_last() =~= s.take(k));
        assert(s.take(k + 1).last() == s[k]);
        assert(digit_value(s[k], radix) >= 0);
        assert(a <= a * radix) by (nonlinear_arith)
            requires
                a >= 0,
                radix >= 1,
        ;
    }
}

pub proof fn lemma_digits_nonnegative(s: Seq<char>, radix: int)
    requires
        radix >= 1,
        all_digits(s, radix),
    ensures
        digits_value(s, radix) >= 0,
    decreases s.len(),
{
    if s.len() > 0 {
        let t = s.drop_last();
        assert forall|i: int| 0 <= i < t.len() implies digit_value(#[trigger] t[i], radix) >= 0 by {
            assert(t[i] == s[i]);
        }
        lemma_digits_nonnegative(t, radix);
        let a = digits_value(t, radix);
        assert(digit_value(s[s.len() - 1], radix) >= 0);
        assert(a * radix >= 0) by (nonlinear_arith)
            requires
                a >= 0,
                radix >= 1,
        ;
    }
}

pub proof fn lemma_parsed(s: Seq<char>, radix: int, max: int)
    requires
        radix >= 1,
    ensures
        parsed(s, radix, max) matches Some(n) ==> 0 <= n <= max,
{
    let body = if s.len() > 0 && s[0] == '+' {
        s.skip(1)
    } else {
        s
    };
    if all_digits(body, radix) {
        lemma_digits_nonnegative(body, radix);
    }
}

pub open spec fn opt_int(r: Option<u64>) -> Option<int> {
    match r {
        Some(v) => Some(v as int),
        None => None,
    }
}

/// `from_str_radix` for numbers up to `max`.
pub fn parse_radix(s: &str, radix: u8, max: u64) -> (r: Option<u64>)
    requires
        2 <= radix <= 36,
    ensures
        opt_int(r) == parsed(s@, radix as int, max as int),
{
    let chars = chars_of(s);
    let total = chars.len();
    let from: usize = if total > 0 && chars[0] == '+' {
        1
    } else {
        0
    };
    let ghost body = chars@.skip(from as int);
    assert(chars@.skip(0) =~= chars@);
    if from == total {
        return None;
    }
    let mut value: u64 = 0;
    let mut i: usize = from;
    while i < total
        invariant
            2 <= radix <= 36,
            total == chars@.len(),
            from <= i <= total,
            body == chars@.skip(from as int),
            body == (if s@.len() > 0 && s@[0] == '+' {
                s@.skip(1)
            } else {
                s@
            }),
            value <= max,
            value == digits_value(body.take(i - from), radix as int),
            forall|j: int| 0 <= j < i - from ==> digit_value(#[trigger] body[j], radix as int) >= 0,
        decreases total - i,
    {
        let ghost done = body.take(i - from);
        let ghost more = body.take(i + 1 - from);
        proof {
            assert(body[i - from] == chars@[i as int]);
            assert(more.drop_last() =~= done);
            assert(more.last() == chars@[i as int]);
        }
        match value_of(chars[i], radix) {
            None => {
                assert(digit_value(body[i - from], radix as int) < 0);
                return None;
            },
            Some(d) => {
                assert(value as int * radix as int <= 0xffff_ffff_ffff_ffff * 36) by (nonlinear_arith)
                    requires
                        value as int <= 0xffff_ffff_ffff_ffff,
                        0 <= radix as int <= 36,
                        0 <= value as int,
                ;
                let wide: u128 = value as u128 * radix as u128 + d as u128;
                proof {
                    assert(wide == digits_value(more, radix as int));
                    if wide > max && all_digits(body, radix as int) {
                        lemma_digits_grow(body, radix as int, i + 1 - from);
                    }
                }
                if wide > max as u128 {
                    return None;
                }
                value = wide as u64;
            },
        }
        i = i + 1;
    }
    assert(body.take(total - from) =~= body);
    Some(value)
}

/// `s.parse::<u64>()`.
pub fn parse_u64(s: &str) -> (r: Option<u64>)
    ensures
        opt_int(r) == parsed(s@, 10, u64::MAX as int),
{
    parse_radix(s, 10, u64::MAX)
}

/// Each byte as two lower-case hexadecimal digits.
pub open spec fn hex(bytes: Seq<u8>) -> Seq<char>
    decreases bytes.len(),
{
    if bytes.len() == 0 {
        Seq::empty()
    } else {
        hex(bytes.drop_last()).push(digit_char(bytes.last() as int / 16)).push(digit_char(bytes.last() as int % 16))
    }
}

/// Each byte as two lower-case hexadecimal digits.
pub fn hex_bytes(bytes: &[u8]) -> (r: String)
    ensures
        r@ == hex(bytes@),
{
    let mut r = String::new();
    let mut i: usize = 0;
    while i < bytes.len()
        invariant
            i <= bytes@.len(),
            r@ == hex(bytes@.take(i as int)),
        decreases bytes@.len() - i,
    {
        let b = bytes[i];
        r.push(digit(b / 16));
        r.push(digit(b % 16));
        i = i + 1;
        assert(bytes@.take(i as int).drop_last() =~= bytes@.take(i - 1));
    }
    assert(bytes@.take(i as int) =~= bytes@);
    r
}

/// The hexadecimal form is twice as long as the bytes.
pub proof fn lemma_hex_len(bytes: Seq<u8>)
    ensures
        hex(bytes).len() == 2 * bytes.len(),
    decreases bytes.len(),
{
    if bytes.len() > 0 {
        lemma_hex_len(bytes.drop_last());
    }
}

/// Hexadecimal digits are ASCII.
pub proof fn lemma_hex_ascii(bytes: Seq<u8>)
    ensures
        vstd::utf8::is_ascii_chars(hex(bytes)),
    decreases bytes.len(),
{
    if bytes.len() > 0 {
        lemma_hex_ascii(bytes.drop_last());
    }
}

/// Reading two digits of the hexadecimal form gives the byte back.
pub proof fn lemma_hex_digits(bytes: Seq<u8>, i: int)
    requires
        0 <= i < bytes.len(),
    ensures
        2 * i + 1 < hex(bytes).len(),
        digit_value(hex(bytes)[2 * i], 16) * 16 + digit_value(hex(bytes)[2 * i + 1], 16) == bytes[i],
        digit_value(hex(bytes)[2 * i], 16) >= 0,
        digit_value(hex(bytes)[2 * i + 1], 16) >= 0,
    decreases bytes.len(),
{
    lemma_hex_len(bytes);
    lemma_hex_len(bytes.drop_last());
    if i < bytes.len() - 1 {
        lemma_hex_digits(bytes.drop_last(), i);
    } else {
        let b = bytes.last() as int;
        assert(hex(bytes)[2 * i] == digit_char(b / 16));
        assert(hex(bytes)[2 * i + 1] == digit_char(b % 16));
    }
}

/// A number under `16^k` has at most `k` hexadecimal digits, in lower case.
proof fn lemma_sixteens(n: nat, k: nat)
    requires
        k > 0,
        n < vstd::arithmetic::power::pow(16, k),
    ensures
        0 < numeral(n, 16).len() <= k,
        forall|i: int|
            0 <= i < numeral(n, 16).len() ==> ('0' <= #[trigger] numeral(n, 16)[i] <= '9' || 'a' <= numeral(n, 16)[i] <= 'f'),
    decreases k,
{
    if n >= 16 {
        vstd::arithmetic::power::lemma_pow1(16);
        assert(k > 1);
        assert(vstd::arithmetic::power::pow(16, k) == 16 * vstd::arithmetic::power::pow(16, (k - 1) as nat)) by {
            reveal(vstd::arithmetic::power::pow);
        }
        lemma_sixteens(n / 16, (k - 1) as nat);
    }
}

/// A 64-bit number fills sixteen hexadecimal digits, in lower case.
pub proof fn lemma_padded_sixteen(n: u64)
    ensures
        padded(n as nat, 16, 16).len() == 16,
        forall|i: int|
            0 <= i < 16 ==> ('0' <= #[trigger] padded(n as nat, 16, 16)[i] <= '9' || 'a' <= padded(n as nat, 16, 16)[i]
                <= 'f'),
{
    assert(vstd::arithmetic::power::pow(16, 16) == 0x1_0000_0000_0000_0000) by {
        reveal(vstd::arithmetic::power::pow);
        reveal_with_fuel(vstd::arithmetic::power::pow, 17);
    }
    lemma_sixteens(n as nat, 16);
}

/// A number under `10^k` has at most `k` decimal digits, each one ASCII byte.
pub proof fn lemma_decimal_len(n: nat, k: nat)
    requires
        k > 0,
        n < vstd::arithmetic::power::pow(10, k),
    ensures
        decimal(n).len() <= k,
        vstd::utf8::is_ascii_chars(decimal(n)),
    decreases k,
{
    if n >= 10 {
        vstd::arithmetic::power::lemma_pow1(10);
        assert(k > 1);
        assert(vstd::arithmetic::power::pow(10, k) == 10 * vstd::arithmetic::power::pow(10, (k - 1) as nat)) by {
            reveal(vstd::arithmetic::power::pow);
        }
        lemma_decimal_len(n / 10, (k - 1) as nat);
    }
}

/// A 64-bit number takes at most 20 bytes.
pub proof fn lemma_decimal_bytes(n: u64)
    ensures
        crate::text::bytes_of(decimal(n as nat)).len() <= 20,
{
    assert(vstd::arithmetic::power::pow(10, 20) == 100_000_000_000_000_000_000) by {
        reveal(vstd::arithmetic::power::pow);
        reveal_with_fuel(vstd::arithmetic::power::pow, 21);
    }
    lemma_decimal_len(n as nat, 20);
    vstd::utf8::is_ascii_chars_encode_utf8(decimal(n as nat));
}

proof fn lemma_numeral_value(n: nat, radix: nat)
    requires
        2 <= radix <= 16,
    ensures
        numeral(n, radix).len() > 0,
        all_digits(numeral(n, radix), radix as int),
        digits_value(numeral(n, radix), radix as int) == n,
        forall|i: int| 0 <= i < numeral(n, radix).len() ==> {
            ||| '0' <= #[trigger] numeral(n, radix)[i] <= '9'
            ||| radix > 10 && 'a' <= numeral(n, radix)[i] <= 'f'
        },
    decreases n,
{
    let s = numeral(n, radix);
    if n < radix {
        assert(s.drop_last() =~= Seq::empty());
        assert(digits_value(s.drop_last(), radix as int) == 0);
    } else {
        assert(n / radix < n) by (nonlinear_arith)
            requires
                radix >= 2,
                n >= radix,
        ;
        lemma_numeral_value(n / radix, radix);
        let t = numeral(n / radix, radix);
        assert(s.drop_last() =~= t);
        assert(0 <= n % radix < radix && (n / radix) * radix + n % radix == n) by (nonlinear_arith)
            requires
                radix >= 2,
        ;
        assert forall|i: int| 0 <= i < s.len() implies digit_value(#[trigger] s[i], radix as int) >= 0 by {
            if i < t.len() {
                assert(s[i] == t[i]);
            }
        }
    }
}

/// A number that was written in some base is read back in it.
pub proof fn numerals_are_read_back(n: nat, radix: nat, max: int)
    requires
        2 <= radix <= 16,
        n <= max,
    ensures
        parsed(numeral(n, radix), radix as int, max) == Some(n as int),
{
    lemma_numeral_value(n, radix);
    assert(numeral(n, radix)[0] != '+');
}

/// A number in decimal is read back, and holds nothing but digits.
pub proof fn decimal_is_read_back(n: u64)
    ensures
        parsed(decimal(n as nat), 10, u64::MAX as int) == Some(n as int),
        decimal(n as nat).len() > 0,
        forall|i: int| 0 <= i < decimal(n as nat).len() ==> '0' <= #[trigger] decimal(n as nat)[i] <= '9',
{
    lemma_numeral_value(n as nat, 10);
    numerals_are_read_back(n as nat, 10, u64::MAX as int);
}

} // verus!
