//! Spans of time, points in time, and seconds written as text.

use crate::digits::{decimal, decimal_text, padded, padded_text};
use crate::json::{Json, Num, Number, Tree};
use crate::text::cat3;
use vstd::prelude::*;

verus! {

/// A span of time in nanoseconds.
#[derive(Debug, Clone, Copy, PartialEq, Eq, Structural)]
pub struct Duration {
    pub nanos: u128,
}

pub const NANOS_PER_SECOND: u128 = 1_000_000_000;

pub const NANOS_PER_MILLI: u128 = 1_000_000;

impl Duration {
    pub fn from_secs(secs: u64) -> (r: Self)
        ensures
            r.nanos == secs * NANOS_PER_SECOND,
    {
        Duration { nanos: secs as u128 * NANOS_PER_SECOND }
    }

    pub fn from_millis(millis: u64) -> (r: Self)
        ensures
            r.nanos == millis * NANOS_PER_MILLI,
    {
        Duration { nanos: millis as u128 * NANOS_PER_MILLI }
    }

    pub fn from_nanos(nanos: u64) -> (r: Self)
        ensures
            r.nanos == nanos,
    {
        Duration { nanos: nanos as u128 }
    }

    pub fn zero() -> (r: Self)
        ensures
            r.nanos == 0,
    {
        Duration { nanos: 0 }
    }

    pub fn is_zero(&self) -> (r: bool)
        ensures
            r == (self.nanos == 0),
    {
        self.nanos == 0
    }
}

/// A point in time: seconds since 1970 in UTC, and nanoseconds within the second.
#[derive(Debug, Clone, Copy, PartialEq, Eq, Structural)]
pub struct Timestamp {
    pub secs: i64,
    pub nanos: u32,
}

impl Timestamp {
    /// Within the range of the host's calendar, the years -262143 to 262142.
    pub open spec fn dated(self) -> bool {
        -8_334_601_228_800 <= self.secs <= 8_210_266_876_799 && self.nanos < 2_000_000_000
    }

    /// Within the years 1 to 9999, which RFC 3339 writes with four digits, and
    /// not within a leap second.
    pub open spec fn common(self) -> bool {
        -62_135_596_800 <= self.secs <= 253_402_300_799 && self.nanos < 1_000_000_000
    }
}

/// What `to_rfc3339_opts` prints.
pub uninterp spec fn rfc3339_text(secs: i64, nanos: u32, whole_seconds: bool, zulu: bool) -> Seq<char>;

/// What parsing an RFC 3339 text as a `DateTime` gives in UTC.
pub uninterp spec fn parsed_time(text: Seq<char>) -> Option<Timestamp>;

/// `chrono::DateTime::to_rfc3339_opts` in UTC, with whole seconds or as many
/// digits as the time needs, and with `Z` or `+00:00`. A time that chrono cannot
/// represent is printed as the epoch. The layout is named `rfc3339_text`; a common
/// time printed with all its digits reads back as itself.
#[verifier::external_body]
pub(crate) fn rfc3339(t: Timestamp, whole_seconds: bool, zulu: bool) -> (r: String)
    ensures
        r@ == rfc3339_text(t.secs, t.nanos, whole_seconds, zulu),
        t.common() && !whole_seconds ==> parsed_time(r@) == Some(t),
{
    let format = match whole_seconds {
        true => chrono::SecondsFormat::Secs,
        false => chrono::SecondsFormat::AutoSi,
    };
    chrono::DateTime::from_timestamp(t.secs, t.nanos).unwrap_or_default().to_rfc3339_opts(format, zulu)
}

/// `chrono::DateTime::<FixedOffset>::from_str`, moved to UTC; nothing where chrono
/// refuses the text. Its grammar is named `parsed_time`.
#[verifier::external_body]
pub(crate) fn parse_time(text: &str) -> (r: Option<Timestamp>)
    ensures
        r == parsed_time(text@),
{
    text.parse::<chrono::DateTime<chrono::FixedOffset>>().ok().map(
        |t| Timestamp { secs: t.timestamp(), nanos: t.timestamp_subsec_nanos() },
    )
}

/// What `DateTime::format` prints.
pub uninterp spec fn formatted_time(secs: i64, nanos: u32, pattern: Seq<char>) -> Seq<char>;

/// `chrono::DateTime::format` in UTC for the two layouts that are used here; chrono
/// panics on a pattern that it does not know. A time that chrono cannot represent
/// is printed as the epoch.
#[verifier::external_body]
pub(crate) fn format_time(t: Timestamp, pattern: &str) -> (r: String)
    requires
        pattern@ == "%Y-%m-%dT%H:%M:%S+0000"@ || pattern@ == "%Y%m%d-%H%M%S%.6f"@,
    ensures
        r@ == formatted_time(t.secs, t.nanos, pattern@),
{
    chrono::DateTime::from_timestamp(t.secs, t.nanos).unwrap_or_default().format(pattern).to_string()
}

/// Decimal digits without the zeros at their end, but for the first.
pub open spec fn without_zeros(s: Seq<char>) -> Seq<char>
    decreases s.len(),
{
    if s.len() > 1 && s.last() == '0' {
        without_zeros(s.drop_last())
    } else {
        s
    }
}

/// `units` in seconds, where a second has `10^places` of them: digits, a point,
/// and as many digits as are needed, at least one.
pub open spec fn seconds_form(units: nat, scale: nat, places: nat) -> Seq<char> {
    decimal(units / scale) + "."@ + without_zeros(padded(units % scale, 10, places))
}

/// Microseconds in seconds, as they are written.
pub open spec fn micros_form(micros: nat) -> Seq<char> {
    seconds_form(micros, 1_000_000, 6)
}

/// Microseconds of which a double, which has 53 binary digits, tells each from the
/// next (below `2^33` seconds), and that are printed without an exponent.
pub open spec fn exact_micros(micros: nat) -> bool {
    10 <= micros < 8_589_934_592_000_000
}

/// A text of seconds that is printed as it is read.
pub open spec fn tidy_seconds(text: Seq<char>) -> bool {
    exists|micros: nat| exact_micros(micros) && text == #[trigger] micros_form(micros)
}

/// What a text is as a number: nothing where it is none; where it is a finite one,
/// its printed form, as `serde_json` prints it.
pub uninterp spec fn number_form(text: Seq<char>) -> Option<Option<Seq<char>>>;

/// `str::parse` of std to a double, and `serde_json::Number::from_f64` with
/// `to_string`: nothing where the text is no number, and no form where the number is
/// not a number or infinite. The number is the nearest double, and it is printed with
/// the fewest digits that tell it from other doubles, without an exponent from
/// `0.00001` on; so a tidy text is printed as it is.
#[verifier::external_body]
pub(crate) fn form_of_number(text: &str) -> (r: Option<Option<String>>)
    ensures
        match r {
            Some(form) => number_form(text@) == Some(crate::text::opt_view(form)),
            None => number_form(text@) is None,
        },
        match r {
            Some(Some(form)) => tidy_seconds(text@) ==> form@ == text@,
            _ => !tidy_seconds(text@),
        },
{
    text.parse().ok().map(|n| serde_json::Number::from_f64(n).map(|n| n.to_string()))
}

/// The printed form of the finite number that a text is.
pub open spec fn finite_text(text: Seq<char>) -> Option<Seq<char>> {
    if tidy_seconds(text) {
        Some(text)
    } else {
        match number_form(text) {
            Some(form) => form,
            None => None,
        }
    }
}

/// The printed form of the finite number that a text is.
pub fn finite(text: &str) -> (r: Option<String>)
    ensures
        crate::text::opt_view(r) == finite_text(text@),
{
    match form_of_number(text) {
        Some(form) => form,
        None => None,
    }
}

/// The nanoseconds in a text of seconds, rounded as `Duration` rounds.
pub uninterp spec fn text_nanos(text: Seq<char>) -> Option<int>;

/// `str::parse` of std to a double, and `std::time::Duration::try_from_secs_f64`
/// with `as_nanos`: nothing where the text is no number, or the number is
/// negative, not finite or beyond a `Duration`. Microseconds that a double tells
/// apart are met to within a microsecond: the nearest double is less than half of
/// one off, and `Duration` rounds to the nanosecond.
#[verifier::external_body]
pub(crate) fn seconds_to_nanos(text: &str) -> (r: Option<u128>)
    ensures
        match r {
            Some(n) => text_nanos(text@) == Some(n as int),
            None => text_nanos(text@) is None,
        },
        match r {
            Some(n) => forall|micros: nat| exact_micros(micros) && text@ == #[trigger] micros_form(micros)
                ==> micros * 1000 - 1000 < n < micros * 1000 + 1000,
            None => !tidy_seconds(text@),
        },
{
    match text.parse().map(std::time::Duration::try_from_secs_f64) {
        Ok(Ok(span)) => Some(span.as_nanos()),
        _ => None,
    }
}

/// The nanoseconds in a text of seconds, taken between `low` and `high`; nothing
/// where the text is no finite number.
pub open spec fn clamped_nanos(text: Seq<char>, low: int, high: int) -> Option<int> {
    match finite_text(text) {
        None => None,
        Some(printed) => match text_nanos(text) {
            Some(n) => Some(
                if n < low {
                    low
                } else if n > high {
                    high
                } else {
                    n
                },
            ),
            None => Some(
                if printed.len() > 0 && printed[0] == '-' {
                    low
                } else {
                    high
                },
            ),
        },
    }
}

/// `text` as seconds between `low` and `high` nanoseconds.
pub fn clamp_seconds(text: &str, low: u128, high: u128) -> (r: Option<Duration>)
    requires
        low <= high,
    ensures
        match r {
            Some(d) => clamped_nanos(text@, low as int, high as int) == Some(d.nanos as int),
            None => clamped_nanos(text@, low as int, high as int) is None,
        },
        r matches Some(d) ==> low <= d.nanos <= high,
{
    let printed = match finite(text) {
        Some(printed) => printed,
        None => return None,
    };
    match seconds_to_nanos(text) {
        Some(n) => Some(
            Duration {
                nanos: if n < low {
                    low
                } else if n > high {
                    high
                } else {
                    n
                },
            },
        ),
        None => {
            let chars = crate::text::chars_of(&printed);
            if chars.len() > 0 && chars[0] == '-' {
                Some(Duration { nanos: low })
            } else {
                Some(Duration { nanos: high })
            }
        },
    }
}

/// `n` between `low` and `high`.
pub open spec fn clamped(n: int, low: int, high: int) -> int {
    if n < low {
        low
    } else if n > high {
        high
    } else {
        n
    }
}

/// A JSON number of seconds in nanoseconds, between `low` and `high`; `default`
/// where there is no number.
pub open spec fn number_nanos(v: Option<Tree>, default: int, low: int, high: int) -> int {
    match v {
        Some(Tree::Number(Num::Pos(n))) => clamped(n * 1_000_000_000, low, high),
        Some(Tree::Number(Num::Neg(n))) => clamped(n * 1_000_000_000, low, high),
        Some(Tree::Number(Num::Float(text))) => match clamped_nanos(text, low, high) {
            Some(n) => n,
            None => clamped(default, low, high),
        },
        _ => clamped(default, low, high),
    }
}

fn clamp(n: u128, low: u128, high: u128) -> (r: u128)
    ensures
        r == clamped(n as int, low as int, high as int),
{
    if n < low {
        low
    } else if n > high {
        high
    } else {
        n
    }
}

/// A JSON number of seconds as a span, between `low` and `high` nanoseconds.
pub fn seconds_of(v: Option<&Json>, default: u128, low: u128, high: u128) -> (r: Duration)
    requires
        low <= high,
    ensures
        r.nanos == number_nanos(
            match v {
                Some(j) => Some(j@),
                None => None,
            },
            default as int,
            low as int,
            high as int,
        ),
        low <= r.nanos <= high,
{
    let nanos = match v {
        Some(Json::Number(Number::Pos(n))) => clamp(*n as u128 * 1_000_000_000, low, high),
        Some(Json::Number(Number::Neg(n))) => if *n >= 0 {
            clamp(*n as u128 * 1_000_000_000, low, high)
        } else {
            low
        },
        Some(Json::Number(Number::Float(text))) => match clamp_seconds(text, low, high) {
            Some(d) => d.nanos,
            None => clamp(default, low, high),
        },
        _ => clamp(default, low, high),
    };
    Duration { nanos }
}

/// A span in seconds, as a double is written.
pub uninterp spec fn seconds_number(nanos: u64) -> Seq<char>;

/// `std::time::Duration::as_secs_f64` of std, written by `to_string`.
#[verifier::external_body]
pub(crate) fn seconds_number_text(nanos: u64) -> (r: String)
    ensures
        r@ == seconds_number(nanos),
{
    std::time::Duration::from_nanos(nanos).as_secs_f64().to_string()
}

fn drop_zeros(s: &str) -> (r: String)
    ensures
        r@ == without_zeros(s@),
{
    let chars = crate::text::chars_of(s);
    let mut n: usize = chars.len();
    assert(chars@.take(n as int) =~= chars@);
    while n > 1 && chars[n - 1] == '0'
        invariant
            n <= chars@.len(),
            without_zeros(chars@.take(n as int)) == without_zeros(s@),
        decreases n,
    {
        assert(chars@.take(n as int).drop_last() =~= chars@.take(n - 1));
        n = n - 1;
    }
    let r = crate::text::slice_text(&chars, 0, n);
    assert(r@ =~= chars@.take(n as int));
    r
}

/// `units` in seconds, where a second has `scale` of them, written with up to
/// `places` digits behind the point.
pub fn seconds_text(units: u64, scale: u64, places: usize) -> (r: String)
    requires
        scale > 0,
        0 < places <= 20,
    ensures
        r@ == seconds_form(units as nat, scale as nat, places as nat),
{
    let fraction = drop_zeros(&padded_text(units % scale, 10, places));
    cat3(&decimal_text(units / scale), ".", &fraction)
}

/// A number of seconds is taken within its bounds.
pub proof fn lemma_number_nanos_bounds(v: Option<Tree>, default: int, low: int, high: int)
    requires
        low <= high,
    ensures
        low <= number_nanos(v, default, low, high) <= high,
{
}

/// A number of seconds counts as such within its bounds; below and above them the nearer
/// bound does, and without a number the default.
pub proof fn seconds_are_counted(n: u64, default: int, low: int, high: int)
    requires
        low <= default <= high,
    ensures
        low <= n * 1_000_000_000 <= high ==> number_nanos(Some(Tree::Number(Num::Pos(n))), default, low, high) == n
            * 1_000_000_000,
        n * 1_000_000_000 < low ==> number_nanos(Some(Tree::Number(Num::Pos(n))), default, low, high) == low,
        n * 1_000_000_000 > high && low <= high ==> number_nanos(Some(Tree::Number(Num::Pos(n))), default, low, high) == high,
        number_nanos(None, default, low, high) == default,
        number_nanos(Some(Tree::Null), default, low, high) == default,
{
}

/// Seconds are written with a point: the whole ones before it, and behind it the rest, where
/// zeros at the end are left out.
pub proof fn seconds_are_written_with_a_point(units: nat, scale: nat, places: nat) -> (zeros: nat)
    requires
        places > 0,
    ensures
        seconds_form(units, scale, places) + Seq::new(zeros, |i: int| '0') == decimal(units / scale) + "."@ + padded(
            units % scale,
            10,
            places,
        ),
{
    let d = padded(units % scale, 10, places);
    let zeros = lemma_zeros_dropped(d);
    let z = Seq::new(zeros, |i: int| '0');
    assert(decimal(units / scale) + "."@ + without_zeros(d) + z =~= decimal(units / scale) + "."@ + (without_zeros(d) + z));
    zeros
}

proof fn lemma_zeros_dropped(s: Seq<char>) -> (zeros: nat)
    ensures
        without_zeros(s) + Seq::new(zeros, |i: int| '0') == s,
    decreases s.len(),
{
    if s.len() > 1 && s.last() == '0' {
        let n = lemma_zeros_dropped(s.drop_last());
        assert(without_zeros(s) + Seq::new(n + 1, |i: int| '0') =~= (without_zeros(s) + Seq::new(n, |i: int| '0')).push('0'));
        assert(s.drop_last().push('0') =~= s);
        n + 1
    } else {
        assert(s + Seq::new(0nat, |i: int| '0') =~= s);
        0
    }
}

} // verus!
