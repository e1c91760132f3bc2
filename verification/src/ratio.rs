//! Products and quotients of byte counts in IEEE double precision, computed on
//! integers: 53 significant bits, rounded to nearest with ties to even.

use vstd::arithmetic::power2::{lemma2_to64, lemma_pow2_adds, lemma_pow2_strictly_increases, lemma_pow2_unfold, pow2};
use vstd::prelude::*;

verus! {

/// The number `m * 2^e`. A nonzero number has `2^52 <= m < 2^53`.
#[derive(Debug, Clone, Copy, PartialEq, Eq)]
pub struct Double {
    pub m: u64,
    pub e: i32,
}

pub const LOW: u64 = 0x10000000000000;

pub const HIGH: u64 = 0x20000000000000;

/// The significand of the double nearest to 0.6.
pub const THREE_FIFTHS: u64 = 0x13333333333333;

/// The significand of the double nearest to 0.95.
pub const NINETEEN_TWENTIETHS: u64 = 0x1E666666666666;

/// The exponent of both.
pub const FRACTION: i32 = -53;

/// `n / d` rounded to the nearest integer, a tie going to the even one.
pub open spec fn half_even(n: int, d: int) -> int {
    let q = n / d;
    let r = n % d;
    if 2 * r < d || (2 * r == d && q % 2 == 0) {
        q
    } else {
        q + 1
    }
}

/// The double nearest to `n / d * 2^e`, as significand and exponent, for
/// positive `n` and `d`.
pub open spec fn nearest(n: int, d: int, e: int) -> (int, int)
    decreases
            (if n < LOW * d {
                LOW * d - n
            } else if n >= HIGH * d {
                n - HIGH * d + 1
            } else {
                0
            }),
{
    if n <= 0 || d <= 0 {
        (0, 0)
    } else if n < LOW * d {
        nearest(2 * n, d, e - 1)
    } else if n >= HIGH * d {
        nearest(n, 2 * d, e + 1)
    } else {
        let m = half_even(n, d);
        if m == HIGH {
            (LOW as int, e + 1)
        } else {
            (m, e)
        }
    }
}

/// `m / 2^k`, rounded down.
pub open spec fn halved(m: int, k: nat) -> int
    decreases k,
{
    if k == 0 {
        m
    } else {
        halved(m / 2, (k - 1) as nat)
    }
}

/// `m * 2^k`.
pub open spec fn doubled(m: int, k: nat) -> int
    decreases k,
{
    if k == 0 {
        m
    } else {
        doubled(2 * m, (k - 1) as nat)
    }
}

impl Double {
    pub open spec fn is(self, v: (int, int)) -> bool {
        self.m == v.0 && self.e == v.1
    }
}

pub proof fn lemma_half_even_bounds(n: int, d: int)
    requires
        d > 0,
        LOW * d <= n < HIGH * d,
    ensures
        LOW <= half_even(n, d) <= HIGH,
{
    assert(LOW <= n / d < HIGH) by (nonlinear_arith)
        requires
            d > 0,
            LOW * d <= n < HIGH * d,
    ;
}

/// The double nearest to a positive number is not zero.
pub proof fn lemma_nearest_positive(n: int, d: int, e: int)
    requires
        n > 0,
        d > 0,
    ensures
        LOW <= nearest(n, d, e).0 < HIGH,
    decreases
            (if n < LOW * d {
                LOW * d - n
            } else if n >= HIGH * d {
                n - HIGH * d + 1
            } else {
                0
            }),
{
    if n < LOW * d {
        lemma_nearest_positive(2 * n, d, e - 1);
    } else if n >= HIGH * d {
        lemma_nearest_positive(n, 2 * d, e + 1);
    } else {
        lemma_half_even_bounds(n, d);
    }
}

pub proof fn lemma_double_of_positive(n: int)
    requires
        n > 0,
    ensures
        LOW <= double_of(n).0 < HIGH,
{
    lemma_nearest_positive(n, 1, 0);
}

/// The integer part of a number, at most `usize::MAX`.
pub open spec fn whole(v: (int, int)) -> int {
    let n = if v.1 >= 0 {
        doubled(v.0, v.1 as nat)
    } else {
        halved(v.0, (-v.1) as nat)
    };
    if n <= usize::MAX {
        n
    } else {
        usize::MAX as int
    }
}

/// `a * b`.
pub open spec fn product(a: (int, int), b: (int, int)) -> (int, int) {
    nearest(a.0 * b.0, 1, a.1 + b.1)
}

/// `a / b`.
pub open spec fn quotient(a: (int, int), b: (int, int)) -> (int, int) {
    nearest(a.0, b.0, a.1 - b.1)
}

/// The double nearest to an integer.
pub open spec fn double_of(n: int) -> (int, int) {
    nearest(n, 1, 0)
}

pub open spec fn pair_of(x: Double) -> (int, int) {
    (x.m as int, x.e as int)
}

proof fn lemma_steps(n: u128, k: nat)
    requires
        pow2(k) <= n,
    ensures
        k < 128,
{
    if k >= 128 {
        lemma2_to64();
        lemma_pow2_adds(64, 64);
        if k > 128 {
            lemma_pow2_strictly_increases(128, k);
        }
        assert(pow2(128) == 0x10000000000000000 * 0x10000000000000000) by {
            assert(pow2(64) * pow2(64) == pow2(128));
        }
    }
}

/// The double nearest to `n / d * 2^e`.
fn round(n: u128, d: u128, e: i32) -> (r: Double)
    requires
        0 < n < 0x4000_0000_0000_0000_0000_0000_0000,
        0 < d < 0x40000000000000,
        -2000 <= e <= 2000,
    ensures
        r.is(nearest(n as int, d as int, e as int)),
        LOW <= r.m < HIGH,
        e - 130 <= r.e <= e + 130,
{
    let mut n1: u128 = n;
    let mut e1: i32 = e;
    let ghost mut k: nat = 0;
    proof {
        lemma2_to64();
    }
    assert(LOW * d < 0x4000_0000_0000_0000_0000_0000_0000) by (nonlinear_arith)
        requires
            0 < d < 0x40000000000000,
    ;
    let low: u128 = LOW as u128 * d;
    while n1 < low
        invariant
            low == LOW * d,
            0 < n1,
            0 < d < 0x40000000000000,
            n1 < 0x4000_0000_0000_0000_0000_0000_0000,
            -2000 <= e <= 2000,
            pow2(k) <= n1,
            e1 == e - k,
            k < 128,
            k > 0 ==> n1 < HIGH * d,
            nearest(n1 as int, d as int, e1 as int) == nearest(n as int, d as int, e as int),
        decreases
                (if n1 < LOW * d {
                    LOW * d - n1
                } else {
                    0
                }),
    {
        assert(n1 * 2 < 0x20000000000000 * d);
        n1 = n1 * 2;
        e1 = e1 - 1;
        proof {
            lemma_pow2_unfold(k + 1);
            k = k + 1;
            lemma_steps(n1, k);
        }
    }
    let ghost ea = e1;
    let mut d1: u128 = d;
    proof {
        k = 0;
    }
    while n1 / d1 >= HIGH as u128
        invariant
            0 < n1 < 0x4000_0000_0000_0000_0000_0000_0000,
            0 < d1,
            LOW * d1 <= n1,
            -2000 <= e <= 2000,
            e - 128 < ea <= e,
            n1 < HIGH * d1 ==> k == 0 || ea == e,
            k > 0 ==> ea == e,
            ea < e ==> n1 < HIGH * d1,
            pow2(k) <= d1,
            e1 == ea + k,
            k < 128,
            nearest(n1 as int, d1 as int, e1 as int) == nearest(n as int, d as int, e as int),
        decreases n1 - LOW * d1,
    {
        assert(n1 >= HIGH * d1) by (nonlinear_arith)
            requires
                n1 / d1 >= HIGH as u128,
                d1 > 0,
        ;
        assert(d1 * 2 < 0x4000_0000_0000_0000_0000_0000_0000);
        d1 = d1 * 2;
        e1 = e1 + 1;
        proof {
            lemma_pow2_unfold(k + 1);
            k = k + 1;
            lemma_steps(d1, k);
        }
    }
    let q: u128 = n1 / d1;
    let r: u128 = n1 % d1;
    proof {
        assert(n1 < HIGH * d1 && q >= LOW) by (nonlinear_arith)
            requires
                n1 / d1 < HIGH as u128,
                LOW * d1 <= n1,
                d1 > 0,
                q == n1 / d1,
        ;
    }
    let m: u128 = if d1 - r > r || (d1 - r == r && q % 2 == 0) {
        q
    } else {
        q + 1
    };
    assert(m == half_even(n1 as int, d1 as int));
    if m == HIGH as u128 {
        Double { m: LOW, e: e1 + 1 }
    } else {
        Double { m: m as u64, e: e1 }
    }
}

/// `n as double`.
pub fn from_count(n: usize) -> (r: Double)
    ensures
        pair_of(r) == double_of(n as int),
        r.m == 0 || LOW <= r.m < HIGH,
        -130 <= r.e <= 130,
{
    if n == 0 {
        Double { m: 0, e: 0 }
    } else {
        round(n as u128, 1, 0)
    }
}

/// `a * b`.
pub fn multiply(a: Double, b: Double) -> (r: Double)
    requires
        a.m == 0 || LOW <= a.m < HIGH,
        b.m == 0 || LOW <= b.m < HIGH,
        -2000 <= a.e + b.e <= 2000,
        -1000 <= a.e <= 1000,
        -1000 <= b.e <= 1000,
    ensures
        pair_of(r) == product(pair_of(a), pair_of(b)),
        r.m == 0 || LOW <= r.m < HIGH,
        r.m == 0 ==> r.e == 0,
        a.e + b.e - 130 <= r.e <= a.e + b.e + 130 || r.m == 0,
{
    assert(a.m as u128 * b.m as u128 <= 0x20000000000000 * 0x20000000000000) by (nonlinear_arith)
        requires
            a.m <= 0x20000000000000,
            b.m <= 0x20000000000000,
    ;
    let p: u128 = a.m as u128 * b.m as u128;
    if p == 0 {
        Double { m: 0, e: 0 }
    } else {
        round(p, 1, a.e + b.e)
    }
}

/// `a / b`.
pub fn divide(a: Double, b: Double) -> (r: Double)
    requires
        a.m == 0 || LOW <= a.m < HIGH,
        LOW <= b.m < HIGH,
        -2000 <= a.e - b.e <= 2000,
        -1000 <= a.e <= 1000,
        -1000 <= b.e <= 1000,
    ensures
        pair_of(r) == quotient(pair_of(a), pair_of(b)),
        r.m == 0 || LOW <= r.m < HIGH,
        r.m == 0 ==> r.e == 0,
        a.e - b.e - 130 <= r.e <= a.e - b.e + 130 || r.m == 0,
{
    if a.m == 0 {
        Double { m: 0, e: 0 }
    } else {
        round(a.m as u128, b.m as u128, a.e - b.e)
    }
}

proof fn lemma_doubled_grows(m: int, k: nat)
    requires
        m >= 0,
    ensures
        doubled(m, k) >= m,
    decreases k,
{
    if k > 0 {
        lemma_doubled_grows(2 * m, (k - 1) as nat);
    }
}

/// `x as usize`.
pub fn to_count(x: Double) -> (r: usize)
    requires
        -3000 <= x.e <= 3000,
    ensures
        r == whole(pair_of(x)),
{
    if x.e >= 0 {
        let mut m: u128 = x.m as u128;
        let mut k: i32 = x.e;
        while k > 0
            invariant
                0 <= k <= 3000,
                m <= u64::MAX,
                doubled(m as int, k as nat) == doubled(x.m as int, x.e as nat),
                x.e >= 0,
            decreases k,
        {
            m = m * 2;
            k = k - 1;
            if m > u64::MAX as u128 {
                proof {
                    lemma_doubled_grows(m as int, k as nat);
                }
                return usize::MAX;
            }
        }
        if m > usize::MAX as u128 {
            usize::MAX
        } else {
            m as usize
        }
    } else {
        let mut m: u64 = x.m;
        let mut k: i32 = -x.e;
        while k > 0
            invariant
                0 <= k <= 3000,
                halved(m as int, k as nat) == halved(x.m as int, (-x.e) as nat),
                x.e < 0,
            decreases k,
        {
            m = m / 2;
            k = k - 1;
        }
        if m > usize::MAX as u64 {
            usize::MAX
        } else {
            m as usize
        }
    }
}

/// Numbers below `2^53` are doubles themselves.
proof fn lemma_small_is_exact(n: int, e: int)
    requires
        0 < n < HIGH,
    ensures
        nearest(n, 1, e).1 <= e,
        nearest(n, 1, e).0 == n * pow2((e - nearest(n, 1, e).1) as nat),
    decreases HIGH - n,
{
    if n < LOW {
        lemma_small_is_exact(2 * n, e - 1);
        let k = (e - nearest(n, 1, e).1) as nat;
        lemma_pow2_unfold(k);
        assert(2 * n * pow2((k - 1) as nat) == n * (2 * pow2((k - 1) as nat))) by (nonlinear_arith);
    } else {
        assert(n / 1 == n && n % 1 == 0);
        vstd::arithmetic::power2::lemma2_to64();
        assert(n * 1 == n);
    }
}

/// What is rounded to a double is off by half of its last digit at most.
proof fn lemma_rounding(n: int, d: int, e: int)
    requires
        d > 0,
        n >= LOW * d,
    ensures
        nearest(n, d, e).1 >= e,
        ({
            let s = pow2((nearest(n, d, e).1 - e) as nat);
            let m = nearest(n, d, e).0;
            -(d * s) <= 2 * (m * (d * s) - n) <= d * s
        }),
    decreases
            (if n < LOW * d {
                LOW * d - n
            } else if n >= HIGH * d {
                n - HIGH * d + 1
            } else {
                0
            }),
{
    let (m, f) = nearest(n, d, e);
    assert(n > 0) by (nonlinear_arith)
        requires
            d > 0,
            n >= LOW * d,
    ;
    if n >= HIGH * d {
        lemma_rounding(n, 2 * d, e + 1);
        let k = (f - e) as nat;
        lemma_pow2_unfold(k);
        assert((2 * d) * pow2((k - 1) as nat) == d * (2 * pow2((k - 1) as nat))) by (nonlinear_arith);
        assert((f - (e + 1)) as nat == (k - 1) as nat);
    } else {
        let q = n / d;
        let r = n % d;
        let h = half_even(n, d);
        assert(n == d * q + r && 0 <= r < d) by (nonlinear_arith)
            requires
                d > 0,
                q == n / d,
                r == n % d,
        ;
        assert(q * d == d * q && (q + 1) * d == d * q + d) by (nonlinear_arith);
        assert(-d <= 2 * (h * d - n) <= d);
        lemma2_to64();
        if h == HIGH {
            assert(LOW * (d * 2) == HIGH * d) by (nonlinear_arith);
            assert(pow2(1) == 2);
            assert(d * pow2(1) == d * 2);
            assert(m * (d * pow2(1)) == h * d);
        } else {
            assert(m * (d * pow2(0)) == h * d) by (nonlinear_arith)
                requires
                    m == h,
                    pow2(0) == 1,
            ;
            assert(d * pow2(0) == d) by (nonlinear_arith)
                requires
                    pow2(0) == 1,
            ;
        }
    }
}

proof fn lemma_halved_is_quotient(m: int, k: nat)
    requires
        m >= 0,
    ensures
        halved(m, k) * pow2(k) <= m < (halved(m, k) + 1) * pow2(k),
        halved(m, k) >= 0,
    decreases k,
{
    lemma2_to64();
    if k > 0 {
        lemma_halved_is_quotient(m / 2, (k - 1) as nat);
        lemma_pow2_unfold(k);
        let h = halved(m, k);
        let p = pow2((k - 1) as nat) as int;
        assert(h * (2 * p) == 2 * (h * p)) by (nonlinear_arith);
        assert((h + 1) * (2 * p) == 2 * ((h + 1) * p)) by (nonlinear_arith);
    }
}

/// Six tenths of a count in double precision, rounded down, are six tenths of it up to
/// one.
pub proof fn six_tenths(n: int)
    requires
        0 < n < 0x1000000000000,
        n <= usize::MAX,
    ensures
        ({
            let h = whole(product(double_of(n), (THREE_FIFTHS as int, FRACTION as int)));
            &&& 0 <= h
            &&& 5 * h <= 3 * n <= 5 * h + 5
        }),
{
    lemma_small_is_exact(n, 0);
    lemma_nearest_positive(n, 1, 0);
    let (a, e1) = double_of(n);
    let t = THREE_FIFTHS as int;
    let b = a * t;
    assert(b >= LOW) by (nonlinear_arith)
        requires
            a >= LOW,
            t >= LOW,
            b == a * t,
    ;
    assert(LOW * 1 == LOW);
    let e0 = e1 + FRACTION;
    lemma_rounding(b, 1, e0);
    lemma_nearest_positive(b, 1, e0);
    let (m, e2) = nearest(b, 1, e0);
    let p = pow2((-e1) as nat) as int;
    let s = pow2((e2 - e0) as nat) as int;
    lemma2_to64();
    vstd::arithmetic::power2::lemma_pow2_pos((-e1) as nat);
    vstd::arithmetic::power2::lemma_pow2_pos((e2 - e0) as nat);
    assert(1 * s == s);
    // The product is that of the two numbers up to half a digit.
    assert(-s <= 2 * (m * s - b) <= s);
    assert(b == n * p * t);
    // `2^53` and what the first number was doubled by.
    let w = 0x20000000000000int;
    lemma_pow2_adds(53, (-e1) as nat);
    assert(pow2(53) == w) by {
        lemma_pow2_adds(32, 21);
    }
    let wp = pow2((53 - e1) as nat) as int;
    assert(wp == w * p);
    if e2 > -4 {
        // It would be too large.
        assert(s * 16 > wp) by {
            if e2 - e0 > 50 - e1 {
                lemma_pow2_strictly_increases((50 - e1) as nat, (e2 - e0) as nat);
            }
            lemma_pow2_adds(3, (50 - e1) as nat);
            assert(pow2(3) == 8);
            assert(pow2((50 - e1) as nat) > 0);
        }
        assert(m * s >= LOW * s) by (nonlinear_arith)
            requires
                m >= LOW,
                s > 0,
        ;
        assert(n * p * t <= 0x1000000000000 * t * p) by (nonlinear_arith)
            requires
                n <= 0x1000000000000,
                p > 0,
                t > 0,
        ;
        assert(false) by (nonlinear_arith)
            requires
                b == n * p * t,
                n * p * t <= 0x1000000000000 * t * p,
                t == 0x13333333333333,
                s * 16 > w * p,
                w == 0x20000000000000,
                p > 0,
                m * s >= 0x10000000000000 * s,
                2 * (m * s - b) <= s,
        ;
    }
    let k = (-e2) as nat;
    let q = pow2(k) as int;
    lemma_halved_is_quotient(m, k);
    let h = halved(m, k);
    lemma_pow2_adds(k, (e2 - e0) as nat);
    assert(q * s == wp);
    assert(q >= 16) by {
        if k > 4 {
            lemma_pow2_strictly_increases(4, k);
        }
        assert(pow2(4) == 16);
    }
    assert(16 * s <= w * p) by (nonlinear_arith)
        requires
            q >= 16,
            s > 0,
            q * s == w * p,
    ;
    assert(h * (w * p) <= m * s < (h + 1) * (w * p)) by (nonlinear_arith)
        requires
            h * q <= m < (h + 1) * q,
            s > 0,
            q * s == w * p,
    ;
    assert(32 * (h * w) <= 32 * (n * t) + w) by (nonlinear_arith)
        requires
            h * (w * p) <= m * s,
            2 * (m * s - n * p * t) <= s,
            16 * s <= w * p,
            p > 0,
    ;
    assert(32 * ((h + 1) * w) > 32 * (n * t) - w) by (nonlinear_arith)
        requires
            (h + 1) * (w * p) > m * s,
            2 * (m * s - n * p * t) >= -s,
            16 * s <= w * p,
            p > 0,
    ;
    assert(5 * (n * t) == 3 * w * n - n) by (nonlinear_arith)
        requires
            t == 0x13333333333333,
            w == 0x20000000000000,
    ;
    assert(h <= usize::MAX) by {
        assert(5 * h <= 3 * n);
        assert(h < n);
    }
}

} // verus!
