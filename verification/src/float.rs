//! Binary floating-point numbers, computed with integers.
//!
//! A number is a significand times a power of two. Products, quotients and conversions are
//! exact results rounded to the nearest number of the format, ties to the even significand,
//! as IEEE 754 defines them for numbers in the normal range.

use vstd::arithmetic::power2::*;
use vstd::prelude::*;

use crate::exact;

verus! {

/// A binary format, named after its IEEE 754 counterpart.
#[derive(Clone, Copy, Debug, PartialEq, Eq, Structural)]
pub enum Precision {
    Single,
    Double,
}

impl Precision {
    /// The smallest significand of a normalized number.
    pub open spec fn half(self) -> nat {
        match self {
            Precision::Single => 0x80_0000,
            Precision::Double => 0x10_0000_0000_0000,
        }
    }

    /// `half() * den`, as a multiplication by a constant.
    pub open spec fn scaled(self, den: nat) -> nat {
        match self {
            Precision::Single => 0x80_0000 * den,
            Precision::Double => 0x10_0000_0000_0000 * den,
        }
    }

    fn scale(self, den: u128) -> (r: u128)
        requires
            self.scaled(den as nat) < 0x1_0000_0000_0000_0000_0000_0000_0000,
        ensures
            r == self.scaled(den as nat),
    {
        match self {
            Precision::Single => 0x80_0000 * den,
            Precision::Double => 0x10_0000_0000_0000 * den,
        }
    }
}

/// The non-negative number `significand * 2^exponent`.
#[derive(Clone, Copy, Debug, PartialEq, Eq, Structural)]
pub struct Float {
    pub precision: Precision,
    pub significand: u64,
    pub exponent: i64,
}

impl Float {
    /// Zero has exponent zero; every other number is normalized.
    pub open spec fn wf(self) -> bool {
        if self.significand == 0 {
            self.exponent == 0
        } else {
            self.precision.half() <= self.significand < 2 * self.precision.half()
        }
    }

    /// The exponent is at most `limit` away from zero.
    pub open spec fn within(self, limit: int) -> bool {
        -limit <= self.exponent <= limit
    }
}

/// `num / den` rounded to an integer, ties to even.
pub open spec fn round_half_even(num: nat, den: nat) -> nat {
    let quotient = num / den;
    let rest = num % den;
    if 2 * rest < den {
        quotient
    } else if 2 * rest > den {
        quotient + 1
    } else if quotient % 2 == 0 {
        quotient
    } else {
        quotient + 1
    }
}

/// The number of the format with the given significand, which rounding may have carried into
/// the next power of two.
pub open spec fn carried(precision: Precision, significand: nat, exponent: int) -> Float {
    if significand == 2 * precision.half() {
        Float {
            precision,
            significand: precision.half() as u64,
            exponent: (exponent + 1) as i64,
        }
    } else {
        Float { precision, significand: significand as u64, exponent: exponent as i64 }
    }
}

pub open spec fn zero(precision: Precision) -> Float {
    Float { precision, significand: 0, exponent: 0 }
}

/// The number of the format that is nearest to `(num / den) * 2^exponent`, ties to even.
pub open spec fn nearest(precision: Precision, num: nat, den: nat, exponent: int) -> Float
    decreases
            (if num < precision.scaled(den) {
                (precision.scaled(den) - num) as nat
            } else if num >= 2 * precision.scaled(den) {
                num / den
            } else {
                0nat
            }),
    when den > 0
{
    if num == 0 {
        zero(precision)
    } else if num < precision.scaled(den) {
        nearest(precision, 2 * num, den, exponent - 1)
    } else if num >= 2 * precision.scaled(den) {
        proof {
            assert(num / (2 * den) < num / den) by (nonlinear_arith)
                requires
                    num >= 2 * den,
                    den > 0,
            ;
        }
        nearest(precision, num, 2 * den, exponent + 1)
    } else {
        carried(precision, round_half_even(num, den), exponent)
    }
}

/// The number nearest to `num / den`.
pub open spec fn ratio(num: nat, den: nat) -> Float {
    nearest(Precision::Double, num, den, 0)
}

/// The number nearest to the integer `n`.
pub open spec fn of_nat(precision: Precision, n: nat) -> Float {
    nearest(precision, n, 1, 0)
}

/// The rounded product.
pub open spec fn product(a: Float, b: Float) -> Float {
    nearest(a.precision, (a.significand * b.significand) as nat, 1, a.exponent + b.exponent)
}

/// The rounded quotient.
pub open spec fn quotient(a: Float, b: Float) -> Float {
    nearest(a.precision, a.significand as nat, b.significand as nat, a.exponent - b.exponent)
}

/// Whether `a` is smaller than `b`.
pub open spec fn less(a: Float, b: Float) -> bool {
    let least = if a.exponent <= b.exponent {
        a.exponent
    } else {
        b.exponent
    };
    a.significand * pow2((a.exponent - least) as nat) < b.significand * pow2(
        (b.exponent - least) as nat,
    )
}

/// The largest integer that is not greater than the number.
pub open spec fn floor(a: Float) -> nat {
    if a.exponent >= 0 {
        a.significand as nat * pow2(a.exponent as nat)
    } else {
        a.significand as nat / pow2((-a.exponent) as nat)
    }
}

/// The nearest integer, ties upwards.
pub open spec fn rounded(a: Float) -> nat {
    if a.exponent >= 0 {
        a.significand as nat * pow2(a.exponent as nat)
    } else {
        (2 * a.significand as nat + pow2((-a.exponent) as nat)) / (2 * pow2((-a.exponent) as nat))
    }
}

proof fn lemma_round_bounds(precision: Precision, num: nat, den: nat)
    requires
        den > 0,
        precision.scaled(den) <= num < 2 * precision.scaled(den),
    ensures
        precision.half() <= round_half_even(num, den) <= 2 * precision.half(),
{
    let half = precision.half();
    assert(half <= num / den < 2 * half) by (nonlinear_arith)
        requires
            den > 0,
            half * den <= num < 2 * (half * den),
    ;
}

/// Computes [`nearest`].
pub fn round_ratio(precision: Precision, num: u128, den: u128, exponent: i64) -> (r: Float)
    requires
        0 < den < 0x40_0000_0000_0000,
        num < 0x1000_0000_0000_0000_0000_0000_0000,
        -0x4000_0000_0000_0000 <= exponent <= 0x4000_0000_0000_0000,
    ensures
        r == nearest(precision, num as nat, den as nat, exponent as int),
        r.wf(),
        r.precision == precision,
        num == 0 <==> r.significand == 0,
        num > 0 ==> exponent - 128 <= r.exponent <= exponent + 128,
{
    if num == 0 {
        return Float { precision, significand: 0, exponent: 0 };
    }
    let mut n: u128 = num;
    let mut e: i64 = exponent;
    let ghost mut doublings: nat = 0;
    proof {
        lemma2_to64();
    }
    while n < precision.scale(den)
        invariant
            0 < den < 0x40_0000_0000_0000,
            0 < n,
            n < 0x1000_0000_0000_0000_0000_0000_0000,
            n >= pow2(doublings),
            e == exponent - doublings,
            doublings <= 127,
            -0x4000_0000_0000_0000 <= exponent <= 0x4000_0000_0000_0000,
            nearest(precision, num as nat, den as nat, exponent as int) == nearest(
                precision,
                n as nat,
                den as nat,
                e as int,
            ),
        decreases 2 * precision.scaled(den as nat) - n,
    {
        proof {
            lemma_pow2_unfold(doublings + 1);
            lemma_doublings(doublings, n as nat);
        }
        n = 2 * n;
        e = e - 1;
        proof {
            doublings = doublings + 1;
        }
    }
    let mut d: u128 = den;
    let ghost mut halvings: nat = 0;
    let ghost lowered = e;
    while n >= 2 * precision.scale(d)
        invariant
            0 < d,
            n < 0x1000_0000_0000_0000_0000_0000_0000,
            precision.scaled(d as nat) <= n,
            d >= pow2(halvings),
            halvings <= 127,
            e == lowered + halvings,
            exponent - 127 <= lowered <= exponent,
            -0x4000_0000_0000_0000 <= exponent <= 0x4000_0000_0000_0000,
            nearest(precision, num as nat, den as nat, exponent as int) == nearest(
                precision,
                n as nat,
                d as nat,
                e as int,
            ),
        decreases n - precision.scaled(d as nat),
    {
        proof {
            lemma_pow2_unfold(halvings + 1);
            lemma_doublings(halvings, d as nat);
        }
        d = 2 * d;
        e = e + 1;
        proof {
            halvings = halvings + 1;
        }
    }
    let half: u128 = precision.scale(1);
    let whole: u128 = n / d;
    let rest: u128 = n % d;
    proof {
        lemma_round_bounds(precision, n as nat, d as nat);
    }
    let up = if 2 * rest < d {
        false
    } else if 2 * rest > d {
        true
    } else {
        whole % 2 == 1
    };
    let significand: u128 = if up {
        whole + 1
    } else {
        whole
    };
    assert(significand == round_half_even(n as nat, d as nat));
    if significand == 2 * half {
        Float { precision, significand: half as u64, exponent: e + 1 }
    } else {
        Float { precision, significand: significand as u64, exponent: e }
    }
}

proof fn lemma_doublings(k: nat, n: nat)
    requires
        pow2(k) <= n,
        n < 0x1000_0000_0000_0000_0000_0000_0000,
    ensures
        k < 127,
{
    if k >= 127 {
        lemma_pow2_strictly_increases_or_equal(112, k);
        lemma2_to64();
        lemma_pow2_adds(64, 48);
        assert(pow2(64) == 0x1_0000_0000_0000_0000) by {
            lemma2_to64();
        }
        assert(pow2(48) == 0x1_0000_0000_0000) by {
            lemma2_to64_rest();
        }
        assert(0x1_0000_0000_0000_0000 * 0x1_0000_0000_0000 == 0x1_0000_0000_0000_0000_0000_0000_0000)
            by (nonlinear_arith);
    }
}

proof fn lemma_pow2_strictly_increases_or_equal(a: nat, b: nat)
    requires
        a <= b,
    ensures
        pow2(a) <= pow2(b),
{
    if a < b {
        lemma_pow2_strictly_increases(a, b);
    }
}

/// The number nearest to `num / den`.
pub fn fraction(num: u64, den: u64) -> (r: Float)
    requires
        0 < den < 0x40_0000_0000_0000,
    ensures
        r == ratio(num as nat, den as nat),
        r.wf(),
        r.precision == Precision::Double,
        r.within(128),
        num > 0 <==> r.significand > 0,
{
    round_ratio(Precision::Double, num as u128, den as u128, 0)
}

/// The number nearest to an integer.
pub fn integer(precision: Precision, n: u64) -> (r: Float)
    ensures
        r == of_nat(precision, n as nat),
        r.wf(),
        r.precision == precision,
        r.within(128),
        n > 0 <==> r.significand > 0,
{
    round_ratio(precision, n as u128, 1, 0)
}

/// The rounded product of two numbers.
pub fn multiply(a: Float, b: Float) -> (r: Float)
    requires
        a.wf(),
        b.wf(),
        a.precision == b.precision,
        a.within(0x1000_0000_0000_0000),
        b.within(0x1000_0000_0000_0000),
    ensures
        r == product(a, b),
        r.wf(),
        r.precision == a.precision,
        r.significand == 0 <==> a.significand == 0 || b.significand == 0,
        r.significand > 0 ==> a.exponent + b.exponent - 128 <= r.exponent <= a.exponent + b.exponent
            + 128,
{
    proof {
        let x = a.significand as int;
        let y = b.significand as int;
        assert(0 <= x * y < 0x20_0000_0000_0000 * 0x20_0000_0000_0000) by (nonlinear_arith)
            requires
                0 <= x < 0x20_0000_0000_0000,
                0 <= y < 0x20_0000_0000_0000,
        ;
        assert(x * y == 0 <==> x == 0 || y == 0) by (nonlinear_arith);
    }
    round_ratio(
        a.precision,
        a.significand as u128 * b.significand as u128,
        1,
        a.exponent + b.exponent,
    )
}

/// The rounded quotient of two numbers.
pub fn divide(a: Float, b: Float) -> (r: Float)
    requires
        a.wf(),
        b.wf(),
        b.significand > 0,
        a.precision == b.precision,
        a.within(0x1000_0000_0000_0000),
        b.within(0x1000_0000_0000_0000),
    ensures
        r == quotient(a, b),
        r.wf(),
        r.precision == a.precision,
        r.significand == 0 <==> a.significand == 0,
        r.significand > 0 ==> a.exponent - b.exponent - 128 <= r.exponent <= a.exponent - b.exponent
            + 128,
{
    round_ratio(
        a.precision,
        a.significand as u128,
        b.significand as u128,
        a.exponent - b.exponent,
    )
}

proof fn lemma_less_by_exponent(a: Float, b: Float)
    requires
        a.wf(),
        b.wf(),
        a.precision == b.precision,
        a.significand > 0,
        b.significand > 0,
        a.exponent < b.exponent,
    ensures
        less(a, b),
        !less(b, a),
{
    let gap = (b.exponent - a.exponent) as nat;
    lemma2_to64();
    lemma_pow2_unfold(gap);
    lemma_pow2_pos((gap - 1) as nat);
    assert(b.significand * pow2(gap) >= 2 * b.significand) by (nonlinear_arith)
        requires
            pow2(gap) >= 2,
    ;
    assert(a.significand * pow2(0) == a.significand);
}

/// Compares two numbers.
pub fn is_less(a: Float, b: Float) -> (r: bool)
    requires
        a.wf(),
        b.wf(),
        a.precision == b.precision,
    ensures
        r == less(a, b),
{
    let ghost least = if a.exponent <= b.exponent {
        a.exponent
    } else {
        b.exponent
    };
    let ghost p = pow2((a.exponent - least) as nat);
    let ghost q = pow2((b.exponent - least) as nat);
    proof {
        lemma2_to64();
        lemma_pow2_pos((a.exponent - least) as nat);
        lemma_pow2_pos((b.exponent - least) as nat);
        let x = a.significand as int;
        let y = b.significand as int;
        assert(less(a, b) == (x * p < y * q));
        assert(x == 0 ==> x * p == 0) by (nonlinear_arith);
        assert(y == 0 ==> y * q == 0) by (nonlinear_arith);
        assert(x >= 0 && p > 0 ==> x * p >= 0) by (nonlinear_arith);
        assert(y > 0 && q > 0 ==> y * q > 0) by (nonlinear_arith);
        assert(p == 1 ==> x * p == x) by (nonlinear_arith);
        assert(q == 1 ==> y * q == y) by (nonlinear_arith);
    }
    if b.significand == 0 {
        return false;
    }
    if a.significand == 0 {
        return true;
    }
    if a.exponent < b.exponent {
        proof {
            lemma_less_by_exponent(a, b);
        }
        true
    } else if b.exponent < a.exponent {
        proof {
            lemma_less_by_exponent(b, a);
        }
        false
    } else {
        a.significand < b.significand
    }
}

/// `2^k`.
fn power_of_two(k: u64) -> (r: u128)
    requires
        k <= 107,
    ensures
        r == pow2(k as nat),
        0 < r < 0x1000_0000_0000_0000_0000_0000_0000,
{
    let mut r: u128 = 1;
    let mut i: u64 = 0;
    proof {
        lemma2_to64();
    }
    while i < k
        invariant
            i <= k <= 107,
            r == pow2(i as nat),
            r < 0x1000_0000_0000_0000_0000_0000_0000,
        decreases k - i,
    {
        proof {
            lemma_pow2_unfold((i + 1) as nat);
            lemma_pow2_bound((i + 1) as nat);
        }
        r = 2 * r;
        i = i + 1;
    }
    proof {
        lemma_pow2_pos(k as nat);
    }
    r
}

proof fn lemma_pow2_bound(k: nat)
    requires
        k <= 107,
    ensures
        pow2(k) < 0x1000_0000_0000_0000_0000_0000_0000,
{
    lemma_pow2_strictly_increases_or_equal(k, 107);
    lemma2_to64();
    lemma2_to64_rest();
    lemma_pow2_adds(64, 43);
    assert(pow2(64) == 0x1_0000_0000_0000_0000);
    assert(pow2(43) == 0x800_0000_0000);
    assert(0x1_0000_0000_0000_0000 * 0x800_0000_0000 < 0x1000_0000_0000_0000_0000_0000_0000)
        by (nonlinear_arith);
}

/// The integer part of a number, at most `max`.
pub fn truncated(a: Float, max: u64) -> (r: u64)
    requires
        a.wf(),
    ensures
        r == if floor(a) <= max {
            floor(a)
        } else {
            max as nat
        },
{
    if a.significand == 0 {
        proof {
            lemma2_to64();
        }
        assert(floor(a) == 0);
        return 0;
    }
    if a.exponent >= 64 {
        proof {
            lemma2_to64();
            lemma_pow2_strictly_increases_or_equal(64, a.exponent as nat);
            let x = a.significand as int;
            let p = pow2(a.exponent as nat) as int;
            assert(x * p >= p) by (nonlinear_arith)
                requires
                    x >= 1,
                    p >= 1,
            ;
        }
        return max;
    }
    if a.exponent >= 0 {
        let power = power_of_two(a.exponent as u64);
        proof {
            lemma2_to64();
            lemma_pow2_strictly_increases_or_equal(a.exponent as nat, 64);
            let x = a.significand as int;
            let p = power as int;
            assert(0 <= x * p <= 0x20_0000_0000_0000 * 0x1_0000_0000_0000_0000)
                by (nonlinear_arith)
                requires
                    0 <= x <= 0x20_0000_0000_0000,
                    0 <= p <= 0x1_0000_0000_0000_0000,
            ;
        }
        let value: u128 = a.significand as u128 * power;
        if value <= max as u128 {
            value as u64
        } else {
            max
        }
    } else if a.exponent <= -64 {
        proof {
            lemma2_to64();
            lemma_pow2_strictly_increases_or_equal(64, (-a.exponent) as nat);
            let x = a.significand as int;
            let p = pow2((-a.exponent) as nat) as int;
            assert(x / p == 0) by (nonlinear_arith)
                requires
                    0 <= x < p,
            ;
        }
        0
    } else {
        let power = power_of_two((-a.exponent) as u64);
        let value: u128 = a.significand as u128 / power;
        proof {
            let x = a.significand as int;
            let p = power as int;
            assert(0 <= x / p <= x) by (nonlinear_arith)
                requires
                    x >= 0,
                    p >= 1,
            ;
        }
        if value <= max as u128 {
            value as u64
        } else {
            max
        }
    }
}

/// The nearest integer to a number, ties upwards, at most `max`.
pub fn rounded_to(a: Float, max: u64) -> (r: u64)
    requires
        a.wf(),
    ensures
        r == if rounded(a) <= max {
            rounded(a)
        } else {
            max as nat
        },
{
    if a.exponent >= 0 {
        return truncated(a, max);
    }
    if a.exponent <= -64 {
        proof {
            lemma2_to64();
            lemma_pow2_strictly_increases_or_equal(64, (-a.exponent) as nat);
            let x = a.significand as int;
            let p = pow2((-a.exponent) as nat) as int;
            assert((2 * x + p) / (2 * p) == 0) by (nonlinear_arith)
                requires
                    0 <= 2 * x < p,
            ;
        }
        return 0;
    }
    let power = power_of_two((-a.exponent) as u64);
    let value: u128 = (2 * a.significand as u128 + power) / (2 * power);
    proof {
        let x = a.significand as int;
        let p = power as int;
        assert(0 <= (2 * x + p) / (2 * p) <= x + 1) by (nonlinear_arith)
            requires
                x >= 0,
                p >= 1,
        ;
    }
    if value <= max as u128 {
        value as u64
    } else {
        max
    }
}

/// The value of a non-negative finite number in the IEEE 754 binary64 encoding, the sign aside.
pub open spec fn magnitude_of_bits(bits: u64) -> Float {
    let biased = (bits / 0x10_0000_0000_0000) % 0x800;
    let fraction = bits % 0x10_0000_0000_0000;
    if biased == 0 {
        nearest(Precision::Double, fraction as nat, 1, -1074)
    } else {
        Float {
            precision: Precision::Double,
            significand: (0x10_0000_0000_0000 + fraction) as u64,
            exponent: (biased - 1075) as i64,
        }
    }
}

/// A decoded number is normalized.
pub proof fn lemma_magnitude_is_normal(bits: u64)
    ensures
        magnitude_of_bits(bits).wf(),
        magnitude_of_bits(bits).precision == Precision::Double,
        magnitude_of_bits(bits).within(2048),
{
    let biased = (bits / 0x10_0000_0000_0000) % 0x800;
    let fraction = bits % 0x10_0000_0000_0000;
    if biased == 0 {
        lemma_small_ratio_is_normal(Precision::Double, fraction as nat, 1, -1074);
    }
}

/// Decodes the magnitude of a binary64 encoding.
pub fn decode_magnitude(bits: u64) -> (r: Float)
    ensures
        r == magnitude_of_bits(bits),
        r.wf(),
        r.precision == Precision::Double,
        r.within(2048),
{
    let biased: u64 = (bits / 0x10_0000_0000_0000) % 0x800;
    let fraction: u64 = bits % 0x10_0000_0000_0000;
    if biased == 0 {
        round_ratio(Precision::Double, fraction as u128, 1, -1074)
    } else {
        Float {
            precision: Precision::Double,
            significand: 0x10_0000_0000_0000 + fraction,
            exponent: biased as i64 - 1075,
        }
    }
}

/// Half of the smallest binary64 number above zero. A number of its size or less is rounded to zero
/// there.
pub open spec fn half_of_least() -> Float {
    Float { precision: Precision::Double, significand: 0x10_0000_0000_0000, exponent: -1127i64 }
}

pub fn least_half() -> (r: Float)
    ensures
        r == half_of_least(),
        r.wf(),
{
    Float { precision: Precision::Double, significand: 0x10_0000_0000_0000, exponent: -1127 }
}

/// The rounded sum. A number so small that it lies below a quarter of the last place of the
/// other does not change it.
pub open spec fn sum(a: Float, b: Float) -> Float {
    if a.significand == 0 {
        b
    } else if b.significand == 0 {
        a
    } else if a.exponent - b.exponent >= 55 {
        a
    } else if b.exponent - a.exponent >= 55 {
        b
    } else if a.exponent >= b.exponent {
        nearest(
            a.precision,
            a.significand as nat * pow2((a.exponent - b.exponent) as nat) + b.significand as nat,
            1,
            b.exponent as int,
        )
    } else {
        nearest(
            a.precision,
            b.significand as nat * pow2((b.exponent - a.exponent) as nat) + a.significand as nat,
            1,
            a.exponent as int,
        )
    }
}

fn shifted_sum(high: Float, low: Float) -> (r: Float)
    requires
        high.wf(),
        low.wf(),
        high.precision == low.precision,
        high.significand > 0,
        low.significand > 0,
        0 <= high.exponent - low.exponent < 55,
        low.within(0x1000_0000_0000_0000),
    ensures
        r == nearest(
            high.precision,
            high.significand as nat * pow2((high.exponent - low.exponent) as nat)
                + low.significand as nat,
            1,
            low.exponent as int,
        ),
        r.wf(),
        r.precision == high.precision,
        low.exponent - 128 <= r.exponent <= low.exponent + 128,
{
    let gap: u64 = (high.exponent - low.exponent) as u64;
    let power = power_of_two(gap);
    proof {
        lemma2_to64();
        lemma2_to64_rest();
        lemma_pow2_strictly_increases_or_equal(gap as nat, 54);
        assert(pow2(54) == 0x40_0000_0000_0000);
        let x = high.significand as int;
        let p = power as int;
        assert(0 < x * p <= 0x1f_ffff_ffff_ffff * 0x40_0000_0000_0000) by (nonlinear_arith)
            requires
                0 < x <= 0x1f_ffff_ffff_ffff,
                0 < p <= 0x40_0000_0000_0000,
        ;
    }
    round_ratio(
        high.precision,
        high.significand as u128 * power + low.significand as u128,
        1,
        low.exponent,
    )
}

/// The rounded sum of two numbers.
pub fn plus(a: Float, b: Float) -> (r: Float)
    requires
        a.wf(),
        b.wf(),
        a.precision == b.precision,
        a.within(0x1000_0000_0000_0000),
        b.within(0x1000_0000_0000_0000),
    ensures
        r == sum(a, b),
        r.wf(),
        r.precision == a.precision,
        (if a.exponent <= b.exponent {
            a.exponent
        } else {
            b.exponent
        }) - 128 <= r.exponent <= (if a.exponent <= b.exponent {
            b.exponent
        } else {
            a.exponent
        }) + 128,
{
    if a.significand == 0 {
        b
    } else if b.significand == 0 {
        a
    } else if a.exponent - b.exponent >= 55 {
        a
    } else if b.exponent - a.exponent >= 55 {
        b
    } else if a.exponent >= b.exponent {
        shifted_sum(a, b)
    } else {
        shifted_sum(b, a)
    }
}

/// The value of a finite number in the IEEE 754 binary32 encoding, the sign aside.
pub open spec fn magnitude_of_single(bits: u32) -> Float {
    let biased = (bits / 0x80_0000) % 0x100;
    let fraction = bits % 0x80_0000;
    if biased == 0 {
        nearest(Precision::Single, fraction as nat, 1, -149)
    } else {
        Float {
            precision: Precision::Single,
            significand: (0x80_0000 + fraction) as u64,
            exponent: (biased - 150) as i64,
        }
    }
}

/// Decodes the magnitude of a binary32 encoding.
pub fn decode_single(bits: u32) -> (r: Float)
    ensures
        r == magnitude_of_single(bits),
        r.wf(),
        r.precision == Precision::Single,
{
    let biased: u32 = (bits / 0x80_0000) % 0x100;
    let fraction: u32 = bits % 0x80_0000;
    if biased == 0 {
        round_ratio(Precision::Single, fraction as u128, 1, -149)
    } else {
        Float {
            precision: Precision::Single,
            significand: 0x80_0000 + fraction as u64,
            exponent: biased as i64 - 150,
        }
    }
}

/// A duration in seconds: the whole seconds plus the rounded fraction.
pub open spec fn seconds_of(nanos: u64) -> Float {
    sum(
        of_nat(Precision::Double, (nanos / 1_000_000_000) as nat),
        quotient(
            of_nat(Precision::Double, (nanos % 1_000_000_000) as nat),
            of_nat(Precision::Double, 1_000_000_000),
        ),
    )
}

pub fn seconds(nanos: u64) -> (r: Float)
    ensures
        r == seconds_of(nanos),
        r.wf(),
        r.precision == Precision::Double,
        r.within(1000),
{
    let whole = integer(Precision::Double, nanos / 1_000_000_000);
    let part = divide(
        integer(Precision::Double, nanos % 1_000_000_000),
        integer(Precision::Double, 1_000_000_000),
    );
    plus(whole, part)
}

/// Zero is smaller than any other number.
pub proof fn lemma_zero_is_less(a: Float, b: Float)
    requires
        a.significand == 0,
        b.significand > 0,
    ensures
        less(a, b),
{
    let least = if a.exponent <= b.exponent {
        a.exponent
    } else {
        b.exponent
    };
    let p = pow2((a.exponent - least) as nat);
    let q = pow2((b.exponent - least) as nat);
    lemma_pow2_pos((b.exponent - least) as nat);
    let x = a.significand as int;
    let y = b.significand as int;
    assert(x * p == 0) by (nonlinear_arith)
        requires
            x == 0,
    ;
    assert(y * q > 0) by (nonlinear_arith)
        requires
            y > 0,
            q > 0,
    ;
}

/// A number above zero is not rounded to zero.
pub proof fn lemma_nearest_is_positive(precision: Precision, num: nat, den: nat, exponent: int)
    requires
        num > 0,
        den > 0,
    ensures
        nearest(precision, num, den, exponent).significand > 0,
    decreases
            (if num < precision.scaled(den) {
                (precision.scaled(den) - num) as nat
            } else if num >= 2 * precision.scaled(den) {
                num / den
            } else {
                0nat
            }),
{
    if num < precision.scaled(den) {
        lemma_nearest_is_positive(precision, 2 * num, den, exponent - 1);
    } else if num >= 2 * precision.scaled(den) {
        assert(num / (2 * den) < num / den) by (nonlinear_arith)
            requires
                num >= 2 * den,
                den > 0,
        ;
        lemma_nearest_is_positive(precision, num, 2 * den, exponent + 1);
    } else {
        lemma_round_bounds(precision, num, den);
    }
}

/// Whether `(n1 / d1) * 2^e1` is at most `(n2 / d2) * 2^e2`.
pub open spec fn ratio_at_most(n1: nat, d1: nat, e1: int, n2: nat, d2: nat, e2: int) -> bool {
    if e1 >= e2 {
        n1 * pow2((e1 - e2) as nat) * d2 <= n2 * d1
    } else {
        n1 * d2 <= n2 * pow2((e2 - e1) as nat) * d1
    }
}

/// Whether `a` is at most `b`.
pub open spec fn at_most(a: Float, b: Float) -> bool {
    ratio_at_most(
        a.significand as nat,
        1,
        a.exponent as int,
        b.significand as nat,
        1,
        b.exponent as int,
    )
}

/// At most `doublings` doublings of the numerator, or `halvings` of the whole, bring the ratio into
/// the range of the significands, and the exponent stays small on the way.
spec fn is_reachable(
    precision: Precision,
    num: nat,
    den: nat,
    exponent: int,
    doublings: nat,
    halvings: nat,
) -> bool {
    &&& den > 0
    &&& num > 0 ==> num * pow2(doublings) >= precision.scaled(den)
    &&& num < 2 * precision.scaled(den) * pow2(halvings)
    &&& -0x7000_0000_0000_0000 <= exponent - doublings
    &&& exponent + halvings <= 0x7000_0000_0000_0000
}

proof fn lemma_doubled_is_reachable(
    precision: Precision,
    num: nat,
    den: nat,
    exponent: int,
    doublings: nat,
    halvings: nat,
)
    requires
        is_reachable(precision, num, den, exponent, doublings, halvings),
        0 < num < precision.scaled(den),
    ensures
        doublings > 0,
        is_reachable(precision, 2 * num, den, exponent - 1, (doublings - 1) as nat, halvings),
{
    lemma2_to64();
    if doublings == 0 {
        assert(num * pow2(0) == num);
    }
    lemma_pow2_unfold(doublings);
    lemma_pow2_pos(halvings);
    let p = pow2((doublings - 1) as nat) as int;
    assert((2 * num) * p == num * (2 * p)) by (nonlinear_arith);
    let limit = 2 * precision.scaled(den);
    let q = pow2(halvings) as int;
    assert(limit * q >= limit) by (nonlinear_arith)
        requires
            limit >= 0,
            q >= 1,
    ;
}

proof fn lemma_halved_is_reachable(
    precision: Precision,
    num: nat,
    den: nat,
    exponent: int,
    doublings: nat,
    halvings: nat,
)
    requires
        is_reachable(precision, num, den, exponent, doublings, halvings),
        num >= 2 * precision.scaled(den),
    ensures
        halvings > 0,
        is_reachable(precision, num, 2 * den, exponent + 1, 0, (halvings - 1) as nat),
{
    lemma2_to64();
    let limit = 2 * precision.scaled(den);
    if halvings == 0 {
        assert(limit * pow2(0) == limit);
    }
    lemma_pow2_unfold(halvings);
    let q = pow2((halvings - 1) as nat) as int;
    assert(limit * (2 * q) == 2 * limit * q) by (nonlinear_arith);
    assert(precision.scaled(2 * den) == limit);
    assert(num * pow2(0) == num);
}

/// What [`nearest`] gives is normalized, and its exponent is not far from the given one.
proof fn lemma_nearest_is_normal(
    precision: Precision,
    num: nat,
    den: nat,
    exponent: int,
    doublings: nat,
    halvings: nat,
)
    requires
        is_reachable(precision, num, den, exponent, doublings, halvings),
    ensures
        ({
            let r = nearest(precision, num, den, exponent);
            &&& r.wf()
            &&& r.precision == precision
            &&& r.significand == 0 <==> num == 0
            &&& num > 0 ==> exponent - doublings <= r.exponent <= exponent + halvings + 1
        }),
    decreases doublings + halvings,
{
    if num == 0 {
    } else if num < precision.scaled(den) {
        lemma_doubled_is_reachable(precision, num, den, exponent, doublings, halvings);
        lemma_nearest_is_normal(
            precision,
            2 * num,
            den,
            exponent - 1,
            (doublings - 1) as nat,
            halvings,
        );
    } else if num >= 2 * precision.scaled(den) {
        lemma_halved_is_reachable(precision, num, den, exponent, doublings, halvings);
        lemma_nearest_is_normal(
            precision,
            num,
            2 * den,
            exponent + 1,
            0,
            (halvings - 1) as nat,
        );
    } else {
        lemma_round_bounds(precision, num, den);
    }
}

proof fn lemma_scaling_keeps_order(n1: nat, d1: nat, e1: int, n2: nat, d2: nat, e2: int)
    requires
        ratio_at_most(n1, d1, e1, n2, d2, e2),
    ensures
        ratio_at_most(2 * n1, d1, e1 - 1, n2, d2, e2),
        ratio_at_most(n1, 2 * d1, e1 + 1, n2, d2, e2),
        ratio_at_most(n1, d1, e1, 2 * n2, d2, e2 - 1),
        ratio_at_most(n1, d1, e1, n2, 2 * d2, e2 + 1),
{
    lemma2_to64();
    let x = n1 as int;
    let y = n2 as int;
    let c = d1 as int;
    let d = d2 as int;
    if e1 >= e2 {
        let gap = (e1 - e2) as nat;
        let p = pow2(gap) as int;
        lemma_pow2_unfold(gap + 1);
        assert(x * (2 * p) * d <= y * (2 * c)) by (nonlinear_arith)
            requires
                x * p * d <= y * c,
        ;
        assert(x * (2 * p) * d <= (2 * y) * c) by (nonlinear_arith)
            requires
                x * p * d <= y * c,
        ;
        if e1 > e2 {
            lemma_pow2_unfold(gap);
            let q = pow2((gap - 1) as nat) as int;
            assert((2 * x) * q * d <= y * c) by (nonlinear_arith)
                requires
                    x * (2 * q) * d <= y * c,
            ;
            assert(x * q * (2 * d) <= y * c) by (nonlinear_arith)
                requires
                    x * (2 * q) * d <= y * c,
            ;
        } else {
            assert(p == 1);
            assert((2 * x) * d <= y * 2 * c) by (nonlinear_arith)
                requires
                    x * 1 * d <= y * c,
            ;
            assert(x * (2 * d) <= y * 2 * c) by (nonlinear_arith)
                requires
                    x * 1 * d <= y * c,
            ;
        }
    } else {
        let gap = (e2 - e1) as nat;
        let p = pow2(gap) as int;
        lemma_pow2_unfold(gap + 1);
        lemma_pow2_unfold(gap);
        let q = pow2((gap - 1) as nat) as int;
        assert((2 * x) * d <= y * (2 * p) * c) by (nonlinear_arith)
            requires
                x * d <= y * p * c,
        ;
        assert(x * (2 * d) <= y * (2 * p) * c) by (nonlinear_arith)
            requires
                x * d <= y * p * c,
        ;
        assert(x * d <= y * q * (2 * c)) by (nonlinear_arith)
            requires
                x * d <= y * (2 * q) * c,
        ;
        assert(x * d <= (2 * y) * q * c) by (nonlinear_arith)
            requires
                x * d <= y * (2 * q) * c,
        ;
        if gap == 1 {
            assert(q == 1);
            assert(x * 1 * d <= y * (2 * c)) by (nonlinear_arith)
                requires
                    x * d <= y * 1 * (2 * c),
            ;
            assert(x * 1 * d <= (2 * y) * c) by (nonlinear_arith)
                requires
                    x * d <= (2 * y) * 1 * c,
            ;
        }
    }
}

/// Rounding to an integer keeps the order.
proof fn lemma_round_keeps_order(n1: nat, d1: nat, n2: nat, d2: nat)
    requires
        d1 > 0,
        d2 > 0,
        n1 * d2 <= n2 * d1,
    ensures
        round_half_even(n1, d1) <= round_half_even(n2, d2),
{
    let q1 = (n1 / d1) as int;
    let r1 = (n1 % d1) as int;
    let q2 = (n2 / d2) as int;
    let r2 = (n2 % d2) as int;
    let c = d1 as int;
    let d = d2 as int;
    assert(n1 == q1 * c + r1 && 0 <= r1 < c) by (nonlinear_arith)
        requires
            q1 == n1 as int / c,
            r1 == n1 as int % c,
            c > 0,
    ;
    assert(n2 == q2 * d + r2 && 0 <= r2 < d) by (nonlinear_arith)
        requires
            q2 == n2 as int / d,
            r2 == n2 as int % d,
            d > 0,
    ;
    assert((q1 * c + r1) * d <= (q2 * d + r2) * c);
    assert(q1 <= q2) by (nonlinear_arith)
        requires
            (q1 * c + r1) * d <= (q2 * d + r2) * c,
            0 <= r1,
            r2 < d,
            c > 0,
            d > 0,
    ;
    if q1 == q2 {
        assert(r1 * d <= r2 * c) by (nonlinear_arith)
            requires
                (q1 * c + r1) * d <= (q2 * d + r2) * c,
                q1 == q2,
        ;
        assert(2 * r1 > c ==> 2 * r2 > d) by (nonlinear_arith)
            requires
                r1 * d <= r2 * c,
                c > 0,
                d > 0,
        ;
        assert(2 * r1 == c ==> 2 * r2 >= d) by (nonlinear_arith)
            requires
                r1 * d <= r2 * c,
                c > 0,
                d > 0,
        ;
    }
}

/// Rounding keeps the order of two ratios that are in the range of the significands.
proof fn lemma_carried_keeps_order(
    precision: Precision,
    n1: nat,
    d1: nat,
    e1: int,
    n2: nat,
    d2: nat,
    e2: int,
)
    requires
        d1 > 0,
        d2 > 0,
        precision.scaled(d1) <= n1 < 2 * precision.scaled(d1),
        precision.scaled(d2) <= n2 < 2 * precision.scaled(d2),
        -0x7000_0000_0000_0000 <= e1 <= 0x7000_0000_0000_0000,
        -0x7000_0000_0000_0000 <= e2 <= 0x7000_0000_0000_0000,
        ratio_at_most(n1, d1, e1, n2, d2, e2),
    ensures
        at_most(
            carried(precision, round_half_even(n1, d1), e1),
            carried(precision, round_half_even(n2, d2), e2),
        ),
{
    lemma2_to64();
    lemma_round_bounds(precision, n1, d1);
    lemma_round_bounds(precision, n2, d2);
    let half = precision.half() as int;
    let x = n1 as int;
    let y = n2 as int;
    let c = d1 as int;
    let d = d2 as int;
    if e1 == e2 {
        assert(x * 1 * d <= y * c);
        assert(x * d <= y * c) by (nonlinear_arith)
            requires
                x * 1 * d <= y * c,
        ;
        lemma_round_keeps_order(n1, d1, n2, d2);
        lemma_carry_keeps_order(
            precision,
            round_half_even(n1, d1),
            e1,
            round_half_even(n2, d2),
            e2,
        );
    } else if e1 > e2 {
        let p = pow2((e1 - e2) as nat) as int;
        lemma_pow2_unfold((e1 - e2) as nat);
        lemma_pow2_pos((e1 - e2 - 1) as nat);
        assert(precision.scaled(d1) == half * c);
        assert(precision.scaled(d2) == half * d);
        assert(false) by (nonlinear_arith)
            requires
                x * p * d <= y * c,
                x >= half * c,
                y < 2 * (half * d),
                p >= 2,
                c > 0,
                d > 0,
                half > 0,
        ;
    } else {
        lemma_carry_keeps_order(
            precision,
            round_half_even(n1, d1),
            e1,
            round_half_even(n2, d2),
            e2,
        );
    }
}

proof fn lemma_carry_keeps_order(precision: Precision, s1: nat, e1: int, s2: nat, e2: int)
    requires
        precision.half() <= s1 <= 2 * precision.half(),
        precision.half() <= s2 <= 2 * precision.half(),
        -0x7000_0000_0000_0000 <= e1 <= e2 <= 0x7000_0000_0000_0000,
        e1 == e2 ==> s1 <= s2,
    ensures
        at_most(carried(precision, s1, e1), carried(precision, s2, e2)),
{
    lemma2_to64();
    let a = carried(precision, s1, e1);
    let b = carried(precision, s2, e2);
    let gap = (b.exponent - a.exponent) as nat;
    if gap == 0 {
    } else {
        lemma_pow2_unfold(gap);
        lemma_pow2_pos((gap - 1) as nat);
        let x = a.significand as int;
        let y = b.significand as int;
        let p = pow2(gap) as int;
        assert(x * 1 <= y * p * 1) by (nonlinear_arith)
            requires
                p >= 2,
                x <= 2 * y,
                y >= 0,
        ;
    }
}

/// Rounding keeps the order: of two ratios, the smaller is not rounded to the greater number.
proof fn lemma_nearest_keeps_order(
    precision: Precision,
    n1: nat,
    d1: nat,
    e1: int,
    doublings1: nat,
    halvings1: nat,
    n2: nat,
    d2: nat,
    e2: int,
    doublings2: nat,
    halvings2: nat,
)
    requires
        is_reachable(precision, n1, d1, e1, doublings1, halvings1),
        is_reachable(precision, n2, d2, e2, doublings2, halvings2),
        ratio_at_most(n1, d1, e1, n2, d2, e2),
    ensures
        at_most(nearest(precision, n1, d1, e1), nearest(precision, n2, d2, e2)),
    decreases doublings1 + halvings1 + doublings2 + halvings2,
{
    lemma2_to64();
    lemma_scaling_keeps_order(n1, d1, e1, n2, d2, e2);
    if n1 == 0 {
        let b = nearest(precision, n2, d2, e2);
        lemma_zero_is_at_most(zero(precision), b);
    } else if n2 == 0 {
        let p = pow2((e1 - e2) as nat) as int;
        let x = n1 as int;
        let d = d2 as int;
        if e1 >= e2 {
            lemma_pow2_pos((e1 - e2) as nat);
            assert(x * p * d > 0) by (nonlinear_arith)
                requires
                    x > 0,
                    p > 0,
                    d > 0,
            ;
            assert(0 * d1 == 0);
        } else {
            let q = pow2((e2 - e1) as nat) as int;
            let c = d1 as int;
            assert(x * d > 0) by (nonlinear_arith)
                requires
                    x > 0,
                    d > 0,
            ;
            assert(0 * q * c == 0) by (nonlinear_arith);
        }
    } else if n1 < precision.scaled(d1) {
        lemma_doubled_is_reachable(precision, n1, d1, e1, doublings1, halvings1);
        lemma_nearest_keeps_order(
            precision,
            2 * n1,
            d1,
            e1 - 1,
            (doublings1 - 1) as nat,
            halvings1,
            n2,
            d2,
            e2,
            doublings2,
            halvings2,
        );
    } else if n1 >= 2 * precision.scaled(d1) {
        lemma_halved_is_reachable(precision, n1, d1, e1, doublings1, halvings1);
        lemma_nearest_keeps_order(
            precision,
            n1,
            2 * d1,
            e1 + 1,
            0,
            (halvings1 - 1) as nat,
            n2,
            d2,
            e2,
            doublings2,
            halvings2,
        );
    } else if n2 < precision.scaled(d2) {
        lemma_doubled_is_reachable(precision, n2, d2, e2, doublings2, halvings2);
        lemma_nearest_keeps_order(
            precision,
            n1,
            d1,
            e1,
            doublings1,
            halvings1,
            2 * n2,
            d2,
            e2 - 1,
            (doublings2 - 1) as nat,
            halvings2,
        );
    } else if n2 >= 2 * precision.scaled(d2) {
        lemma_halved_is_reachable(precision, n2, d2, e2, doublings2, halvings2);
        lemma_nearest_keeps_order(
            precision,
            n1,
            d1,
            e1,
            doublings1,
            halvings1,
            n2,
            2 * d2,
            e2 + 1,
            0,
            (halvings2 - 1) as nat,
        );
    } else {
        lemma_carried_keeps_order(precision, n1, d1, e1, n2, d2, e2);
    }
}

proof fn lemma_zero_is_at_most(a: Float, b: Float)
    requires
        a.significand == 0,
    ensures
        at_most(a, b),
{
    let y = b.significand as int;
    if a.exponent >= b.exponent {
        let p = pow2((a.exponent - b.exponent) as nat) as int;
        assert(0 * p * 1 == 0) by (nonlinear_arith);
    } else {
        let p = pow2((b.exponent - a.exponent) as nat) as int;
        assert(y * p * 1 >= 0) by (nonlinear_arith)
            requires
                y >= 0,
                p >= 0,
        ;
    }
}

/// A ratio of small numbers comes into range within 128 doublings or halvings.
proof fn lemma_small_ratio_is_reachable(precision: Precision, num: nat, den: nat, exponent: int)
    requires
        0 < den < 0x40_0000_0000_0000,
        num < 0x1000_0000_0000_0000_0000_0000_0000,
        -0x4000_0000_0000_0000 <= exponent <= 0x4000_0000_0000_0000,
    ensures
        is_reachable(precision, num, den, exponent, 128, 128),
{
    lemma2_to64();
    lemma_pow2_adds(64, 64);
    let p = pow2(128) as int;
    assert(p == 0x1_0000_0000_0000_0000_0000_0000_0000_0000) by {
        assert(pow2(64) == 0x1_0000_0000_0000_0000);
        assert(0x1_0000_0000_0000_0000 * 0x1_0000_0000_0000_0000
            == 0x1_0000_0000_0000_0000_0000_0000_0000_0000) by (nonlinear_arith);
    }
    let n = num as int;
    assert(n > 0 ==> n * p >= p) by (nonlinear_arith)
        requires
            p > 0,
    ;
    let limit = 2 * precision.scaled(den);
    assert(limit * p >= p) by (nonlinear_arith)
        requires
            limit >= 1,
            p > 0,
    ;
}

/// The number nearest to a small ratio is normalized.
proof fn lemma_small_ratio_is_normal(precision: Precision, num: nat, den: nat, exponent: int)
    requires
        0 < den < 0x40_0000_0000_0000,
        num < 0x1000_0000_0000_0000_0000_0000_0000,
        -0x4000_0000_0000_0000 <= exponent <= 0x4000_0000_0000_0000,
    ensures
        ({
            let r = nearest(precision, num, den, exponent);
            &&& r.wf()
            &&& r.precision == precision
            &&& r.significand == 0 <==> num == 0
            &&& num > 0 ==> exponent - 128 <= r.exponent <= exponent + 129
        }),
{
    lemma_small_ratio_is_reachable(precision, num, den, exponent);
    lemma_nearest_is_normal(precision, num, den, exponent, 128, 128);
}

/// The number nearest to an integer or a ratio of integers is normalized.
pub proof fn lemma_ratio_is_normal(num: nat, den: nat)
    requires
        0 < den < 0x40_0000_0000_0000,
        num < 0x1_0000_0000_0000_0000,
    ensures
        ratio(num, den).wf(),
        ratio(num, den).precision == Precision::Double,
        ratio(num, den).within(129),
        ratio(num, den).significand > 0 <==> num > 0,
{
    lemma_small_ratio_is_normal(Precision::Double, num, den, 0);
}

/// An integer in single precision is normalized.
pub proof fn lemma_single_is_normal(n: nat)
    requires
        n < 0x1_0000_0000_0000_0000,
    ensures
        of_nat(Precision::Single, n).wf(),
        of_nat(Precision::Single, n).precision == Precision::Single,
        of_nat(Precision::Single, n).within(129),
        of_nat(Precision::Single, n).significand > 0 <==> n > 0,
{
    lemma_small_ratio_is_normal(Precision::Single, n, 1, 0);
}

/// A quotient is normalized.
pub proof fn lemma_single_quotient_is_normal(a: Float, b: Float)
    requires
        a.wf(),
        b.wf(),
        b.significand > 0,
        a.within(129),
        b.within(129),
    ensures
        quotient(a, b).wf(),
        quotient(a, b).precision == a.precision,
        quotient(a, b).significand > 0 <==> a.significand > 0,
        quotient(a, b).within(1000),
{
    lemma_small_ratio_is_normal(
        a.precision,
        a.significand as nat,
        b.significand as nat,
        a.exponent - b.exponent,
    );
}

/// The order of the factors does not matter.
pub proof fn lemma_product_commutes(a: Float, b: Float)
    requires
        a.precision == b.precision,
    ensures
        product(a, b) == product(b, a),
{
    assert(a.significand * b.significand == b.significand * a.significand) by (nonlinear_arith);
}

/// The product of two significands is small, and zero only where one of them is.
pub proof fn lemma_significands(a: Float, b: Float)
    requires
        a.wf(),
        b.wf(),
    ensures
        a.significand * b.significand < 0x1000_0000_0000_0000_0000_0000_0000,
        a.significand * b.significand == 0 <==> a.significand == 0 || b.significand == 0,
{
    let x = a.significand as int;
    let y = b.significand as int;
    assert(0 <= x * y < 0x20_0000_0000_0000 * 0x20_0000_0000_0000) by (nonlinear_arith)
        requires
            0 <= x < 0x20_0000_0000_0000,
            0 <= y < 0x20_0000_0000_0000,
    ;
    assert(x * y == 0 <==> x == 0 || y == 0) by (nonlinear_arith);
}

/// A product is normalized.
pub proof fn lemma_product_is_normal(a: Float, b: Float)
    requires
        a.wf(),
        b.wf(),
        a.within(0x1000_0000_0000_0000),
        b.within(0x1000_0000_0000_0000),
    ensures
        product(a, b).wf(),
        product(a, b).precision == a.precision,
        product(a, b).significand == 0 <==> a.significand == 0 || b.significand == 0,
        product(a, b).significand > 0 ==> a.exponent + b.exponent - 128 <= product(a, b).exponent
            <= a.exponent + b.exponent + 129,
{
    lemma_significands(a, b);
    lemma_small_ratio_is_normal(
        a.precision,
        (a.significand * b.significand) as nat,
        1,
        a.exponent + b.exponent,
    );
}

/// A greater integer is not rounded to a smaller number.
pub proof fn lemma_integers_keep_order(m: nat, n: nat)
    requires
        m <= n < 0x1_0000_0000_0000_0000,
    ensures
        at_most(of_nat(Precision::Double, m), of_nat(Precision::Double, n)),
{
    lemma2_to64();
    lemma_small_ratio_is_reachable(Precision::Double, m, 1, 0);
    lemma_small_ratio_is_reachable(Precision::Double, n, 1, 0);
    let p = pow2(0) as int;
    let x = m as int;
    assert(x * p * 1 == x) by (nonlinear_arith)
        requires
            p == 1,
    ;
    lemma_nearest_keeps_order(Precision::Double, m, 1, 0, 128, 128, n, 1, 0, 128, 128);
}

/// Multiplication by the same number keeps the order.
pub proof fn lemma_products_keep_order(a: Float, b: Float, factor: Float)
    requires
        a.wf(),
        b.wf(),
        factor.wf(),
        a.precision == b.precision,
        a.within(0x1000_0000_0000_0000),
        b.within(0x1000_0000_0000_0000),
        factor.within(0x1000_0000_0000_0000),
        at_most(a, b),
    ensures
        at_most(product(a, factor), product(b, factor)),
{
    lemma_significands(a, factor);
    lemma_significands(b, factor);
    let x = a.significand as int;
    let y = b.significand as int;
    let f = factor.significand as int;
    let e1 = a.exponent + factor.exponent;
    let e2 = b.exponent + factor.exponent;
    if e1 >= e2 {
        let p = pow2((e1 - e2) as nat) as int;
        assert((x * f) * p * 1 <= (y * f) * 1) by (nonlinear_arith)
            requires
                x * p * 1 <= y * 1,
                f >= 0,
        ;
    } else {
        let p = pow2((e2 - e1) as nat) as int;
        assert((x * f) * 1 <= (y * f) * p * 1) by (nonlinear_arith)
            requires
                x * 1 <= y * p * 1,
                f >= 0,
        ;
    }
    lemma_small_ratio_is_reachable(a.precision, (x * f) as nat, 1, e1);
    lemma_small_ratio_is_reachable(a.precision, (y * f) as nat, 1, e2);
    lemma_nearest_keeps_order(
        a.precision,
        (x * f) as nat,
        1,
        e1,
        128,
        128,
        (y * f) as nat,
        1,
        e2,
        128,
        128,
    );
}

/// Division by the same number keeps the order.
pub proof fn lemma_dividends_keep_order(a: Float, b: Float, divisor: Float)
    requires
        a.wf(),
        b.wf(),
        divisor.wf(),
        divisor.significand > 0,
        a.precision == b.precision,
        a.within(0x1000_0000_0000_0000),
        b.within(0x1000_0000_0000_0000),
        divisor.within(0x1000_0000_0000_0000),
        at_most(a, b),
    ensures
        at_most(quotient(a, divisor), quotient(b, divisor)),
{
    let x = a.significand as int;
    let y = b.significand as int;
    let f = divisor.significand as int;
    let e1 = a.exponent - divisor.exponent;
    let e2 = b.exponent - divisor.exponent;
    if e1 >= e2 {
        let p = pow2((e1 - e2) as nat) as int;
        assert(x * p * f <= y * f) by (nonlinear_arith)
            requires
                x * p * 1 <= y * 1,
                f >= 0,
        ;
    } else {
        let p = pow2((e2 - e1) as nat) as int;
        assert(x * f <= y * p * f) by (nonlinear_arith)
            requires
                x * 1 <= y * p * 1,
                f >= 0,
        ;
    }
    lemma_small_ratio_is_reachable(a.precision, x as nat, f as nat, e1);
    lemma_small_ratio_is_reachable(a.precision, y as nat, f as nat, e2);
    lemma_nearest_keeps_order(
        a.precision,
        x as nat,
        f as nat,
        e1,
        128,
        128,
        y as nat,
        f as nat,
        e2,
        128,
        128,
    );
}

/// A greater divisor does not give a greater quotient.
pub proof fn lemma_divisors_reverse_order(a: Float, divisor: Float, greater: Float)
    requires
        a.wf(),
        divisor.wf(),
        greater.wf(),
        divisor.significand > 0,
        greater.significand > 0,
        a.within(0x1000_0000_0000_0000),
        divisor.within(0x1000_0000_0000_0000),
        greater.within(0x1000_0000_0000_0000),
        at_most(divisor, greater),
    ensures
        at_most(quotient(a, greater), quotient(a, divisor)),
{
    lemma2_to64();
    let x = a.significand as int;
    let f = divisor.significand as int;
    let g = greater.significand as int;
    let e1 = a.exponent - greater.exponent;
    let e2 = a.exponent - divisor.exponent;
    if e1 >= e2 {
        let p = pow2((e1 - e2) as nat) as int;
        assert(f * p <= g) by {
            if divisor.exponent > greater.exponent {
                assert(f * p * 1 <= g * 1);
            } else {
                assert(f * 1 <= g * p * 1);
                assert(p == 1);
            }
        }
        assert(x * p * f <= x * g) by (nonlinear_arith)
            requires
                f * p <= g,
                x >= 0,
        ;
    } else {
        let p = pow2((e2 - e1) as nat) as int;
        assert(f * 1 <= g * p * 1);
        assert(x * f <= x * p * g) by (nonlinear_arith)
            requires
                f * 1 <= g * p * 1,
                x >= 0,
        ;
    }
    lemma_small_ratio_is_reachable(a.precision, x as nat, g as nat, e1);
    lemma_small_ratio_is_reachable(a.precision, x as nat, f as nat, e2);
    lemma_nearest_keeps_order(
        a.precision,
        x as nat,
        g as nat,
        e1,
        128,
        128,
        x as nat,
        f as nat,
        e2,
        128,
        128,
    );
}

/// The integer parts of two numbers are in the order of the numbers.
pub proof fn lemma_floor_keeps_order(a: Float, b: Float)
    requires
        at_most(a, b),
    ensures
        floor(a) <= floor(b),
{
    lemma2_to64();
    let x = a.significand as int;
    let y = b.significand as int;
    if a.exponent >= b.exponent {
        let gap = (a.exponent - b.exponent) as nat;
        let p = pow2(gap) as int;
        assert(x * p <= y);
        if b.exponent >= 0 {
            let q = pow2(b.exponent as nat) as int;
            lemma_pow2_adds(gap, b.exponent as nat);
            assert(x * (p * q) <= y * q) by (nonlinear_arith)
                requires
                    x * p <= y,
                    q >= 0,
            ;
        } else if a.exponent >= 0 {
            let q = pow2((-b.exponent) as nat) as int;
            let s = pow2(a.exponent as nat) as int;
            lemma_pow2_pos((-b.exponent) as nat);
            lemma_pow2_adds(a.exponent as nat, (-b.exponent) as nat);
            assert(x * s <= y / q) by (nonlinear_arith)
                requires
                    x * (s * q) <= y,
                    q > 0,
            ;
        } else {
            let q = pow2((-b.exponent) as nat) as int;
            let s = pow2((-a.exponent) as nat) as int;
            lemma_pow2_pos((-a.exponent) as nat);
            lemma_pow2_pos((-b.exponent) as nat);
            lemma_pow2_pos(gap);
            lemma_pow2_adds((-a.exponent) as nat, gap);
            let k = x / s;
            assert(k * s <= x) by (nonlinear_arith)
                requires
                    k == x / s,
                    s > 0,
            ;
            assert(k * (s * p) <= y) by (nonlinear_arith)
                requires
                    k * s <= x,
                    x * p <= y,
                    p > 0,
            ;
            assert(k <= y / q) by (nonlinear_arith)
                requires
                    k * q <= y,
                    q > 0,
            ;
        }
    } else {
        let gap = (b.exponent - a.exponent) as nat;
        let p = pow2(gap) as int;
        assert(x <= y * p);
        if a.exponent >= 0 {
            let q = pow2(a.exponent as nat) as int;
            lemma_pow2_adds(gap, a.exponent as nat);
            assert(x * q <= y * (p * q)) by (nonlinear_arith)
                requires
                    x <= y * p,
                    q >= 0,
            ;
        } else {
            let s = pow2((-a.exponent) as nat) as int;
            lemma_pow2_pos((-a.exponent) as nat);
            let k = x / s;
            assert(k * s <= x) by (nonlinear_arith)
                requires
                    k == x / s,
                    s > 0,
            ;
            if b.exponent >= 0 {
                let q = pow2(b.exponent as nat) as int;
                lemma_pow2_adds(b.exponent as nat, (-a.exponent) as nat);
                assert(k <= y * q) by (nonlinear_arith)
                    requires
                        k * s <= y * (q * s),
                        s > 0,
                ;
            } else {
                let q = pow2((-b.exponent) as nat) as int;
                lemma_pow2_pos((-b.exponent) as nat);
                lemma_pow2_pos(gap);
                lemma_pow2_adds((-b.exponent) as nat, gap);
                assert(k * q <= y) by (nonlinear_arith)
                    requires
                        k * (q * p) <= y * p,
                        p > 0,
                ;
                assert(k <= y / q) by (nonlinear_arith)
                    requires
                        k * q <= y,
                        q > 0,
                ;
            }
        }
    }
}

/// A ratio in the range of the significands that is the same as a given one and is rounded to the
/// same number.
proof fn lemma_normal_form(
    precision: Precision,
    num: nat,
    den: nat,
    exponent: int,
    doublings: nat,
    halvings: nat,
) -> (r: (nat, nat, int))
    requires
        is_reachable(precision, num, den, exponent, doublings, halvings),
        num > 0,
    ensures
        r.1 > 0,
        precision.scaled(r.1) <= r.0 < 2 * precision.scaled(r.1),
        -0x7000_0000_0000_0000 <= r.2 <= 0x7000_0000_0000_0000,
        nearest(precision, num, den, exponent) == carried(
            precision,
            round_half_even(r.0, r.1),
            r.2,
        ),
        exact::same_ratio(num, den, exponent, r.0, r.1, r.2),
    decreases doublings + halvings,
{
    lemma2_to64();
    exact::lemma_total(num, den, exponent, num, den, exponent);
    lemma_scaling_keeps_order(num, den, exponent, num, den, exponent);
    if num < precision.scaled(den) {
        lemma_doubled_is_reachable(precision, num, den, exponent, doublings, halvings);
        let r = lemma_normal_form(
            precision,
            2 * num,
            den,
            exponent - 1,
            (doublings - 1) as nat,
            halvings,
        );
        exact::lemma_transitive(num, den, exponent, 2 * num, den, exponent - 1, r.0, r.1, r.2);
        exact::lemma_transitive(r.0, r.1, r.2, 2 * num, den, exponent - 1, num, den, exponent);
        r
    } else if num >= 2 * precision.scaled(den) {
        lemma_halved_is_reachable(precision, num, den, exponent, doublings, halvings);
        let r = lemma_normal_form(
            precision,
            num,
            2 * den,
            exponent + 1,
            0,
            (halvings - 1) as nat,
        );
        exact::lemma_transitive(num, den, exponent, num, 2 * den, exponent + 1, r.0, r.1, r.2);
        exact::lemma_transitive(r.0, r.1, r.2, num, 2 * den, exponent + 1, num, den, exponent);
        r
    } else {
        (num, den, exponent)
    }
}

/// A number that the format holds is not changed by rounding: `num / den * 2^exponent` is the number
/// `significand * 2^power`.
pub proof fn lemma_rounding_is_exact(
    precision: Precision,
    num: nat,
    den: nat,
    exponent: int,
    significand: nat,
    power: int,
)
    requires
        0 < den < 0x40_0000_0000_0000,
        num < 0x1000_0000_0000_0000_0000_0000_0000,
        -0x4000_0000_0000_0000 <= exponent <= 0x4000_0000_0000_0000,
        significand < 2 * precision.half(),
        exact::same_ratio(num, den, exponent, significand, 1, power),
    ensures
        ({
            let r = nearest(precision, num, den, exponent);
            exact::same_ratio(
                r.significand as nat,
                1,
                r.exponent as int,
                significand,
                1,
                power,
            )
        }),
{
    lemma2_to64();
    let base = exact::least(exponent, power);
    exact::lemma_common_base(num, den, exponent, significand, 1, power, base);
    exact::lemma_common_base(significand, 1, power, num, den, exponent, base);
    lemma_pow2_pos((exponent - base) as nat);
    lemma_pow2_pos((power - base) as nat);
    if num == 0 {
        let p = pow2((exponent - base) as nat) as int;
        let q = pow2((power - base) as nat) as int;
        let s = significand as int;
        let d = den as int;
        assert(0 * p * 1 == 0) by (nonlinear_arith);
        assert(s == 0) by (nonlinear_arith)
            requires
                s * q * d <= 0,
                s >= 0,
                q > 0,
                d > 0,
        ;
        lemma_zero_is_at_most(zero(precision), Float { precision, significand: 0, exponent: 0 });
        let low = exact::least(0, power);
        exact::lemma_common_base(0, 1, 0, 0, 1, power, low);
        exact::lemma_common_base(0, 1, power, 0, 1, 0, low);
        let x = pow2((0 - low) as nat) as int;
        let y = pow2((power - low) as nat) as int;
        assert(0 * x * 1 == 0 && 0 * y * 1 == 0) by (nonlinear_arith);
    } else {
        lemma_small_ratio_is_reachable(precision, num, den, exponent);
        let (n, d, e) = lemma_normal_form(precision, num, den, exponent, 128, 128);
        exact::lemma_transitive(n, d, e, num, den, exponent, significand, 1, power);
        exact::lemma_transitive(significand, 1, power, num, den, exponent, n, d, e);
        let low = exact::least(e, power);
        exact::lemma_common_base(n, d, e, significand, 1, power, low);
        exact::lemma_common_base(significand, 1, power, n, d, e, low);
        let p = pow2((e - low) as nat) as int;
        let q = pow2((power - low) as nat) as int;
        let s = significand as int;
        let x = n as int;
        let c = d as int;
        let half = precision.half() as int;
        assert(precision.scaled(d) == half * c);
        assert(x * p * 1 == s * q * c);
        if power < e {
            lemma_pow2_unfold((e - power) as nat);
            lemma_pow2_pos((e - power - 1) as nat);
            assert(q == 1);
            assert(false) by (nonlinear_arith)
                requires
                    x * p * 1 == s * q * c,
                    q == 1,
                    p >= 2,
                    x >= half * c,
                    s < 2 * half,
                    c > 0,
                    half > 0,
            ;
        } else {
            assert(p == 1);
            let whole = s * q;
            assert(x == whole * c) by (nonlinear_arith)
                requires
                    x * p * 1 == s * q * c,
                    p == 1,
                    whole == s * q,
            ;
            assert(x / c == whole && x % c == 0) by (nonlinear_arith)
                requires
                    x == whole * c,
                    c > 0,
            ;
            assert(whole < 2 * half && whole >= half) by (nonlinear_arith)
                requires
                    x == whole * c,
                    half * c <= x < 2 * (half * c),
                    c > 0,
            ;
            assert(round_half_even(n, d) == whole);
            let r = nearest(precision, num, den, exponent);
            assert(r.significand == whole && r.exponent == e);
            exact::lemma_common_base(whole as nat, 1, e, significand, 1, power, e);
            exact::lemma_common_base(significand, 1, power, whole as nat, 1, e, e);
            assert(whole * 1 * 1 == s * q * 1) by (nonlinear_arith)
                requires
                    whole == s * q,
            ;
        }
    }
}

/// Rounding to the format of double precision changes a number by less than one part in `2^52`.
pub proof fn lemma_rounding_error(num: nat, den: nat, exponent: int)
    requires
        0 < den < 0x40_0000_0000_0000,
        num < 0x1000_0000_0000_0000_0000_0000_0000,
        -0x4000_0000_0000_0000 <= exponent <= 0x4000_0000_0000_0000,
    ensures
        ({
            let r = nearest(Precision::Double, num, den, exponent);
            &&& ratio_at_most(
                r.significand as nat,
                1,
                r.exponent as int,
                num * 0x10_0000_0000_0001,
                den * 0x10_0000_0000_0000,
                exponent,
            )
            &&& ratio_at_most(
                num * 0xf_ffff_ffff_ffff,
                den * 0x10_0000_0000_0000,
                exponent,
                r.significand as nat,
                1,
                r.exponent as int,
            )
        }),
{
    lemma2_to64();
    let precision = Precision::Double;
    let r = nearest(precision, num, den, exponent);
    let up = num * 0x10_0000_0000_0001;
    let down = num * 0xf_ffff_ffff_ffff;
    let wide = den * 0x10_0000_0000_0000;
    if num == 0 {
        let low = exact::least(0, exponent);
        exact::lemma_common_base(0, 1, 0, up, wide, exponent, low);
        exact::lemma_common_base(down, wide, exponent, 0, 1, 0, low);
        let x = pow2((0 - low) as nat) as int;
        let y = pow2((exponent - low) as nat) as int;
        let w = wide as int;
        assert(0 * x * w == 0 && 0 * y * 1 == 0) by (nonlinear_arith);
    } else {
        lemma_small_ratio_is_reachable(precision, num, den, exponent);
        let (n, d, e) = lemma_normal_form(precision, num, den, exponent, 128, 128);
        lemma_round_bounds(precision, n, d);
        let s = round_half_even(n, d);
        let x = n as int;
        let c = d as int;
        let y = s as int;
        let q = x / c;
        let rest = x % c;
        assert(x == q * c + rest && 0 <= rest < c) by (nonlinear_arith)
            requires
                q == x / c,
                rest == x % c,
                c > 0,
        ;
        assert(y * c == x - rest || y * c == x - rest + c) by (nonlinear_arith)
            requires
                y == q || y == q + 1,
                x == q * c + rest,
        ;
        assert(2 * (y * c - x) <= c && 2 * (x - y * c) <= c) by {
            if y == q {
                assert(y * c == q * c);
                assert(2 * rest <= c);
            } else {
                assert(y * c == q * c + c) by (nonlinear_arith)
                    requires
                        y == q + 1,
                ;
                assert(2 * rest >= c);
            }
        }
        assert(0x10_0000_0000_0000 * c <= x);
        let yc = y * c;
        exact::lemma_common_base(s, 1, e, n * 0x10_0000_0000_0001, d * 0x10_0000_0000_0000, e, e);
        exact::lemma_common_base(n * 0xf_ffff_ffff_ffff, d * 0x10_0000_0000_0000, e, s, 1, e, e);
        assert(y * 1 * (c * 0x10_0000_0000_0000) == yc * 0x10_0000_0000_0000) by (nonlinear_arith)
            requires
                yc == y * c,
        ;
        assert(ratio_at_most(s, 1, e, n * 0x10_0000_0000_0001, d * 0x10_0000_0000_0000, e));
        assert(ratio_at_most(n * 0xf_ffff_ffff_ffff, d * 0x10_0000_0000_0000, e, s, 1, e));
        lemma_carried_is_same(precision, s, e);
        exact::lemma_scaled(
            n,
            d,
            e,
            num,
            den,
            exponent,
            0x10_0000_0000_0001,
            0x10_0000_0000_0000,
        );
        exact::lemma_scaled(num, den, exponent, n, d, e, 0xf_ffff_ffff_ffff, 0x10_0000_0000_0000);
        exact::lemma_transitive(
            r.significand as nat,
            1,
            r.exponent as int,
            s,
            1,
            e,
            n * 0x10_0000_0000_0001,
            d * 0x10_0000_0000_0000,
            e,
        );
        exact::lemma_transitive(
            r.significand as nat,
            1,
            r.exponent as int,
            n * 0x10_0000_0000_0001,
            d * 0x10_0000_0000_0000,
            e,
            up,
            wide,
            exponent,
        );
        exact::lemma_transitive(
            n * 0xf_ffff_ffff_ffff,
            d * 0x10_0000_0000_0000,
            e,
            s,
            1,
            e,
            r.significand as nat,
            1,
            r.exponent as int,
        );
        exact::lemma_transitive(
            down,
            wide,
            exponent,
            n * 0xf_ffff_ffff_ffff,
            d * 0x10_0000_0000_0000,
            e,
            r.significand as nat,
            1,
            r.exponent as int,
        );
    }
}

/// Rounding to the format of single precision changes a number by less than one part in `2^23`.
pub proof fn lemma_single_rounding_error(num: nat, den: nat, exponent: int)
    requires
        0 < den < 0x40_0000_0000_0000,
        num < 0x1000_0000_0000_0000_0000_0000_0000,
        -0x4000_0000_0000_0000 <= exponent <= 0x4000_0000_0000_0000,
    ensures
        ({
            let r = nearest(Precision::Single, num, den, exponent);
            &&& ratio_at_most(
                r.significand as nat,
                1,
                r.exponent as int,
                num * 0x80_0001,
                den * 0x80_0000,
                exponent,
            )
            &&& ratio_at_most(
                num * 0x7f_ffff,
                den * 0x80_0000,
                exponent,
                r.significand as nat,
                1,
                r.exponent as int,
            )
        }),
{
    lemma2_to64();
    let precision = Precision::Single;
    let r = nearest(precision, num, den, exponent);
    let up = num * 0x80_0001;
    let down = num * 0x7f_ffff;
    let wide = den * 0x80_0000;
    if num == 0 {
        let low = exact::least(0, exponent);
        exact::lemma_common_base(0, 1, 0, up, wide, exponent, low);
        exact::lemma_common_base(down, wide, exponent, 0, 1, 0, low);
        let x = pow2((0 - low) as nat) as int;
        let y = pow2((exponent - low) as nat) as int;
        let w = wide as int;
        assert(0 * x * w == 0 && 0 * y * 1 == 0) by (nonlinear_arith);
    } else {
        lemma_small_ratio_is_reachable(precision, num, den, exponent);
        let (n, d, e) = lemma_normal_form(precision, num, den, exponent, 128, 128);
        lemma_round_bounds(precision, n, d);
        let s = round_half_even(n, d);
        let x = n as int;
        let c = d as int;
        let y = s as int;
        let q = x / c;
        let rest = x % c;
        assert(x == q * c + rest && 0 <= rest < c) by (nonlinear_arith)
            requires
                q == x / c,
                rest == x % c,
                c > 0,
        ;
        assert(y * c == x - rest || y * c == x - rest + c) by (nonlinear_arith)
            requires
                y == q || y == q + 1,
                x == q * c + rest,
        ;
        assert(2 * (y * c - x) <= c && 2 * (x - y * c) <= c) by {
            if y == q {
                assert(y * c == q * c);
                assert(2 * rest <= c);
            } else {
                assert(y * c == q * c + c) by (nonlinear_arith)
                    requires
                        y == q + 1,
                ;
                assert(2 * rest >= c);
            }
        }
        assert(0x80_0000 * c <= x);
        let yc = y * c;
        exact::lemma_common_base(s, 1, e, n * 0x80_0001, d * 0x80_0000, e, e);
        exact::lemma_common_base(n * 0x7f_ffff, d * 0x80_0000, e, s, 1, e, e);
        assert(y * 1 * (c * 0x80_0000) == yc * 0x80_0000) by (nonlinear_arith)
            requires
                yc == y * c,
        ;
        assert(ratio_at_most(s, 1, e, n * 0x80_0001, d * 0x80_0000, e));
        assert(ratio_at_most(n * 0x7f_ffff, d * 0x80_0000, e, s, 1, e));
        lemma_carried_is_same(precision, s, e);
        exact::lemma_scaled(
            n,
            d,
            e,
            num,
            den,
            exponent,
            0x80_0001,
            0x80_0000,
        );
        exact::lemma_scaled(num, den, exponent, n, d, e, 0x7f_ffff, 0x80_0000);
        exact::lemma_transitive(
            r.significand as nat,
            1,
            r.exponent as int,
            s,
            1,
            e,
            n * 0x80_0001,
            d * 0x80_0000,
            e,
        );
        exact::lemma_transitive(
            r.significand as nat,
            1,
            r.exponent as int,
            n * 0x80_0001,
            d * 0x80_0000,
            e,
            up,
            wide,
            exponent,
        );
        exact::lemma_transitive(
            n * 0x7f_ffff,
            d * 0x80_0000,
            e,
            s,
            1,
            e,
            r.significand as nat,
            1,
            r.exponent as int,
        );
        exact::lemma_transitive(
            down,
            wide,
            exponent,
            n * 0x7f_ffff,
            d * 0x80_0000,
            e,
            r.significand as nat,
            1,
            r.exponent as int,
        );
    }
}

/// Rounding keeps the order of two ratios.
pub proof fn lemma_rounding_keeps_order(
    precision: Precision,
    n1: nat,
    d1: nat,
    e1: int,
    n2: nat,
    d2: nat,
    e2: int,
)
    requires
        0 < d1 < 0x40_0000_0000_0000,
        0 < d2 < 0x40_0000_0000_0000,
        n1 < 0x1000_0000_0000_0000_0000_0000_0000,
        n2 < 0x1000_0000_0000_0000_0000_0000_0000,
        -0x4000_0000_0000_0000 <= e1 <= 0x4000_0000_0000_0000,
        -0x4000_0000_0000_0000 <= e2 <= 0x4000_0000_0000_0000,
        ratio_at_most(n1, d1, e1, n2, d2, e2),
    ensures
        at_most(nearest(precision, n1, d1, e1), nearest(precision, n2, d2, e2)),
{
    lemma_small_ratio_is_reachable(precision, n1, d1, e1);
    lemma_small_ratio_is_reachable(precision, n2, d2, e2);
    lemma_nearest_keeps_order(precision, n1, d1, e1, 128, 128, n2, d2, e2, 128, 128);
}

/// A carry into the next power of two keeps the number.
proof fn lemma_carried_is_same(precision: Precision, significand: nat, exponent: int)
    requires
        precision.half() <= significand <= 2 * precision.half(),
        -0x7000_0000_0000_0000 <= exponent <= 0x7000_0000_0000_0000,
    ensures
        ({
            let r = carried(precision, significand, exponent);
            exact::same_ratio(
                r.significand as nat,
                1,
                r.exponent as int,
                significand,
                1,
                exponent,
            )
        }),
{
    lemma2_to64();
    let r = carried(precision, significand, exponent);
    exact::lemma_common_base(
        r.significand as nat,
        1,
        r.exponent as int,
        significand,
        1,
        exponent,
        exponent,
    );
    exact::lemma_common_base(
        significand,
        1,
        exponent,
        r.significand as nat,
        1,
        r.exponent as int,
        exponent,
    );
    let p = pow2((r.exponent - exponent) as nat) as int;
    let q = pow2(0) as int;
    let x = r.significand as int;
    let y = significand as int;
    assert(x * p * 1 == y * q * 1) by (nonlinear_arith)
        requires
            q == 1,
            (p == 1 && x == y) || (p == 2 && 2 * x == y),
    ;
}

/// Ten times a number, rounded to an integer, ties to even.
pub open spec fn tenths_of(a: Float) -> nat {
    if a.exponent >= 0 {
        10 * (a.significand as nat * pow2(a.exponent as nat))
    } else {
        round_half_even(10 * a.significand as nat, pow2((-a.exponent) as nat))
    }
}

/// Ten times a number, rounded to an integer, at most `max`.
pub fn tenths(a: Float, max: u64) -> (r: u64)
    requires
        a.wf(),
    ensures
        r == if tenths_of(a) <= max {
            tenths_of(a)
        } else {
            max as nat
        },
{
    if a.exponent >= 0 {
        let whole = truncated(a, u64::MAX);
        proof {
            assert(floor(a) == a.significand as nat * pow2(a.exponent as nat));
        }
        let scaled: u128 = whole as u128 * 10;
        return if scaled <= max as u128 {
            scaled as u64
        } else {
            max
        };
    }
    if a.exponent <= -64 {
        proof {
            lemma2_to64();
            lemma_pow2_strictly_increases_or_equal(64, (-a.exponent) as nat);
            let x = 10 * a.significand as int;
            let p = pow2((-a.exponent) as nat) as int;
            assert(x / p == 0 && x % p == x) by (nonlinear_arith)
                requires
                    0 <= 2 * x < p,
            ;
        }
        return 0;
    }
    let power = power_of_two((-a.exponent) as u64);
    let scaled: u128 = a.significand as u128 * 10;
    let quotient: u128 = scaled / power;
    let rest: u128 = scaled % power;
    proof {
        let x = scaled as int;
        let p = power as int;
        assert(0 <= x / p <= x && 0 <= x % p < p) by (nonlinear_arith)
            requires
                x >= 0,
                p >= 1,
        ;
    }
    let value: u128 = if 2 * rest < power {
        quotient
    } else if 2 * rest > power {
        quotient + 1
    } else if quotient % 2 == 0 {
        quotient
    } else {
        quotient + 1
    };
    if value <= max as u128 {
        value as u64
    } else {
        max
    }
}

} // verus!
