//! What rounding leaves of a number: it is exact where it can be, hardly off elsewhere, and never
//! changes the order of two numbers.

use vstd::arithmetic::power2::*;
use vstd::prelude::*;

use crate::float;
use crate::float::{Float, Precision};

verus! {

/// Whether two numbers `(n / d) * 2^e` are the same.
pub open spec fn same_ratio(n1: nat, d1: nat, e1: int, n2: nat, d2: nat, e2: int) -> bool {
    float::ratio_at_most(n1, d1, e1, n2, d2, e2) && float::ratio_at_most(n2, d2, e2, n1, d1, e1)
}

/// Whether a number is exactly `num / den`, at least that, or at most that.
pub open spec fn equals(a: Float, num: nat, den: nat) -> bool {
    same_ratio(a.significand as nat, 1, a.exponent as int, num, den, 0)
}

pub open spec fn reaches(a: Float, num: nat, den: nat) -> bool {
    float::ratio_at_most(num, den, 0, a.significand as nat, 1, a.exponent as int)
}

pub open spec fn keeps_within(a: Float, num: nat, den: nat) -> bool {
    float::ratio_at_most(a.significand as nat, 1, a.exponent as int, num, den, 0)
}

/// The order of two ratios, over a common power of two.
pub proof fn lemma_common_base(n1: nat, d1: nat, e1: int, n2: nat, d2: nat, e2: int, m: int)
    requires
        m <= e1,
        m <= e2,
    ensures
        float::ratio_at_most(n1, d1, e1, n2, d2, e2) == (n1 * pow2((e1 - m) as nat) * d2 <= n2
            * pow2((e2 - m) as nat) * d1),
{
    lemma2_to64();
    let x = n1 as int;
    let y = n2 as int;
    let c = d1 as int;
    let d = d2 as int;
    if e1 >= e2 {
        let g = pow2((e1 - e2) as nat) as int;
        let q = pow2((e2 - m) as nat) as int;
        lemma_pow2_pos((e2 - m) as nat);
        lemma_pow2_adds((e1 - e2) as nat, (e2 - m) as nat);
        let p = pow2((e1 - m) as nat) as int;
        assert(p == g * q);
        assert(x * (g * q) * d == (x * g * d) * q) by (nonlinear_arith);
        assert(y * q * c == (y * c) * q) by (nonlinear_arith);
        let l = x * g * d;
        let r = y * c;
        assert(l * q <= r * q <==> l <= r) by (nonlinear_arith)
            requires
                q > 0,
        ;
    } else {
        let g = pow2((e2 - e1) as nat) as int;
        let q = pow2((e1 - m) as nat) as int;
        lemma_pow2_pos((e1 - m) as nat);
        lemma_pow2_adds((e2 - e1) as nat, (e1 - m) as nat);
        let p = pow2((e2 - m) as nat) as int;
        assert(p == g * q);
        assert(y * (g * q) * c == (y * g * c) * q) by (nonlinear_arith);
        assert(x * q * d == (x * d) * q) by (nonlinear_arith);
        let l = x * d;
        let r = y * g * c;
        assert(l * q <= r * q <==> l <= r) by (nonlinear_arith)
            requires
                q > 0,
        ;
    }
}

pub open spec fn least(a: int, b: int) -> int {
    if a <= b {
        a
    } else {
        b
    }
}

/// The order of ratios is transitive.
pub proof fn lemma_transitive(
    n1: nat,
    d1: nat,
    e1: int,
    n2: nat,
    d2: nat,
    e2: int,
    n3: nat,
    d3: nat,
    e3: int,
)
    requires
        d1 > 0,
        d2 > 0,
        d3 > 0,
        float::ratio_at_most(n1, d1, e1, n2, d2, e2),
        float::ratio_at_most(n2, d2, e2, n3, d3, e3),
    ensures
        float::ratio_at_most(n1, d1, e1, n3, d3, e3),
{
    let m = least(least(e1, e2), e3);
    lemma_common_base(n1, d1, e1, n2, d2, e2, m);
    lemma_common_base(n2, d2, e2, n3, d3, e3, m);
    lemma_common_base(n1, d1, e1, n3, d3, e3, m);
    let x = (n1 * pow2((e1 - m) as nat)) as int;
    let y = (n2 * pow2((e2 - m) as nat)) as int;
    let z = (n3 * pow2((e3 - m) as nat)) as int;
    let a = d1 as int;
    let b = d2 as int;
    let c = d3 as int;
    assert(x * c <= z * a) by (nonlinear_arith)
        requires
            x * b <= y * a,
            y * c <= z * b,
            a > 0,
            b > 0,
            c > 0,
    ;
}

/// The order of two ratios is that of their multiples.
pub proof fn lemma_scaled(
    n1: nat,
    d1: nat,
    e1: int,
    n2: nat,
    d2: nat,
    e2: int,
    factor: nat,
    divisor: nat,
)
    requires
        float::ratio_at_most(n1, d1, e1, n2, d2, e2),
    ensures
        float::ratio_at_most(n1 * factor, d1 * divisor, e1, n2 * factor, d2 * divisor, e2),
{
    let m = least(e1, e2);
    lemma_common_base(n1, d1, e1, n2, d2, e2, m);
    lemma_common_base(n1 * factor, d1 * divisor, e1, n2 * factor, d2 * divisor, e2, m);
    let p = pow2((e1 - m) as nat) as int;
    let q = pow2((e2 - m) as nat) as int;
    let x = n1 as int;
    let y = n2 as int;
    let c = d1 as int;
    let d = d2 as int;
    let f = factor as int;
    let g = divisor as int;
    assert((x * f) * p * (d * g) == (x * p * d) * (f * g)) by (nonlinear_arith);
    assert((y * f) * q * (c * g) == (y * q * c) * (f * g)) by (nonlinear_arith);
    let l = x * p * d;
    let r = y * q * c;
    let k = f * g;
    assert(k >= 0) by (nonlinear_arith)
        requires
            f >= 0,
            g >= 0,
            k == f * g,
    ;
    assert(l * k <= r * k) by (nonlinear_arith)
        requires
            l <= r,
            k >= 0,
    ;
}

/// Of two ratios one is at most the other.
pub proof fn lemma_total(n1: nat, d1: nat, e1: int, n2: nat, d2: nat, e2: int)
    ensures
        float::ratio_at_most(n1, d1, e1, n2, d2, e2) || float::ratio_at_most(
            n2,
            d2,
            e2,
            n1,
            d1,
            e1,
        ),
{
    let m = least(e1, e2);
    lemma_common_base(n1, d1, e1, n2, d2, e2, m);
    lemma_common_base(n2, d2, e2, n1, d1, e1, m);
}

/// One number is at most another if and only if the other is not smaller.
pub proof fn lemma_at_most_is_not_less(a: Float, b: Float)
    ensures
        float::at_most(a, b) == !float::less(b, a),
{
    lemma2_to64();
    let l = least(a.exponent as int, b.exponent as int);
    lemma_common_base(
        a.significand as nat,
        1,
        a.exponent as int,
        b.significand as nat,
        1,
        b.exponent as int,
        l,
    );
}

/// A number that the format holds is its own rounding.
proof fn lemma_number_is_its_rounding(a: Float)
    requires
        a.wf(),
        a.within(0x1000_0000_0000_0000),
    ensures
        ({
            let r = float::nearest(a.precision, a.significand as nat, 1, a.exponent as int);
            float::at_most(a, r) && float::at_most(r, a)
        }),
{
    lemma_total(
        a.significand as nat,
        1,
        a.exponent as int,
        a.significand as nat,
        1,
        a.exponent as int,
    );
    float::lemma_rounding_is_exact(
        a.precision,
        a.significand as nat,
        1,
        a.exponent as int,
        a.significand as nat,
        a.exponent as int,
    );
}

/// The order of numbers is transitive.
pub proof fn lemma_at_most_is_transitive(a: Float, b: Float, c: Float)
    requires
        float::at_most(a, b),
        float::at_most(b, c),
    ensures
        float::at_most(a, c),
{
    lemma_transitive(
        a.significand as nat,
        1,
        a.exponent as int,
        b.significand as nat,
        1,
        b.exponent as int,
        c.significand as nat,
        1,
        c.exponent as int,
    );
}

/// An integer of up to 53 bits is held exactly.
pub proof fn lemma_integer_is_exact(n: nat)
    requires
        n < 0x20_0000_0000_0000,
    ensures
        equals(float::of_nat(Precision::Double, n), n, 1),
{
    lemma_total(n, 1, 0, n, 1, 0);
    float::lemma_rounding_is_exact(Precision::Double, n, 1, 0, n, 0);
}

/// A fraction that is rounded keeps its place among the numbers of the format: a number that is at
/// most the fraction is not above its rounding, and one that is clearly above it is above its
/// rounding, too. The same holds below.
pub proof fn lemma_fraction_keeps_its_place(a: Float, num: nat, den: nat)
    requires
        a.wf(),
        a.precision == Precision::Double,
        a.within(0x1000_0000_0000_0000),
        0 < den < 0x1_0000_0000,
        num < 0x1_0000_0000_0000,
    ensures
        keeps_within(a, num, den) ==> !float::less(float::ratio(num, den), a),
        reaches(a, num, den) ==> !float::less(a, float::ratio(num, den)),
        num > 0 && reaches(a, num * 1001, den * 1000) ==> float::less(float::ratio(num, den), a),
        num > 0 && keeps_within(a, num * 999, den * 1000) ==> float::less(
            a,
            float::ratio(num, den),
        ),
{
    let s = a.significand as nat;
    let e = a.exponent as int;
    let r = float::ratio(num, den);
    let own = float::nearest(a.precision, s, 1, e);
    lemma_number_is_its_rounding(a);
    lemma_at_most_is_not_less(a, r);
    lemma_at_most_is_not_less(r, a);
    if keeps_within(a, num, den) {
        float::lemma_rounding_keeps_order(Precision::Double, s, 1, e, num, den, 0);
        lemma_at_most_is_transitive(a, own, r);
    }
    if reaches(a, num, den) {
        float::lemma_rounding_keeps_order(Precision::Double, num, den, 0, s, 1, e);
        lemma_at_most_is_transitive(r, own, a);
    }
    float::lemma_rounding_error(num, den, 0);
    let up = num * 0x10_0000_0000_0001;
    let down = num * 0xf_ffff_ffff_ffff;
    let wide = den * 0x10_0000_0000_0000;
    if num > 0 && reaches(a, num * 1001, den * 1000) && float::at_most(a, r) {
        lemma_transitive(num * 1001, den * 1000, 0, s, 1, e, r.significand as nat, 1, r.exponent as int);
        lemma_transitive(
            num * 1001,
            den * 1000,
            0,
            r.significand as nat,
            1,
            r.exponent as int,
            up,
            wide,
            0,
        );
        lemma_common_base(num * 1001, den * 1000, 0, up, wide, 0, 0);
        lemma2_to64();
        let n = num as int;
        let d = den as int;
        assert(false) by (nonlinear_arith)
            requires
                (n * 1001) * 1 * (d * 0x10_0000_0000_0000) <= (n * 0x10_0000_0000_0001) * 1 * (d
                    * 1000),
                n > 0,
                d > 0,
        ;
    }
    if num > 0 && keeps_within(a, num * 999, den * 1000) && float::at_most(r, a) {
        lemma_transitive(
            down,
            wide,
            0,
            r.significand as nat,
            1,
            r.exponent as int,
            s,
            1,
            e,
        );
        lemma_transitive(down, wide, 0, s, 1, e, num * 999, den * 1000, 0);
        lemma_common_base(down, wide, 0, num * 999, den * 1000, 0, 0);
        lemma2_to64();
        let n = num as int;
        let d = den as int;
        assert(false) by (nonlinear_arith)
            requires
                (n * 0xf_ffff_ffff_ffff) * 1 * (d * 1000) <= (n * 999) * 1 * (d
                    * 0x10_0000_0000_0000),
                n > 0,
                d > 0,
        ;
    }
}

/// The quotient of two numbers, before it is rounded, is that of the integers that they are.
pub proof fn lemma_quotient_of_integers(a: Float, m: nat, b: Float, n: nat)
    requires
        equals(a, m, 1),
        equals(b, n, 1),
        b.significand > 0,
        n > 0,
    ensures
        same_ratio(
            a.significand as nat,
            b.significand as nat,
            a.exponent - b.exponent,
            m,
            n,
            0,
        ),
{
    let e = a.exponent as int;
    let f = b.exponent as int;
    let low = least(least(e, f), 0);
    let s = a.significand as nat;
    let t = b.significand as nat;
    lemma_common_base(s, 1, e, m, 1, 0, low);
    lemma_common_base(m, 1, 0, s, 1, e, low);
    lemma_common_base(t, 1, f, n, 1, 0, low);
    lemma_common_base(n, 1, 0, t, 1, f, low);
    lemma_common_base(s, t, e, m, n, f, low);
    lemma_common_base(m, n, f, s, t, e, low);
    let p = pow2((e - low) as nat) as int;
    let q = pow2((f - low) as nat) as int;
    let o = pow2((0 - low) as nat) as int;
    let x = s as int;
    let y = t as int;
    let mm = m as int;
    let nn = n as int;
    assert(x * p * nn == mm * q * y) by (nonlinear_arith)
        requires
            x * p * 1 == mm * o * 1,
            y * q * 1 == nn * o * 1,
    ;
}

/// A part of a whole is a share in hundredths exactly where the integers say so.
pub proof fn lemma_share_is_exact(part: nat, whole: nat, percent: nat)
    requires
        part <= whole,
        0 < whole < 0x100_0000_0000,
        0 < percent <= 100,
    ensures
        crate::metrics::is_share(part, whole, percent) == (part * 100 >= percent * whole),
{
    let a = float::of_nat(Precision::Double, part);
    let b = float::of_nat(Precision::Double, whole);
    lemma_integer_is_exact(part);
    lemma_integer_is_exact(whole);
    float::lemma_ratio_is_normal(part, 1);
    float::lemma_ratio_is_normal(whole, 1);
    lemma_quotient_of_integers(a, part, b, whole);
    let s = a.significand as nat;
    let t = b.significand as nat;
    let e = a.exponent - b.exponent;
    let q = float::quotient(a, b);
    let r = float::ratio(percent, 100);
    lemma2_to64();
    lemma_at_most_is_not_less(r, q);
    lemma_common_base(percent, 100, 0, part, whole, 0, 0);
    let x = part as int;
    let y = whole as int;
    let p = percent as int;
    assert(p * 1 * y == p * y && x * 1 * 100 == x * 100) by (nonlinear_arith);
    if part * 100 >= percent * whole {
        lemma_transitive(percent, 100, 0, part, whole, 0, s, t, e);
        float::lemma_rounding_keeps_order(Precision::Double, percent, 100, 0, s, t, e);
    } else if float::at_most(r, q) {
        float::lemma_rounding_error(percent, 100, 0);
        float::lemma_rounding_error(s, t, e);
        let down = percent * 0xf_ffff_ffff_ffff;
        let wide = 100 * 0x10_0000_0000_0000nat;
        let up = part * 0x10_0000_0000_0001;
        let broad = whole * 0x10_0000_0000_0000;
        lemma_transitive(
            down,
            wide,
            0,
            r.significand as nat,
            1,
            r.exponent as int,
            q.significand as nat,
            1,
            q.exponent as int,
        );
        lemma_scaled(s, t, e, part, whole, 0, 0x10_0000_0000_0001, 0x10_0000_0000_0000);
        lemma_transitive(
            q.significand as nat,
            1,
            q.exponent as int,
            s * 0x10_0000_0000_0001,
            t * 0x10_0000_0000_0000,
            e,
            up,
            broad,
            0,
        );
        lemma_transitive(
            down,
            wide,
            0,
            q.significand as nat,
            1,
            q.exponent as int,
            up,
            broad,
            0,
        );
        lemma_common_base(down, wide, 0, up, broad, 0, 0);
        assert(p * y <= 100 * y) by (nonlinear_arith)
            requires
                p <= 100,
                y > 0,
        ;
        let py = p * y;
        assert((p * 0xf_ffff_ffff_ffff) * 1 * (y * 0x10_0000_0000_0000) == py * 0xf_ffff_ffff_ffff
            * 0x10_0000_0000_0000) by (nonlinear_arith)
            requires
                py == p * y,
        ;
        assert(false) by (nonlinear_arith)
            requires
                py * 0xf_ffff_ffff_ffff * 0x10_0000_0000_0000 <= (x * 0x10_0000_0000_0001) * 1
                    * 0x640_0000_0000_0000,
                x * 100 < py,
                py <= 100 * 0x100_0000_0000,
        ;
    }
}

/// The product of a bitrate and a share in hundredths is hardly rounded at all.
pub proof fn lemma_bitrate_share(bitrate: u32, percent: nat)
    requires
        0 < percent <= 200,
    ensures
        ({
            let share = crate::metrics::share_of(bitrate, percent);
            &&& share.wf()
            &&& share.precision == Precision::Double
            &&& share.within(1000)
            &&& keeps_within(share, bitrate as nat * percent * 1001, 100_000)
            &&& reaches(share, bitrate as nat * percent * 999, 100_000)
        }),
{
    let b = bitrate as nat;
    let n = float::of_nat(Precision::Double, b);
    let r = float::ratio(percent, 100);
    let share = float::product(n, r);
    lemma_integer_is_exact(b);
    float::lemma_ratio_is_normal(b, 1);
    float::lemma_ratio_is_normal(percent, 100);
    float::lemma_product_is_normal(n, r);
    float::lemma_significands(n, r);
    float::lemma_rounding_error(percent, 100, 0);
    let s = (n.significand * r.significand) as nat;
    let e = n.exponent + r.exponent;
    float::lemma_rounding_error(s, 1, e);
    lemma2_to64();
    // The product before rounding, between the two multiples of the integer.
    let k = r.significand as nat;
    let f = r.exponent as int;
    let up = percent * 0x10_0000_0000_0001;
    let down = percent * 0xf_ffff_ffff_ffff;
    let wide = 100 * 0x10_0000_0000_0000nat;
    lemma_multiplied(n, b, k, f, up, wide);
    lemma_multiplied(n, b, k, f, down, wide);
    let big = b * up;
    let small = b * down;
    lemma_scaled(s, 1, e, big, wide, 0, 0x10_0000_0000_0001, 0x10_0000_0000_0000);
    lemma_scaled(small, wide, 0, s, 1, e, 0xf_ffff_ffff_ffff, 0x10_0000_0000_0000);
    let v = share.significand as nat;
    let g = share.exponent as int;
    lemma_transitive(
        v,
        1,
        g,
        s * 0x10_0000_0000_0001,
        1 * 0x10_0000_0000_0000,
        e,
        big * 0x10_0000_0000_0001,
        wide * 0x10_0000_0000_0000,
        0,
    );
    lemma_transitive(
        small * 0xf_ffff_ffff_ffff,
        wide * 0x10_0000_0000_0000,
        0,
        s * 0xf_ffff_ffff_ffff,
        1 * 0x10_0000_0000_0000,
        e,
        v,
        1,
        g,
    );
    let top = b * percent * 1001;
    let bottom = b * percent * 999;
    lemma_common_base(
        big * 0x10_0000_0000_0001,
        wide * 0x10_0000_0000_0000,
        0,
        top,
        100_000,
        0,
        0,
    );
    lemma_common_base(
        bottom,
        100_000,
        0,
        small * 0xf_ffff_ffff_ffff,
        wide * 0x10_0000_0000_0000,
        0,
        0,
    );
    let bp = (b * percent) as int;
    assert(b * (percent * 0x10_0000_0000_0001) == bp * 0x10_0000_0000_0001) by (nonlinear_arith)
        requires
            bp == b * percent,
    ;
    assert(b * (percent * 0xf_ffff_ffff_ffff) == bp * 0xf_ffff_ffff_ffff) by (nonlinear_arith)
        requires
            bp == b * percent,
    ;
    assert(bp >= 0);
    lemma_transitive(
        v,
        1,
        g,
        big * 0x10_0000_0000_0001,
        wide * 0x10_0000_0000_0000,
        0,
        top,
        100_000,
        0,
    );
    lemma_transitive(
        bottom,
        100_000,
        0,
        small * 0xf_ffff_ffff_ffff,
        wide * 0x10_0000_0000_0000,
        0,
        v,
        1,
        g,
    );
}

/// The bounds of a number times an integer.
pub proof fn lemma_multiplied(a: Float, n: nat, k: nat, f: int, num: nat, den: nat)
    requires
        equals(a, n, 1),
    ensures
        float::ratio_at_most(k, 1, f, num, den, 0) ==> float::ratio_at_most(
            (a.significand * k) as nat,
            1,
            a.exponent + f,
            n * num,
            den,
            0,
        ),
        float::ratio_at_most(num, den, 0, k, 1, f) ==> float::ratio_at_most(
            n * num,
            den,
            0,
            (a.significand * k) as nat,
            1,
            a.exponent + f,
        ),
{
    let s = a.significand as nat;
    let e = a.exponent as int;
    let l1 = least(e, 0);
    let l2 = least(f, 0);
    let low = l1 + l2;
    lemma_common_base(s, 1, e, n, 1, 0, l1);
    lemma_common_base(n, 1, 0, s, 1, e, l1);
    lemma_common_base(k, 1, f, num, den, 0, l2);
    lemma_common_base(num, den, 0, k, 1, f, l2);
    lemma_common_base((s * k) as nat, 1, e + f, n * num, den, 0, low);
    lemma_common_base(n * num, den, 0, (s * k) as nat, 1, e + f, low);
    lemma_pow2_adds((e - l1) as nat, (f - l2) as nat);
    lemma_pow2_adds((0 - l1) as nat, (0 - l2) as nat);
    let p = pow2((e - l1) as nat) as int;
    let q = pow2((f - l2) as nat) as int;
    let o = pow2((0 - l1) as nat) as int;
    let w = pow2((0 - l2) as nat) as int;
    lemma_pow2_pos((0 - l1) as nat);
    let x = s as int;
    let y = k as int;
    let m = n as int;
    let c = num as int;
    let d = den as int;
    let xp = x * p;
    assert(xp == m * o) by (nonlinear_arith)
        requires
            x * p * 1 == m * o * 1,
            xp == x * p,
    ;
    let left = y * q * d;
    let right = c * w * 1;
    assert((x * y) * (p * q) * d == (m * o) * left) by (nonlinear_arith)
        requires
            xp == x * p,
            xp == m * o,
            left == y * q * d,
    ;
    assert((m * c) * (o * w) * 1 == (m * o) * right) by (nonlinear_arith)
        requires
            right == c * w * 1,
    ;
    let mo = m * o;
    assert(mo >= 0) by (nonlinear_arith)
        requires
            m >= 0,
            o >= 0,
            mo == m * o,
    ;
    assert(left <= right ==> mo * left <= mo * right) by (nonlinear_arith)
        requires
            mo >= 0,
    ;
    assert(right <= left ==> mo * right <= mo * left) by (nonlinear_arith)
        requires
            mo >= 0,
    ;
}

/// A bitrate with a quarter to spare is computed exactly.
pub proof fn lemma_quarter_more(bitrate: u32)
    ensures
        equals(crate::metrics::share_of(bitrate, 125), 5 * bitrate as nat, 4),
{
    let b = bitrate as nat;
    let n = float::of_nat(Precision::Double, b);
    let r = float::ratio(125, 100);
    let share = float::product(n, r);
    let k = r.significand as nat;
    let f = r.exponent as int;
    let s = (n.significand * k) as nat;
    let e = n.exponent + f;
    lemma_integer_is_exact(b);
    float::lemma_ratio_is_normal(b, 1);
    float::lemma_ratio_is_normal(125, 100);
    float::lemma_significands(n, r);
    lemma2_to64();
    lemma_common_base(125, 100, 0, 5, 1, -2, -2);
    lemma_common_base(5, 1, -2, 125, 100, 0, -2);
    float::lemma_rounding_is_exact(Precision::Double, 125, 100, 0, 5, -2);
    lemma_common_base(5, 1, -2, 5, 4, 0, -2);
    lemma_common_base(5, 4, 0, 5, 1, -2, -2);
    lemma_transitive(k, 1, f, 5, 1, -2, 5, 4, 0);
    lemma_transitive(5, 4, 0, 5, 1, -2, k, 1, f);
    lemma_multiplied(n, b, k, f, 5, 4);
    let m = b * 5;
    lemma_common_base(m, 1, -2, m, 4, 0, -2);
    lemma_common_base(m, 4, 0, m, 1, -2, -2);
    lemma_transitive(s, 1, e, m, 4, 0, m, 1, -2);
    lemma_transitive(m, 1, -2, m, 4, 0, s, 1, e);
    float::lemma_rounding_is_exact(Precision::Double, s, 1, e, m, -2);
    let v = share.significand as nat;
    let g = share.exponent as int;
    lemma_transitive(v, 1, g, m, 1, -2, m, 4, 0);
    lemma_transitive(m, 4, 0, m, 1, -2, v, 1, g);
}

/// A number that reaches a fraction exceeds every smaller number.
pub proof fn lemma_between(a: Float, num: nat, den: nat, b: Float)
    requires
        den > 0,
    ensures
        keeps_within(a, num, den) && reaches(b, num, den) ==> float::at_most(a, b),
{
    if keeps_within(a, num, den) && reaches(b, num, den) {
        lemma_transitive(
            a.significand as nat,
            1,
            a.exponent as int,
            num,
            den,
            0,
            b.significand as nat,
            1,
            b.exponent as int,
        );
    }
}

/// A greater fraction is reached only by what reaches the smaller one, and a smaller one bounds only
/// what the greater one bounds.
pub proof fn lemma_fractions(a: Float, n1: nat, d1: nat, n2: nat, d2: nat)
    requires
        d1 > 0,
        d2 > 0,
        n1 * d2 <= n2 * d1,
    ensures
        reaches(a, n2, d2) ==> reaches(a, n1, d1),
        keeps_within(a, n1, d1) ==> keeps_within(a, n2, d2),
        n1 * d2 < n2 * d1 && keeps_within(a, n1, d1) ==> !reaches(a, n2, d2),
{
    lemma2_to64();
    let s = a.significand as nat;
    let e = a.exponent as int;
    lemma_common_base(n1, d1, 0, n2, d2, 0, 0);
    lemma_common_base(n2, d2, 0, n1, d1, 0, 0);
    let x = n1 as int;
    let y = n2 as int;
    let c = d1 as int;
    let d = d2 as int;
    assert(x * 1 * d == x * d && y * 1 * c == y * c) by (nonlinear_arith);
    if reaches(a, n2, d2) {
        lemma_transitive(n1, d1, 0, n2, d2, 0, s, 1, e);
    }
    if keeps_within(a, n1, d1) {
        lemma_transitive(s, 1, e, n1, d1, 0, n2, d2, 0);
        if reaches(a, n2, d2) {
            lemma_transitive(n2, d2, 0, s, 1, e, n1, d1, 0);
        }
    }
}

/// A number times a factor that is bounded by a fraction.
proof fn lemma_product_bound(s: nat, e: int, k: nat, f: int, num: nat, den: nat)
    ensures
        float::ratio_at_most(k, 1, f, num, den, 0) ==> float::ratio_at_most(
            s * k,
            1,
            e + f,
            s * num,
            den,
            e,
        ),
        float::ratio_at_most(num, den, 0, k, 1, f) ==> float::ratio_at_most(
            s * num,
            den,
            e,
            s * k,
            1,
            e + f,
        ),
{
    let l = least(f, 0);
    lemma_common_base(k, 1, f, num, den, 0, l);
    lemma_common_base(num, den, 0, k, 1, f, l);
    lemma_common_base(s * k, 1, e + f, s * num, den, e, e + l);
    lemma_common_base(s * num, den, e, s * k, 1, e + f, e + l);
    let p = pow2((f - l) as nat) as int;
    let q = pow2((0 - l) as nat) as int;
    let x = s as int;
    let y = k as int;
    let c = num as int;
    let d = den as int;
    let left = y * p * d;
    let right = c * q * 1;
    assert((x * y) * p * d == x * left) by (nonlinear_arith)
        requires
            left == y * p * d,
    ;
    assert((x * c) * q * 1 == x * right) by (nonlinear_arith)
        requires
            right == c * q * 1,
    ;
    assert(left <= right ==> x * left <= x * right) by (nonlinear_arith)
        requires
            x >= 0,
    ;
    assert(right <= left ==> x * right <= x * left) by (nonlinear_arith)
        requires
            x >= 0,
    ;
}

/// A share in hundredths of a number is that share to within a thousandth.
pub proof fn lemma_share_of_number(a: Float, percent: nat)
    requires
        a.wf(),
        a.precision == Precision::Double,
        a.within(0x1000_0000),
        0 < percent <= 200,
    ensures
        ({
            let r = float::product(a, float::ratio(percent, 100));
            let s = a.significand as nat;
            let e = a.exponent as int;
            &&& r.wf()
            &&& r.precision == Precision::Double
            &&& float::ratio_at_most(
                r.significand as nat,
                1,
                r.exponent as int,
                s * percent * 1001,
                100_000,
                e,
            )
            &&& float::ratio_at_most(
                s * percent * 999,
                100_000,
                e,
                r.significand as nat,
                1,
                r.exponent as int,
            )
        }),
{
    let r = float::ratio(percent, 100);
    let share = float::product(a, r);
    float::lemma_ratio_is_normal(percent, 100);
    float::lemma_product_is_normal(a, r);
    float::lemma_significands(a, r);
    float::lemma_rounding_error(percent, 100, 0);
    let s = a.significand as nat;
    let e = a.exponent as int;
    let k = r.significand as nat;
    let f = r.exponent as int;
    float::lemma_rounding_error((s * k) as nat, 1, e + f);
    lemma2_to64();
    let up = percent * 0x10_0000_0000_0001;
    let down = percent * 0xf_ffff_ffff_ffff;
    let wide = 100 * 0x10_0000_0000_0000nat;
    lemma_product_bound(s, e, k, f, up, wide);
    lemma_product_bound(s, e, k, f, down, wide);
    let big = s * up;
    let small = s * down;
    let v = share.significand as nat;
    let g = share.exponent as int;
    lemma_scaled(s * k, 1, e + f, big, wide, e, 0x10_0000_0000_0001, 0x10_0000_0000_0000);
    lemma_scaled(small, wide, e, s * k, 1, e + f, 0xf_ffff_ffff_ffff, 0x10_0000_0000_0000);
    lemma_transitive(
        v,
        1,
        g,
        s * k * 0x10_0000_0000_0001,
        1 * 0x10_0000_0000_0000,
        e + f,
        big * 0x10_0000_0000_0001,
        wide * 0x10_0000_0000_0000,
        e,
    );
    lemma_transitive(
        small * 0xf_ffff_ffff_ffff,
        wide * 0x10_0000_0000_0000,
        e,
        s * k * 0xf_ffff_ffff_ffff,
        1 * 0x10_0000_0000_0000,
        e + f,
        v,
        1,
        g,
    );
    let top = s * percent * 1001;
    let bottom = s * percent * 999;
    let sp = (s * percent) as int;
    assert(s * (percent * 0x10_0000_0000_0001) == sp * 0x10_0000_0000_0001) by (nonlinear_arith)
        requires
            sp == s * percent,
    ;
    assert(s * (percent * 0xf_ffff_ffff_ffff) == sp * 0xf_ffff_ffff_ffff) by (nonlinear_arith)
        requires
            sp == s * percent,
    ;
    lemma_common_base(
        big * 0x10_0000_0000_0001,
        wide * 0x10_0000_0000_0000,
        e,
        top,
        100_000,
        e,
        e,
    );
    lemma_common_base(
        bottom,
        100_000,
        e,
        small * 0xf_ffff_ffff_ffff,
        wide * 0x10_0000_0000_0000,
        e,
        e,
    );
    lemma_transitive(
        v,
        1,
        g,
        big * 0x10_0000_0000_0001,
        wide * 0x10_0000_0000_0000,
        e,
        top,
        100_000,
        e,
    );
    lemma_transitive(
        bottom,
        100_000,
        e,
        small * 0xf_ffff_ffff_ffff,
        wide * 0x10_0000_0000_0000,
        e,
        v,
        1,
        g,
    );
}

/// The nearest integer is less than one away.
pub proof fn lemma_nearest_integer(a: Float)
    ensures
        keeps_within(a, float::rounded(a) + 1, 1),
        float::rounded(a) > 0 ==> reaches(a, (float::rounded(a) - 1) as nat, 1),
{
    lemma2_to64();
    let s = a.significand as nat;
    let e = a.exponent as int;
    let r = float::rounded(a);
    let low = least(e, 0);
    lemma_common_base(s, 1, e, r + 1, 1, 0, low);
    let x = s as int;
    if e >= 0 {
        let p = pow2(e as nat) as int;
        if r > 0 {
            lemma_common_base((r - 1) as nat, 1, 0, s, 1, e, low);
        }
        assert(x * p * 1 == x * p) by (nonlinear_arith);
    } else {
        let p = pow2((-e) as nat) as int;
        lemma_pow2_pos((-e) as nat);
        let t = 2 * x + p;
        let q = t / (2 * p);
        assert(q * (2 * p) <= t < (q + 1) * (2 * p)) by (nonlinear_arith)
            requires
                q == t / (2 * p),
                p > 0,
        ;
        assert(r == q);
        assert(x <= (q + 1) * p) by (nonlinear_arith)
            requires
                2 * x + p < (q + 1) * (2 * p),
                p > 0,
        ;
        assert((q + 1) * p * 1 == (q + 1) * p && x * 1 * 1 == x) by (nonlinear_arith);
        if r > 0 {
            lemma_common_base((r - 1) as nat, 1, 0, s, 1, e, low);
            assert((q - 1) * p <= x) by (nonlinear_arith)
                requires
                    q * (2 * p) <= 2 * x + p,
                    p > 0,
            ;
            assert((q - 1) * p * 1 == (q - 1) * p) by (nonlinear_arith);
        }
    }
}

/// A number is rounded to at least `n` exactly where it is at least `n - 1/2`.
pub proof fn lemma_rounds_to_at_least(a: Float, n: nat)
    requires
        n > 0,
    ensures
        (float::rounded(a) >= n) == reaches(a, (2 * n - 1) as nat, 2),
{
    lemma2_to64();
    let s = a.significand as nat;
    let e = a.exponent as int;
    let low = least(e, 0);
    let h = (2 * n - 1) as nat;
    lemma_common_base(h, 2, 0, s, 1, e, low);
    let x = s as int;
    let m = n as int;
    if e >= 0 {
        let p = pow2(e as nat) as int;
        let v = x * p;
        assert(x * p * 2 == 2 * v) by (nonlinear_arith)
            requires
                v == x * p,
        ;
        assert(h * 1 * 1 == 2 * m - 1);
    } else {
        let p = pow2((-e) as nat) as int;
        lemma_pow2_pos((-e) as nat);
        let t = 2 * x + p;
        let q = t / (2 * p);
        assert(q * (2 * p) <= t < (q + 1) * (2 * p)) by (nonlinear_arith)
            requires
                q == t / (2 * p),
                p > 0,
        ;
        let hp = (2 * m - 1) * p;
        assert(h * p * 1 == hp && x * 1 * 2 == 2 * x) by (nonlinear_arith)
            requires
                hp == (2 * m - 1) * p,
                h == 2 * m - 1,
        ;
        assert(q >= m <==> hp <= 2 * x) by (nonlinear_arith)
            requires
                q * (2 * p) <= 2 * x + p,
                2 * x + p < (q + 1) * (2 * p),
                hp == (2 * m - 1) * p,
                p > 0,
        ;
    }
}

/// Rounding to integers keeps the order.
pub proof fn lemma_rounded_keeps_order(a: Float, b: Float)
    requires
        float::at_most(a, b),
    ensures
        float::rounded(a) <= float::rounded(b),
{
    let n = float::rounded(a);
    if n > 0 {
        lemma_rounds_to_at_least(a, n);
        lemma_rounds_to_at_least(b, n);
        lemma_transitive(
            (2 * n - 1) as nat,
            2,
            0,
            a.significand as nat,
            1,
            a.exponent as int,
            b.significand as nat,
            1,
            b.exponent as int,
        );
    }
}

/// A number that is an integer is rounded to it.
pub proof fn lemma_integer_rounds_to_itself(a: Float, n: nat)
    requires
        equals(a, n, 1),
    ensures
        float::rounded(a) == n,
{
    if n > 0 {
        lemma_rounds_to_at_least(a, n);
        lemma_fractions(a, (2 * n - 1) as nat, 2, n, 1);
    }
    lemma_rounds_to_at_least(a, n + 1);
    lemma_fractions(a, n, 1, (2 * n + 1) as nat, 2);
}

/// An integer of up to 24 bits is held exactly in single precision.
pub proof fn lemma_single_is_exact(n: nat)
    requires
        n < 0x100_0000,
    ensures
        equals(float::of_nat(Precision::Single, n), n, 1),
{
    lemma_total(n, 1, 0, n, 1, 0);
    float::lemma_rounding_is_exact(Precision::Single, n, 1, 0, n, 0);
}

pub proof fn lemma_reflexive(a: Float)
    ensures
        float::at_most(a, a),
{
    lemma_total(
        a.significand as nat,
        1,
        a.exponent as int,
        a.significand as nat,
        1,
        a.exponent as int,
    );
}

/// A part of a whole is at most a share in hundredths exactly where the integers say so.
pub proof fn lemma_smaller_share_is_exact(part: nat, whole: nat, percent: nat)
    requires
        part <= whole,
        0 < whole < 0x100_0000_0000,
        0 < percent <= 100,
    ensures
        ({
            let q = float::quotient(
                float::of_nat(Precision::Double, part),
                float::of_nat(Precision::Double, whole),
            );
            float::less(float::ratio(percent, 100), q) == (part * 100 > percent * whole)
        }),
{
    let a = float::of_nat(Precision::Double, part);
    let b = float::of_nat(Precision::Double, whole);
    lemma_integer_is_exact(part);
    lemma_integer_is_exact(whole);
    float::lemma_ratio_is_normal(part, 1);
    float::lemma_ratio_is_normal(whole, 1);
    lemma_quotient_of_integers(a, part, b, whole);
    let s = a.significand as nat;
    let t = b.significand as nat;
    let e = a.exponent - b.exponent;
    let q = float::quotient(a, b);
    let r = float::ratio(percent, 100);
    lemma2_to64();
    lemma_at_most_is_not_less(q, r);
    lemma_common_base(part, whole, 0, percent, 100, 0, 0);
    let x = part as int;
    let y = whole as int;
    let p = percent as int;
    assert(p * 1 * y == p * y && x * 1 * 100 == x * 100) by (nonlinear_arith);
    if part * 100 <= percent * whole {
        lemma_transitive(s, t, e, part, whole, 0, percent, 100, 0);
        float::lemma_rounding_keeps_order(Precision::Double, s, t, e, percent, 100, 0);
    } else if float::at_most(q, r) {
        float::lemma_rounding_error(percent, 100, 0);
        float::lemma_rounding_error(s, t, e);
        let up = percent * 0x10_0000_0000_0001;
        let wide = 100 * 0x10_0000_0000_0000nat;
        let down = part * 0xf_ffff_ffff_ffff;
        let broad = whole * 0x10_0000_0000_0000;
        lemma_transitive(
            q.significand as nat,
            1,
            q.exponent as int,
            r.significand as nat,
            1,
            r.exponent as int,
            up,
            wide,
            0,
        );
        lemma_scaled(part, whole, 0, s, t, e, 0xf_ffff_ffff_ffff, 0x10_0000_0000_0000);
        lemma_transitive(
            down,
            broad,
            0,
            s * 0xf_ffff_ffff_ffff,
            t * 0x10_0000_0000_0000,
            e,
            q.significand as nat,
            1,
            q.exponent as int,
        );
        lemma_transitive(
            down,
            broad,
            0,
            q.significand as nat,
            1,
            q.exponent as int,
            up,
            wide,
            0,
        );
        lemma_common_base(down, broad, 0, up, wide, 0, 0);
        assert(p * y <= 100 * y) by (nonlinear_arith)
            requires
                p <= 100,
                y > 0,
        ;
        let py = p * y;
        assert((p * 0x10_0000_0000_0001) * 1 * (y * 0x10_0000_0000_0000) == py * 0x10_0000_0000_0001
            * 0x10_0000_0000_0000) by (nonlinear_arith)
            requires
                py == p * y,
        ;
        assert(false) by (nonlinear_arith)
            requires
                (x * 0xf_ffff_ffff_ffff) * 1 * 0x640_0000_0000_0000 <= py * 0x10_0000_0000_0001
                    * 0x10_0000_0000_0000,
                py < x * 100,
                py <= 100 * 0x100_0000_0000,
        ;
    }
}

} // verus!
