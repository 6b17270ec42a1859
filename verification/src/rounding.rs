//! Rounding of an exact ratio to the nearest binary64 magnitude.
//!
//! IEEE 754 defines each arithmetic operation as the exact result, rounded.
//! The default rounding is to the nearest representable number, and of two
//! equally near ones to the one whose last significand bit is zero. `rounded`
//! states that for a non-negative ratio of two integers, counted in units of
//! 2^-1074.

use vstd::prelude::*;
use vstd::arithmetic::power2::{pow2, lemma_pow2_pos, lemma_pow2_unfold, lemma_pow2_adds, lemma_pow2_strictly_increases, lemma2_to64, lemma2_to64_rest};
use vstd::arithmetic::div_mod::lemma_fundamental_div_mod_converse;
use crate::binary64::{HIDDEN_BIT, INFINITY, exponent_field, fraction_field, weight, lemma_weight_increases};

verus! {

/// How many low binary places of `num / den` a significand of 53 bits cannot
/// hold: the least `k` with `num / den < 2^(53 + k)`.
pub open spec fn excess(num: nat, den: nat) -> nat
    decreases num,
{
    if den == 0 || num < den * 0x20_0000_0000_0000 {
        0
    } else {
        1 + excess(num / 2, den)
    }
}

/// Whether a quotient `m` with remainder `r` out of `unit` goes up to `m + 1`:
/// above the half always, at the half when `m` is odd.
pub open spec fn rounds_up(m: nat, r: nat, unit: nat) -> bool {
    2 * r > unit || (2 * r == unit && m % 2 == 1)
}

/// The magnitude with `k` in the exponent bits, counted from the lowest, and
/// the significand `m` added on. A carry out of the significand lands in the
/// exponent, where it belongs; what reaches the exponent of infinity is
/// infinity.
pub open spec fn assemble(k: nat, m: nat, up: bool) -> u64 {
    let raw = k * HIDDEN_BIT + m + if up {
        1nat
    } else {
        0nat
    };
    if raw >= INFINITY {
        INFINITY
    } else {
        raw as u64
    }
}

/// The binary64 magnitude nearest to `num / den` units of 2^-1074, ties to
/// even, infinity from 2^1024 - 2^970 on.
pub open spec fn rounded(num: nat, den: nat) -> u64 {
    let k = excess(num, den);
    let unit = den * pow2(k);
    let m = num / unit;
    let r = num % unit;
    assemble(k, m, rounds_up(m, r, unit))
}

/// What a ratio rounds to is a magnitude up to infinity, never a NaN.
pub proof fn lemma_rounded_is_number(num: nat, den: nat)
    requires
        den > 0,
    ensures
        rounded(num, den) <= INFINITY,
{
    let unit = den * pow2(excess(num, den));
    lemma_pow2_pos(excess(num, den));
    assert(unit > 0) by (nonlinear_arith)
        requires
            unit == den * pow2(excess(num, den)),
            den > 0,
            pow2(excess(num, den)) > 0,
    ;
    vstd::arithmetic::div_mod::lemma_div_pos_is_pos(num as int, unit as int);
}

/// `excess` is the one `k` that brackets the ratio.
pub proof fn lemma_excess_is(num: nat, den: nat, k: nat)
    requires
        den > 0,
        num < den * pow2(53 + k),
        k == 0 || num >= den * pow2(52 + k),
    ensures
        excess(num, den) == k,
    decreases k,
{
    lemma2_to64_rest();
    if k > 0 {
        let p = pow2(52 + k);
        let h = pow2((51 + k) as nat);
        lemma_pow2_unfold(53 + k);
        lemma_pow2_unfold(52 + k);
        assert(pow2(53 + k) == 2 * p);
        assert(p == 2 * h);
        if k > 1 {
            lemma_pow2_strictly_increases(53, 52 + k);
        }
        assert(den * pow2(53) <= den * p) by (nonlinear_arith)
            requires
                pow2(53) <= p,
        ;
        assert(den * (2 * p) == 2 * (den * p)) by (nonlinear_arith);
        assert(den * (2 * h) == 2 * (den * h)) by (nonlinear_arith);
        assert(num / 2 < den * pow2(53 + (k - 1) as nat));
        assert(num / 2 >= den * pow2(52 + (k - 1) as nat));
        lemma_excess_is(num / 2, den, (k - 1) as nat);
    }
}

/// With the excess known, a quotient and remainder by the unit give the
/// rounded magnitude.
pub proof fn lemma_rounded_parts(num: nat, den: nat, k: nat, m: nat, r: nat)
    requires
        den > 0,
        excess(num, den) == k,
        num == m * (den * pow2(k)) + r,
        r < den * pow2(k),
    ensures
        rounded(num, den) == assemble(k, m, rounds_up(m, r, den * pow2(k))),
{
    let unit = den * pow2(k);
    lemma_fundamental_div_mod_converse(num as int, unit as int, m as int, r as int);
}

/// A finite binary64 number rounds to itself.
pub proof fn lemma_rounded_exact(x: u64)
    requires
        x < INFINITY,
    ensures
        rounded(weight(x), 1) == x,
{
    let e = exponent_field(x);
    let f = fraction_field(x);
    lemma2_to64();
    lemma2_to64_rest();
    if e == 0 {
        lemma_excess_is(f, 1, 0);
        assert(f == f * (1 * pow2(0)) + 0) by (nonlinear_arith)
            requires
                pow2(0) == 1,
        ;
        lemma_rounded_parts(f, 1, 0, f, 0);
    } else {
        let k = (e - 1) as nat;
        let p = pow2(k);
        let s = (HIDDEN_BIT + f) as nat;
        lemma_pow2_pos(k);
        lemma_pow2_adds(53, k);
        lemma_pow2_adds(52, k);
        assert(s * p < pow2(53) * p) by (nonlinear_arith)
            requires
                s < pow2(53),
                p > 0,
        ;
        assert(s * p >= pow2(52) * p) by (nonlinear_arith)
            requires
                s >= pow2(52),
                p > 0,
        ;
        lemma_excess_is(s * p, 1, k);
        assert(s * p == s * (1 * p) + 0) by (nonlinear_arith);
        lemma_rounded_parts(s * p, 1, k, s, 0);
    }
}

/// The excess brackets the ratio: below 2^(53 + k), and from 2^(52 + k) on
/// unless `k` is zero.
pub proof fn lemma_excess_brackets(num: nat, den: nat)
    requires
        den > 0,
    ensures
        num < den * pow2(53 + excess(num, den)),
        excess(num, den) > 0 ==> num >= den * pow2(52 + excess(num, den)),
    decreases num,
{
    lemma2_to64_rest();
    if num >= den * 0x20_0000_0000_0000 {
        let k = excess(num / 2, den);
        lemma_excess_brackets(num / 2, den);
        lemma_pow2_unfold(54 + k);
        lemma_pow2_unfold(53 + k);
        let p = pow2(53 + k);
        let h = pow2(52 + k);
        assert(den * (2 * p) == 2 * (den * p)) by (nonlinear_arith);
        assert(den * (2 * h) == 2 * (den * h)) by (nonlinear_arith);
        assert(pow2(53 + (1 + k)) == 2 * p);
        assert(pow2(52 + (1 + k)) == p);
    }
}

/// The weight of an assembled magnitude: the significand times two to the
/// exponent, also where the significand has just carried to 2^53.
pub proof fn lemma_weight_assembled(k: nat, m: nat)
    requires
        m <= 2 * HIDDEN_BIT,
        k == 0 || m >= HIDDEN_BIT,
        k * HIDDEN_BIT + m <= INFINITY,
    ensures
        weight((k * HIDDEN_BIT + m) as u64) == m * pow2(k),
{
    let x = (k * HIDDEN_BIT + m) as u64;
    let h = HIDDEN_BIT as nat;
    lemma2_to64();
    if m < HIDDEN_BIT {
        assert(exponent_field(x) == 0);
        assert(m * pow2(0) == m) by (nonlinear_arith)
            requires
                pow2(0) == 1,
        ;
    } else if m < 2 * HIDDEN_BIT {
        assert(exponent_field(x) == k + 1);
        assert(fraction_field(x) == m - HIDDEN_BIT);
    } else {
        assert(exponent_field(x) == k + 2);
        assert(fraction_field(x) == 0);
        lemma_pow2_unfold(k + 1);
        assert(h * (2 * pow2(k)) == (2 * h) * pow2(k)) by (nonlinear_arith);
    }
}

/// How far the number `x` lies from the ratio `num / den`, in units of
/// 2^-1074 and times `den`.
pub open spec fn miss(x: u64, num: nat, den: nat) -> nat {
    let at = weight(x) * den;
    if at >= num {
        (at - num) as nat
    } else {
        (num - at) as nat
    }
}

/// Where the ratio rounds to a finite number, that number lies on the
/// multiple of the unit under the ratio or on the next one, as the remainder
/// decides.
proof fn lemma_rounded_place(num: nat, den: nat)
    requires
        den > 0,
        rounded(num, den) < INFINITY,
    ensures
        ({
            let unit = den * pow2(excess(num, den));
            let m = num / unit;
            let r = num % unit;
            let step: nat = if rounds_up(m, r, unit) {
                1
            } else {
                0
            };
            &&& unit > 0
            &&& num == m * unit + r
            &&& r < unit
            &&& weight(rounded(num, den)) * den == (m + step) * unit
            &&& (m + 1) * unit == m * unit + unit
        }),
{
    let k = excess(num, den);
    let p = pow2(k);
    let unit = den * p;
    let m = num / unit;
    let r = num % unit;
    let step: nat = if rounds_up(m, r, unit) {
        1
    } else {
        0
    };
    lemma_pow2_pos(k);
    assert(unit > 0) by (nonlinear_arith)
        requires
            unit == den * p,
            den > 0,
            p > 0,
    ;
    lemma_rounded_quotient(num, den);
    lemma_weight_assembled(k, m + step);
    assert(weight(rounded(num, den)) * den == (m + step) * unit) by (nonlinear_arith)
        requires
            weight(rounded(num, den)) == (m + step) * p,
            unit == den * p,
    ;
    assert((m + 1) * unit == m * unit + unit) by (nonlinear_arith);
    vstd::arithmetic::div_mod::lemma_fundamental_div_mod(num as int, unit as int);
    vstd::arithmetic::div_mod::lemma_mod_bound(num as int, unit as int);
    assert(unit * m == m * unit) by (nonlinear_arith);
}

/// No finite binary64 magnitude lies nearer to the ratio than the rounded one.
pub proof fn lemma_rounded_nearest(num: nat, den: nat, y: u64)
    requires
        den > 0,
        y < INFINITY,
        rounded(num, den) < INFINITY,
    ensures
        miss(rounded(num, den), num, den) <= miss(y, num, den),
{
    // The rounded number misses by at most half a unit, and every other
    // number lies on a multiple of the unit or below them all.
    lemma_rounded_place(num, den);
    lemma_multiple_or_below(num, den, y);
}

/// The quotient by the unit has at most 53 bits, and exactly 53 where the
/// excess is not zero.
pub proof fn lemma_rounded_quotient(num: nat, den: nat)
    requires
        den > 0,
    ensures
        num / (den * pow2(excess(num, den))) < 2 * HIDDEN_BIT,
        excess(num, den) > 0 ==> num / (den * pow2(excess(num, den))) >= HIDDEN_BIT,
{
    let k = excess(num, den);
    let p = pow2(k);
    let unit = den * p;
    let h = HIDDEN_BIT as nat;
    lemma2_to64_rest();
    lemma_pow2_pos(k);
    lemma_excess_brackets(num, den);
    lemma_pow2_adds(53, k);
    lemma_pow2_adds(52, k);
    assert(unit > 0) by (nonlinear_arith)
        requires
            unit == den * p,
            den > 0,
            p > 0,
    ;
    assert(den * (pow2(53) * p) == (2 * h) * unit) by (nonlinear_arith)
        requires
            unit == den * p,
            pow2(53) == 2 * h,
    ;
    assert(den * (pow2(52) * p) == h * unit) by (nonlinear_arith)
        requires
            unit == den * p,
            pow2(52) == h,
    ;
    vstd::arithmetic::div_mod::lemma_fundamental_div_mod(num as int, unit as int);
    vstd::arithmetic::div_mod::lemma_mod_bound(num as int, unit as int);
    let m = num / unit;
    let r = num % unit;
    assert(unit * m == m * unit) by (nonlinear_arith);
    assert(m < 2 * h) by (nonlinear_arith)
        requires
            m * unit + r < (2 * h) * unit,
            r >= 0,
            unit > 0,
    ;
    if k > 0 {
        assert(m >= h) by (nonlinear_arith)
            requires
                m * unit + r >= h * unit,
                r < unit,
                unit > 0,
        ;
    }
}

/// Where two finite magnitudes lie equally near the ratio, the rounded one is
/// the one with an even pattern.
pub proof fn lemma_rounded_tie_is_even(num: nat, den: nat, y: u64)
    requires
        den > 0,
        y < INFINITY,
        rounded(num, den) < INFINITY,
        y != rounded(num, den),
        miss(y, num, den) == miss(rounded(num, den), num, den),
    ensures
        rounded(num, den) % 2 == 0,
{
    let x = rounded(num, den);
    let unit = den * pow2(excess(num, den));
    lemma_rounded_place(num, den);
    // Two numbers are two weights, so the two lie on either side of the
    // ratio, each half a unit away.
    if y < x {
        lemma_weight_increases(y, x);
    } else {
        lemma_weight_increases(x, y);
    }
    assert(weight(y) * den != weight(x) * den) by (nonlinear_arith)
        requires
            weight(y) != weight(x),
            den > 0,
    ;
    lemma_multiple_or_below(num, den, y);
    assert(2 * (num % unit) == unit);
}

/// Every finite magnitude, times `den`, lies at or below the multiple of the
/// unit under the ratio, or at or above the next one.
proof fn lemma_multiple_or_below(num: nat, den: nat, y: u64)
    requires
        den > 0,
        y < INFINITY,
    ensures
        ({
            let unit = den * pow2(excess(num, den));
            let m = num / unit;
            weight(y) * den <= m * unit || weight(y) * den >= (m + 1) * unit
        }),
{
    let k = excess(num, den);
    let p = pow2(k);
    let unit = den * p;
    let m = num / unit;
    let h = HIDDEN_BIT as nat;
    lemma2_to64();
    lemma2_to64_rest();
    lemma_pow2_pos(k);
    assert(unit > 0) by (nonlinear_arith)
        requires
            unit == den * p,
            den > 0,
            p > 0,
    ;
    lemma_rounded_quotient(num, den);
    let e = exponent_field(y);
    let f = fraction_field(y);
    let j: nat = if e == 0 {
        0
    } else {
        (e - 1) as nat
    };
    let s: nat = if e == 0 {
        f
    } else {
        h + f
    };
    assert(weight(y) == s * pow2(j)) by {
        assert(f * pow2(0) == f) by (nonlinear_arith)
            requires
                pow2(0) == 1,
        ;
    }
    if j >= k {
        let q = pow2((j - k) as nat);
        lemma_pow2_adds((j - k) as nat, k);
        let whole = s * q;
        assert(s * (q * p) == whole * p) by (nonlinear_arith)
            requires
                whole == s * q,
        ;
        assert((whole * p) * den == whole * unit) by (nonlinear_arith)
            requires
                unit == den * p,
        ;
        if whole <= m {
            assert(whole * unit <= m * unit) by (nonlinear_arith)
                requires
                    whole <= m,
                    unit > 0,
            ;
        } else {
            assert(whole * unit >= (m + 1) * unit) by (nonlinear_arith)
                requires
                    whole >= m + 1,
                    unit > 0,
            ;
        }
    } else {
        lemma_pow2_unfold(k);
        if j + 1 < k {
            lemma_pow2_strictly_increases(j + 1, k);
        }
        lemma_pow2_unfold(j + 1);
        let pj = pow2(j);
        lemma_pow2_pos(j);
        assert(s * pj <= h * p) by (nonlinear_arith)
            requires
                s < 2 * h,
                2 * pj <= p,
                pj > 0,
                h > 0,
        ;
        assert((s * pj) * den <= (h * p) * den) by (nonlinear_arith)
            requires
                s * pj <= h * p,
        ;
        assert((h * p) * den == h * unit) by (nonlinear_arith)
            requires
                unit == den * p,
        ;
        assert(h * unit <= m * unit) by (nonlinear_arith)
            requires
                h <= m,
                unit > 0,
        ;
    }
}

/// The ratio rounds to infinity from halfway between the greatest finite
/// number and 2^1024 on, which is (2^54 - 1) * 2^2044 units, and not below.
pub proof fn lemma_rounded_overflow(num: nat, den: nat)
    requires
        den > 0,
    ensures
        rounded(num, den) == INFINITY <==> num >= den * (0x3F_FFFF_FFFF_FFFF * pow2(2044)),
{
    let k = excess(num, den);
    let p = pow2(k);
    let unit = den * p;
    let m = num / unit;
    let r = num % unit;
    let h = HIDDEN_BIT as nat;
    let low = pow2(2044);
    let edge = den * (0x3F_FFFF_FFFF_FFFF * low);
    lemma2_to64_rest();
    lemma_pow2_pos(k);
    lemma_pow2_pos(2044);
    assert(unit > 0) by (nonlinear_arith)
        requires
            unit == den * p,
            den > 0,
            p > 0,
    ;
    lemma_rounded_quotient(num, den);
    lemma_excess_brackets(num, den);
    vstd::arithmetic::div_mod::lemma_fundamental_div_mod(num as int, unit as int);
    vstd::arithmetic::div_mod::lemma_mod_bound(num as int, unit as int);
    assert(unit * m == m * unit) by (nonlinear_arith);
    if k <= 2044 {
        lemma_pow2_adds(53, 2044);
        if k < 2044 {
            lemma_pow2_strictly_increases(53 + k, 53 + 2044);
        }
        assert(den * pow2(53 + k) <= den * pow2(53 + 2044)) by (nonlinear_arith)
            requires
                pow2(53 + k) <= pow2(53 + 2044),
        ;
        assert(den * (pow2(53) * low) < den * (0x3F_FFFF_FFFF_FFFF * low)) by (nonlinear_arith)
            requires
                pow2(53) < 0x3F_FFFF_FFFF_FFFF,
                low > 0,
                den > 0,
        ;
        assert(k * HIDDEN_BIT + m + 1 < INFINITY);
    } else if k == 2045 {
        lemma_pow2_unfold(2045);
        assert(unit == 2 * (den * low)) by (nonlinear_arith)
            requires
                unit == den * (2 * low),
        ;
        assert(edge == 0x3F_FFFF_FFFF_FFFF * (den * low)) by (nonlinear_arith)
            requires
                edge == den * (0x3F_FFFF_FFFF_FFFF * low),
        ;
        let half = den * low;
        assert(m * unit == (2 * m) * half) by (nonlinear_arith)
            requires
                unit == 2 * half,
        ;
        if m == 2 * h - 1 {
            assert((2 * m) * half + half == 0x3F_FFFF_FFFF_FFFF * half) by (nonlinear_arith)
                requires
                    2 * m + 1 == 0x3F_FFFF_FFFF_FFFF,
            ;
        } else {
            assert((2 * m) * half + unit <= 0x3F_FFFF_FFFF_FFFF * half) by (nonlinear_arith)
                requires
                    2 * m + 2 <= 0x3F_FFFF_FFFF_FFFF,
                    unit == 2 * half,
                    half >= 0,
            ;
        }
    } else {
        lemma_pow2_adds(54, 2044);
        if k > 2046 {
            lemma_pow2_strictly_increases(52 + 2046, 52 + k);
        }
        assert(den * pow2(52 + 2046) <= den * pow2(52 + k)) by (nonlinear_arith)
            requires
                pow2(52 + 2046) <= pow2(52 + k),
        ;
        assert(den * (pow2(54) * low) >= den * (0x3F_FFFF_FFFF_FFFF * low)) by (nonlinear_arith)
            requires
                pow2(54) > 0x3F_FFFF_FFFF_FFFF,
                low > 0,
                den > 0,
        ;
        assert(k * HIDDEN_BIT + m >= INFINITY);
    }
}

} // verus!
