//! The three binary64 operations that the service needs: doubling, the
//! reciprocal, and subtracting one. Each is specified as IEEE 754 does it, the
//! exact result rounded to nearest, and computed on the bit patterns.

use vstd::prelude::*;
use vstd::arithmetic::power2::{pow2, lemma_pow2_pos, lemma_pow2_unfold, lemma_pow2_adds, lemma_pow2_strictly_increases, lemma2_to64, lemma2_to64_rest};
use vstd::arithmetic::div_mod::{lemma_fundamental_div_mod, lemma_mod_bound};
use crate::binary64::{SIGN_BIT, INFINITY, NAN, ZERO, HALF, ONE, HIDDEN_BIT, is_negative, magnitude, is_nan, is_infinite, is_finite, exponent_field, fraction_field, weight, quanta, nan, lemma_weight_increases};
use crate::rounding::{rounded, assemble, rounds_up, excess, lemma_excess_is, lemma_excess_brackets, lemma_rounded_parts, lemma_rounded_exact, lemma_rounded_quotient, lemma_rounded_overflow, lemma_rounded_is_number};

verus! {

/// The pattern with the given sign and magnitude.
pub open spec fn with_sign(negative: bool, magnitude: u64) -> u64 {
    if negative {
        (magnitude + SIGN_BIT) as u64
    } else {
        magnitude
    }
}

/// `2 * x` in binary64: a NaN gives the quiet NaN, an infinity stays, and a
/// finite number gives twice its value, rounded, with its sign.
pub open spec fn spec_twice(x: u64) -> u64 {
    if is_nan(x) {
        NAN
    } else if is_infinite(x) {
        x
    } else {
        with_sign(is_negative(x), rounded(2 * weight(x), 1))
    }
}

/// Twice `x`.
pub fn twice(x: u64) -> (r: u64)
    ensures
        r == spec_twice(x),
{
    if nan(x) {
        return NAN;
    }
    let negative = x >= SIGN_BIT;
    let m: u64 = if negative {
        x - SIGN_BIT
    } else {
        x
    };
    if m == INFINITY {
        return x;
    }
    let e: u64 = m / HIDDEN_BIT;
    let doubled: u64 = if e == 0 {
        2 * m
    } else if e == 2046 {
        INFINITY
    } else {
        m + HIDDEN_BIT
    };
    proof {
        assert(weight(x) == weight(m));
        lemma_twice_magnitude(m, doubled);
    }
    if negative {
        doubled + SIGN_BIT
    } else {
        doubled
    }
}

/// Below the greatest exponent, the pattern of twice a magnitude: a
/// subnormal's fraction moves one place up, a normal number's exponent goes
/// up by one. The pattern weighs twice as much.
proof fn lemma_doubled_weight(m: u64, doubled: u64)
    requires
        m < INFINITY,
        exponent_field(m) < 2046,
        doubled == if exponent_field(m) == 0 {
            2 * m
        } else {
            m + HIDDEN_BIT
        },
    ensures
        doubled < INFINITY,
        weight(doubled) == 2 * weight(m),
{
    let e = exponent_field(m);
    let f = fraction_field(m);
    lemma2_to64();
    if e == 0 {
        if doubled >= HIDDEN_BIT {
            assert(exponent_field(doubled) == 1);
            assert((HIDDEN_BIT + fraction_field(doubled)) * pow2(0) == 2 * f) by (nonlinear_arith)
                requires
                    HIDDEN_BIT + fraction_field(doubled) == 2 * f,
                    pow2(0) == 1,
            ;
        }
    } else {
        let s = (HIDDEN_BIT + f) as nat;
        let p = pow2((e - 1) as nat);
        lemma_pow2_unfold(e);
        assert(s * (2 * p) == 2 * (s * p)) by (nonlinear_arith);
        assert(exponent_field(doubled) == e + 1);
        assert(fraction_field(doubled) == f);
    }
}

/// Twice a finite magnitude, rounded: the doubled pattern, and infinity from
/// the greatest exponent.
proof fn lemma_twice_magnitude(m: u64, doubled: u64)
    requires
        m < INFINITY,
        doubled == if exponent_field(m) == 0 {
            2 * m
        } else if exponent_field(m) == 2046 {
            INFINITY as int
        } else {
            m + HIDDEN_BIT
        },
    ensures
        rounded(2 * weight(m), 1) == doubled,
{
    if exponent_field(m) == 2046 {
        let s = (HIDDEN_BIT + fraction_field(m)) as nat;
        let q = pow2(2046);
        lemma2_to64_rest();
        lemma_pow2_unfold(2046);
        assert(s * (2 * pow2(2045)) == 2 * (s * pow2(2045))) by (nonlinear_arith);
        lemma_pow2_pos(2046);
        lemma_pow2_adds(53, 2046);
        lemma_pow2_adds(52, 2046);
        assert(s * q < pow2(53) * q) by (nonlinear_arith)
            requires
                s < pow2(53),
                q > 0,
        ;
        assert(s * q >= pow2(52) * q) by (nonlinear_arith)
            requires
                s >= pow2(52),
                q > 0,
        ;
        lemma_excess_is(s * q, 1, 2046);
        assert(s * q == s * (1 * q) + 0) by (nonlinear_arith);
        lemma_rounded_parts(s * q, 1, 2046, s, 0);
    } else {
        lemma_doubled_weight(m, doubled);
        lemma_rounded_exact(doubled);
    }
}

/// Below the greatest exponent doubling is exact: twice a finite number is
/// the finite number of twice the value.
pub proof fn lemma_twice_doubles(x: u64)
    requires
        is_finite(x),
        exponent_field(x) < 2046,
    ensures
        is_finite(spec_twice(x)),
        is_negative(spec_twice(x)) == is_negative(x),
        quanta(spec_twice(x)) == 2 * quanta(x),
{
    let m = magnitude(x);
    let doubled: u64 = if exponent_field(m) == 0 {
        (2 * m) as u64
    } else {
        (m + HIDDEN_BIT) as u64
    };
    lemma_doubled_weight(m, doubled);
    lemma_twice_magnitude(m, doubled);
    assert(magnitude(spec_twice(x)) == doubled);
}

/// From the greatest exponent on, twice a finite number is an infinity.
pub proof fn lemma_twice_overflows(x: u64)
    requires
        is_finite(x),
        exponent_field(x) == 2046,
    ensures
        is_infinite(spec_twice(x)),
        is_negative(spec_twice(x)) == is_negative(x),
{
    lemma_twice_magnitude(magnitude(x), INFINITY);
}

/// 2^105: divided by a significand of 53 bits it leaves a quotient of 53 bits.
const TWO_POW_105: u128 = 0x200_0000_0000_0000_0000_0000_0000;

/// `1 / x` in binary64: a NaN gives the quiet NaN, an infinity gives zero, a
/// zero gives infinity, and another number gives the rounded reciprocal of
/// its value; the sign stays. In units of 2^-1074 the number one weighs
/// 2^1074, so the reciprocal of the weight `w` weighs 2^2148 / w.
pub open spec fn spec_reciprocal(x: u64) -> u64 {
    if is_nan(x) {
        NAN
    } else if is_infinite(x) {
        with_sign(is_negative(x), ZERO)
    } else if magnitude(x) == 0 {
        with_sign(is_negative(x), INFINITY)
    } else {
        with_sign(is_negative(x), rounded(pow2(2148), weight(x)))
    }
}

/// The reciprocal of a number between minus one and one that is not zero, or
/// of a NaN.
pub(crate) fn reciprocal(x: u64) -> (r: u64)
    requires
        is_nan(x) || 0 < magnitude(x) <= ONE,
    ensures
        r == spec_reciprocal(x),
        !is_nan(x) ==> ONE <= magnitude(r) <= INFINITY && is_negative(r) == is_negative(x),
{
    if nan(x) {
        return NAN;
    }
    let negative = x >= SIGN_BIT;
    let m: u64 = if negative {
        x - SIGN_BIT
    } else {
        x
    };
    proof {
        assert(weight(x) == weight(m));
    }
    let inverse = reciprocal_magnitude(m);
    if negative {
        inverse + SIGN_BIT
    } else {
        inverse
    }
}

/// The reciprocal of a positive number up to one.
fn reciprocal_magnitude(m: u64) -> (r: u64)
    requires
        0 < m <= ONE,
    ensures
        r == rounded(pow2(2148), weight(m)),
        ONE <= r <= INFINITY,
{
    let e: u64 = m / HIDDEN_BIT;
    let f: u64 = m % HIDDEN_BIT;
    // The number weighs sig * 2^(2043 - t), so its reciprocal weighs
    // (2^105 / sig) * 2^t. A subnormal's significand is first shifted up until
    // its leading bit is the hidden bit; the quotient then has 53 bits.
    let mut sig: u64 = if e == 0 {
        f
    } else {
        HIDDEN_BIT + f
    };
    let mut t: u64 = if e == 0 {
        2043
    } else {
        2044 - e
    };
    proof {
        lemma2_to64();
        lemma2_to64_rest();
        lemma_pow2_pos(2043);
        if e > 0 {
            let a = pow2((e - 1) as nat);
            let b = pow2(t as nat);
            lemma_pow2_adds((e - 1) as nat, t as nat);
            assert((sig * a) * b == sig * (a * b)) by (nonlinear_arith);
        }
        lemma_weight_positive(m);
    }
    while sig < HIDDEN_BIT
        invariant
            0 < sig < 2 * HIDDEN_BIT,
            1021 <= t <= 2095,
            t >= 1022 || sig == HIDDEN_BIT,
            sig < HIDDEN_BIT ==> t >= 2043,
            t >= 2043 ==> sig >= pow2((t - 2043) as nat),
            weight(m) * pow2(t as nat) == sig * pow2(2043),
        decreases 2 * HIDDEN_BIT - sig,
    {
        proof {
            let j = (t - 2043) as nat;
            lemma2_to64_rest();
            if j >= 52 {
                if j > 52 {
                    lemma_pow2_strictly_increases(52, j);
                }
                assert(false);
            }
            lemma_pow2_unfold(j + 1);
            lemma_pow2_unfold((t + 1) as nat);
            let w = weight(m);
            let a = pow2(t as nat);
            let p = pow2(2043);
            assert(w * (2 * a) == (2 * sig) * p) by (nonlinear_arith)
                requires
                    w * a == sig * p,
            ;
        }
        sig = 2 * sig;
        t = t + 1;
    }
    if sig == HIDDEN_BIT {
        // A power of two: the reciprocal is a power of two, and exact.
        proof {
            lemma_reciprocal_power(weight(m), t as nat);
        }
        let raw: u64 = (t + 2) * HIDDEN_BIT;
        if raw >= INFINITY {
            INFINITY
        } else {
            raw
        }
    } else {
        let q: u128 = TWO_POW_105 / (sig as u128);
        let rem: u128 = TWO_POW_105 % (sig as u128);
        proof {
            lemma_two_pow_105();
            lemma_fundamental_div_mod(TWO_POW_105 as int, sig as int);
            lemma_mod_bound(TWO_POW_105 as int, sig as int);
            assert(sig * q == q * sig) by (nonlinear_arith);
            lemma_reciprocal_parts(weight(m), sig as nat, t as nat, q as nat, rem as nat);
        }
        let up = 2 * rem > sig as u128 || (2 * rem == sig as u128 && q % 2 == 1);
        let raw: u64 = t * HIDDEN_BIT + (q as u64) + if up {
            1u64
        } else {
            0u64
        };
        if raw >= INFINITY {
            INFINITY
        } else {
            raw
        }
    }
}

/// A magnitude other than zero has a weight.
proof fn lemma_weight_positive(m: u64)
    requires
        0 < m <= INFINITY,
    ensures
        weight(m) > 0,
{
    lemma_weight_increases(0, m);
}

/// The constant is the power.
proof fn lemma_two_pow_105()
    ensures
        pow2(105) == TWO_POW_105,
        pow2(105) == HIDDEN_BIT * (2 * HIDDEN_BIT),
{
    lemma2_to64();
    lemma2_to64_rest();
    lemma_pow2_adds(64, 41);
}

/// The reciprocal of a power of two is a power of two.
proof fn lemma_reciprocal_power(w: nat, t: nat)
    requires
        w > 0,
        w * pow2(t) == HIDDEN_BIT * pow2(2043),
    ensures
        rounded(pow2(2148), w) == assemble(t + 1, HIDDEN_BIT as nat, false),
{
    let n = pow2(2148);
    let a = pow2(105);
    let p = pow2(2043);
    let pt = pow2(t);
    let h = HIDDEN_BIT as nat;
    lemma_two_pow_105();
    lemma2_to64_rest();
    lemma_pow2_pos(2043);
    lemma_pow2_adds(105, 2043);
    lemma_pow2_adds(54, t);
    lemma_pow2_adds(53, t);
    lemma_pow2_unfold(t + 1);
    assert(pow2(53 + (t + 1)) == pow2(54) * pt);
    assert(pow2(52 + (t + 1)) == pow2(53) * pt);
    assert(w * (pow2(54) * pt) == pow2(54) * (h * p)) by (nonlinear_arith)
        requires
            w * pt == h * p,
    ;
    assert(w * (pow2(53) * pt) == pow2(53) * (h * p)) by (nonlinear_arith)
        requires
            w * pt == h * p,
    ;
    assert(a * p < pow2(54) * (h * p)) by (nonlinear_arith)
        requires
            a < pow2(54) * h,
            p > 0,
    ;
    assert(a * p == pow2(53) * (h * p)) by (nonlinear_arith)
        requires
            a == pow2(53) * h,
    ;
    lemma_excess_is(n, w, t + 1);
    assert(w * (2 * pt) == 2 * (h * p)) by (nonlinear_arith)
        requires
            w * pt == h * p,
    ;
    assert(a * p == h * (2 * (h * p)) + 0) by (nonlinear_arith)
        requires
            a == h * (2 * h),
    ;
    assert(h * p > 0) by (nonlinear_arith)
        requires
            h > 0,
            p > 0,
    ;
    lemma_rounded_parts(n, w, t + 1, h, 0);
}

/// The quotient and remainder of 2^105 by the normalised significand are
/// those of the reciprocal by its unit.
proof fn lemma_reciprocal_parts(w: nat, sig: nat, t: nat, q: nat, rem: nat)
    requires
        w > 0,
        w * pow2(t) == sig * pow2(2043),
        HIDDEN_BIT < sig < 2 * HIDDEN_BIT,
        pow2(105) == q * sig + rem,
        rem < sig,
    ensures
        rounded(pow2(2148), w) == assemble(t, q, rounds_up(q, rem, sig)),
        HIDDEN_BIT <= q < 2 * HIDDEN_BIT,
{
    let n = pow2(2148);
    let a = pow2(105);
    let p = pow2(2043);
    let pt = pow2(t);
    let h = HIDDEN_BIT as nat;
    lemma_two_pow_105();
    lemma2_to64_rest();
    lemma_pow2_pos(2043);
    lemma_pow2_adds(105, 2043);
    lemma_pow2_adds(53, t);
    lemma_pow2_adds(52, t);
    assert(w * (pow2(53) * pt) == pow2(53) * (sig * p)) by (nonlinear_arith)
        requires
            w * pt == sig * p,
    ;
    assert(w * (pow2(52) * pt) == pow2(52) * (sig * p)) by (nonlinear_arith)
        requires
            w * pt == sig * p,
    ;
    assert(a * p < pow2(53) * (sig * p)) by (nonlinear_arith)
        requires
            a < pow2(53) * sig,
            p > 0,
    ;
    assert(a * p >= pow2(52) * (sig * p)) by (nonlinear_arith)
        requires
            a >= pow2(52) * sig,
            p > 0,
    ;
    lemma_excess_is(n, w, t);
    assert(a * p == q * (sig * p) + rem * p) by (nonlinear_arith)
        requires
            a == q * sig + rem,
    ;
    assert(rem * p < sig * p) by (nonlinear_arith)
        requires
            rem < sig,
            p > 0,
    ;
    lemma_rounded_parts(n, w, t, q, rem * p);
    assert(2 * (rem * p) > sig * p <==> 2 * rem > sig) by (nonlinear_arith)
        requires
            p > 0,
    ;
    assert(2 * (rem * p) == sig * p <==> 2 * rem == sig) by (nonlinear_arith)
        requires
            p > 0,
    ;
    assert(q >= h) by (nonlinear_arith)
        requires
            h * (2 * h) == q * sig + rem,
            rem < sig,
            sig < 2 * h,
    ;
    assert(q < 2 * h) by (nonlinear_arith)
        requires
            h * (2 * h) == q * sig + rem,
            sig > h,
            h > 0,
    ;
}

/// `x - 1` in binary64: a NaN gives the quiet NaN, an infinity stays, and a
/// finite number gives its value less one, rounded. One weighs 2^1074 units;
/// a difference of nothing is positive zero.
pub open spec fn spec_less_one(x: u64) -> u64 {
    if is_nan(x) {
        NAN
    } else if is_infinite(x) {
        x
    } else {
        let d = quanta(x) - pow2(1074);
        if d == 0 {
            ZERO
        } else if d < 0 {
            with_sign(true, rounded((-d) as nat, 1))
        } else {
            rounded(d as nat, 1)
        }
    }
}

/// One less than a number from one on, than an infinity or than a NaN.
pub(crate) fn less_one(x: u64) -> (r: u64)
    requires
        is_nan(x) || is_infinite(x) || ONE <= x < INFINITY,
    ensures
        r == spec_less_one(x),
{
    if nan(x) {
        return NAN;
    }
    if x == INFINITY || x == INFINITY + SIGN_BIT {
        return x;
    }
    let e: u64 = x / HIDDEN_BIT;
    let f: u64 = x % HIDDEN_BIT;
    if e >= 1077 {
        proof {
            lemma_less_one_far(x);
        }
        return x;
    }
    if e == 1076 {
        proof {
            lemma_less_one_near(x);
        }
        return if f == 0 || f % 2 == 1 {
            x - 1
        } else {
            x
        };
    }
    // Below 2^53 the difference is a binary64 number: take the one, scaled to
    // the significand, off the significand, and shift the rest back up.
    let mut one: u64 = 1;
    let mut i: u64 = e;
    proof {
        lemma2_to64();
    }
    while i < 1075
        invariant
            1023 <= e <= i <= 1075,
            one == pow2((i - e) as nat),
            one <= HIDDEN_BIT,
        decreases 1075 - i,
    {
        proof {
            let j = (i - e) as nat;
            lemma2_to64_rest();
            lemma_pow2_unfold(j + 1);
            if j + 1 < 52 {
                lemma_pow2_strictly_increases(j + 1, 52);
            }
        }
        one = 2 * one;
        i = i + 1;
    }
    let ghost gap: nat = (HIDDEN_BIT + f - one) as nat;
    let ghost p = pow2((e - 1) as nat);
    proof {
        lemma_pow2_adds((1075 - e) as nat, (e - 1) as nat);
        lemma_pow2_pos((e - 1) as nat);
        assert(gap * p == (HIDDEN_BIT + f) * p - one * p) by (nonlinear_arith)
            requires
                gap == HIDDEN_BIT + f - one,
        ;
        assert(quanta(x) - pow2(1074) == gap * p);
        assert(gap > 0 ==> gap * p > 0) by (nonlinear_arith)
            requires
                p > 0,
        ;
        assert(gap == 0 ==> gap * p == 0) by (nonlinear_arith);
    }
    let mut d: u64 = HIDDEN_BIT + f - one;
    if d == 0 {
        return ZERO;
    }
    let mut k: u64 = e - 1;
    proof {
        lemma2_to64();
    }
    while d < HIDDEN_BIT
        invariant
            0 < d < 2 * HIDDEN_BIT,
            1023 <= e <= 1075,
            k <= e - 1,
            e - 1 - k <= 52,
            d >= pow2((e - 1 - k) as nat),
            d * pow2(k as nat) == gap * pow2((e - 1) as nat),
        decreases 2 * HIDDEN_BIT - d,
    {
        proof {
            let j = (e - 1 - k) as nat;
            lemma2_to64_rest();
            if j >= 52 {
                assert(false);
            }
            lemma_pow2_unfold(j + 1);
            lemma_pow2_unfold(k as nat);
            let a = pow2((k - 1) as nat);
            let g = gap * pow2((e - 1) as nat);
            assert((2 * d) * a == g) by (nonlinear_arith)
                requires
                    d * (2 * a) == g,
            ;
        }
        d = 2 * d;
        k = k - 1;
    }
    let r: u64 = k * HIDDEN_BIT + d;
    proof {
        assert(exponent_field(r) == k + 1);
        assert(fraction_field(r) == d - HIDDEN_BIT);
        assert(weight(r) == gap * p);
        lemma_rounded_exact(r);
    }
    r
}

/// From 2^54 on, one is less than half the distance to the next number
/// below, or exactly half of it beside an even significand: the number stays.
proof fn lemma_less_one_far(x: u64)
    requires
        x < INFINITY,
        exponent_field(x) >= 1077,
    ensures
        spec_less_one(x) == x,
{
    let e = exponent_field(x);
    let f = fraction_field(x);
    let h = HIDDEN_BIT as nat;
    let sig = h + f;
    let w = pow2(1074);
    lemma2_to64();
    lemma2_to64_rest();
    lemma_pow2_pos(1074);
    if f > 0 {
        let k = (e - 1) as nat;
        let u = pow2(k);
        lemma_pow2_adds((k - 1074) as nat, 1074);
        if k - 1074 > 2 {
            lemma_pow2_strictly_increases(2, (k - 1074) as nat);
        }
        assert(u >= 4 * w) by (nonlinear_arith)
            requires
                u == pow2((k - 1074) as nat) * w,
                pow2((k - 1074) as nat) >= 4,
                w > 0,
        ;
        let d = (sig * u - w) as nat;
        assert(sig * u >= u) by (nonlinear_arith)
            requires
                sig >= 1,
                u >= 0,
        ;
        lemma_pow2_adds(53, k);
        lemma_pow2_adds(52, k);
        assert(sig * u < pow2(53) * u) by (nonlinear_arith)
            requires
                sig < pow2(53),
                u > 0,
        ;
        assert(sig * u - w >= pow2(52) * u) by (nonlinear_arith)
            requires
                sig >= pow2(52) + 1,
                u >= w,
        ;
        lemma_excess_is(d, 1, k);
        assert(sig * u - w == (sig - 1) * (1 * u) + (u - w)) by (nonlinear_arith);
        lemma_rounded_parts(d, 1, k, (sig - 1) as nat, (u - w) as nat);
        assert(rounds_up((sig - 1) as nat, (u - w) as nat, 1 * u));
        assert(k * HIDDEN_BIT + (sig - 1) + 1 == x);
    } else {
        let k = (e - 2) as nat;
        let v = pow2(k);
        lemma_pow2_unfold((e - 1) as nat);
        lemma_pow2_adds((k - 1074) as nat, 1074);
        if k - 1074 > 1 {
            lemma_pow2_strictly_increases(1, (k - 1074) as nat);
        }
        assert(v >= 2 * w) by (nonlinear_arith)
            requires
                v == pow2((k - 1074) as nat) * w,
                pow2((k - 1074) as nat) >= 2,
                w > 0,
        ;
        assert(h * (2 * v) == (2 * h) * v) by (nonlinear_arith);
        let d = ((2 * h) * v - w) as nat;
        assert((2 * h) * v >= v) by (nonlinear_arith)
            requires
                h >= 1,
                v >= 0,
        ;
        lemma_pow2_adds(53, k);
        lemma_pow2_adds(52, k);
        assert((2 * h) * v - w < pow2(53) * v) by (nonlinear_arith)
            requires
                2 * h == pow2(53),
                w > 0,
        ;
        assert((2 * h) * v - w >= pow2(52) * v) by (nonlinear_arith)
            requires
                h == pow2(52),
                v >= w,
                h >= 1,
        ;
        lemma_excess_is(d, 1, k);
        assert((2 * h) * v - w == (2 * h - 1) * (1 * v) + (v - w)) by (nonlinear_arith);
        lemma_rounded_parts(d, 1, k, (2 * h - 1) as nat, (v - w) as nat);
        assert(rounds_up((2 * h - 1) as nat, (v - w) as nat, 1 * v));
        assert(k * HIDDEN_BIT + (2 * h - 1) + 1 == x);
    }
}

/// Between 2^53 and 2^54 the numbers are two apart, so one less is a tie
/// that goes to the even significand; only below 2^53 itself the numbers lie
/// close enough to hold the difference.
proof fn lemma_less_one_near(x: u64)
    requires
        x < INFINITY,
        exponent_field(x) == 1076,
    ensures
        spec_less_one(x) == if fraction_field(x) == 0 || fraction_field(x) % 2 == 1 {
            (x - 1) as u64
        } else {
            x
        },
{
    let f = fraction_field(x);
    let h = HIDDEN_BIT as nat;
    let sig = h + f;
    let w = pow2(1074);
    lemma2_to64();
    lemma2_to64_rest();
    lemma_pow2_pos(1074);
    lemma_pow2_unfold(1075);
    assert(sig * (2 * w) == (2 * sig) * w) by (nonlinear_arith);
    let d = ((2 * sig) * w - w) as nat;
    assert((2 * sig) * w >= w) by (nonlinear_arith)
        requires
            sig >= 1,
            w >= 0,
    ;
    assert(quanta(x) - pow2(1074) == d);
    assert(d > 0) by (nonlinear_arith)
        requires
            d == (2 * sig) * w - w,
            sig >= 1,
            w > 0,
    ;
    if f == 0 {
        lemma_pow2_adds(53, 1074);
        lemma_pow2_adds(52, 1074);
        assert((2 * h) * w - w < pow2(53) * w) by (nonlinear_arith)
            requires
                2 * h == pow2(53),
                w > 0,
        ;
        assert((2 * h) * w - w >= pow2(52) * w) by (nonlinear_arith)
            requires
                h == pow2(52),
                h >= 1,
                w > 0,
        ;
        lemma_excess_is(d, 1, 1074);
        assert((2 * h) * w - w == (2 * h - 1) * (1 * w) + 0) by (nonlinear_arith);
        lemma_rounded_parts(d, 1, 1074, (2 * h - 1) as nat, 0);
        assert(!rounds_up((2 * h - 1) as nat, 0, 1 * w));
        assert(1074 * HIDDEN_BIT + (2 * h - 1) == x - 1);
    } else {
        let u = pow2(1075);
        lemma_pow2_adds(53, 1075);
        lemma_pow2_adds(52, 1075);
        assert((2 * sig) * w - w < pow2(53) * (2 * w)) by (nonlinear_arith)
            requires
                sig < pow2(53),
                w > 0,
        ;
        assert((2 * sig) * w - w >= pow2(52) * (2 * w)) by (nonlinear_arith)
            requires
                sig >= pow2(52) + 1,
                w > 0,
        ;
        lemma_excess_is(d, 1, 1075);
        assert((2 * sig) * w - w == (sig - 1) * (1 * (2 * w)) + w) by (nonlinear_arith);
        lemma_rounded_parts(d, 1, 1075, (sig - 1) as nat, w);
        assert(rounds_up((sig - 1) as nat, w, 1 * u) == (f % 2 == 0));
        assert(1075 * HIDDEN_BIT + (sig - 1) == x - 1);
    }
}

/// Twice one half is one, the reciprocal of one is one, and one less than
/// one is zero: the three facts that make the neutral request the identity.
pub proof fn lemma_neutral_values()
    ensures
        spec_twice(HALF) == ONE,
        spec_reciprocal(ONE) == ONE,
        spec_less_one(ONE) == ZERO,
{
    lemma2_to64();
    lemma2_to64_rest();
    assert(exponent_field(HALF) == 1022 && fraction_field(HALF) == 0);
    assert(exponent_field(ONE) == 1023 && fraction_field(ONE) == 0);
    let h = HIDDEN_BIT as nat;
    lemma_pow2_unfold(1022);
    assert(2 * (h * pow2(1021)) == h * (2 * pow2(1021))) by (nonlinear_arith);
    lemma_rounded_exact(ONE);
    lemma_pow2_adds(1022, 1021);
    assert((h * pow2(1022)) * pow2(1021) == h * (pow2(1022) * pow2(1021))) by (nonlinear_arith);
    lemma_pow2_pos(1022);
    assert(h * pow2(1022) > 0) by (nonlinear_arith)
        requires
            h > 0,
            pow2(1022) > 0,
    ;
    lemma_reciprocal_power(weight(ONE), 1021);
    lemma_pow2_adds(52, 1022);
}

/// 2^-1024: the reciprocal of a number up to this one is too great for
/// binary64 and rounds to infinity.
pub const LARGEST_WITHOUT_RECIPROCAL: u64 = 0x0004_0000_0000_0000;

/// The reciprocal of a positive number up to one is a number from one up. It
/// is infinite for the numbers up to 2^-1024, and only for those.
pub proof fn lemma_reciprocal_range(x: u64)
    requires
        0 < x <= ONE,
    ensures
        ONE <= spec_reciprocal(x) <= INFINITY,
        spec_reciprocal(x) == INFINITY <==> x <= LARGEST_WITHOUT_RECIPROCAL,
{
    let w = weight(x);
    let n = pow2(2148);
    let k = excess(n, w);
    let h = HIDDEN_BIT as nat;
    lemma2_to64();
    lemma2_to64_rest();
    lemma_weight_positive(x);
    if x < ONE {
        lemma_weight_increases(x, ONE);
    }
    lemma_pow2_adds(52, 1022);
    // The excess is 1022 at least, and then the significand has its 53 bits.
    lemma_excess_brackets(n, w);
    lemma_rounded_quotient(n, w);
    lemma_pow2_adds(1074, 53 + k);
    lemma_pow2_pos(53 + k);
    assert(w * pow2(53 + k) <= pow2(1074) * pow2(53 + k)) by (nonlinear_arith)
        requires
            w <= pow2(1074),
    ;
    if k < 1022 {
        if 1127 + k < 2148 {
            lemma_pow2_strictly_increases(1127 + k, 2148);
        }
        assert(false);
    }
    // It overflows where 2^104 holds the weight 2^54 - 1 times.
    let low = pow2(2044);
    let c: nat = 0x3F_FFFF_FFFF_FFFF;
    lemma_rounded_overflow(n, w);
    lemma_pow2_pos(2044);
    lemma_pow2_adds(104, 2044);
    lemma_pow2_adds(64, 40);
    assert(w * (c * low) == (w * c) * low) by (nonlinear_arith);
    assert(pow2(104) * low >= (w * c) * low <==> pow2(104) >= w * c) by (nonlinear_arith)
        requires
            low > 0,
    ;
    assert(pow2(104) >= w * c <==> w <= 0x4_0000_0000_0000) by (nonlinear_arith)
        requires
            pow2(104) == 0x100_0000_0000_0000_0000_0000_0000,
            c == 0x3F_FFFF_FFFF_FFFF,
    ;
    assert(weight(LARGEST_WITHOUT_RECIPROCAL) == 0x4_0000_0000_0000);
    if x < LARGEST_WITHOUT_RECIPROCAL {
        lemma_weight_increases(x, LARGEST_WITHOUT_RECIPROCAL);
    }
    if x > LARGEST_WITHOUT_RECIPROCAL {
        lemma_weight_increases(LARGEST_WITHOUT_RECIPROCAL, x);
    }
}

/// One less than a finite number from one up is a finite number from zero up.
pub proof fn lemma_less_one_range(x: u64)
    requires
        ONE <= x < INFINITY,
    ensures
        spec_less_one(x) < INFINITY,
{
    let greatest: u64 = 0x7FEF_FFFF_FFFF_FFFF;
    let low = pow2(2044);
    let c: nat = 0x3F_FFFF_FFFF_FFFF;
    let h = HIDDEN_BIT as nat;
    lemma2_to64();
    lemma2_to64_rest();
    if ONE < x {
        lemma_weight_increases(ONE, x);
    }
    if x < greatest {
        lemma_weight_increases(x, greatest);
    }
    lemma_pow2_adds(52, 1022);
    lemma_pow2_unfold(2045);
    lemma_pow2_pos(1074);
    assert(exponent_field(greatest) == 2046 && fraction_field(greatest) == h - 1);
    assert((h + (h - 1)) * (2 * low) == (c - 1) * low) by (nonlinear_arith)
        requires
            c == 4 * h - 1,
    ;
    lemma_pow2_pos(2044);
    assert((c - 1) * low < c * low) by (nonlinear_arith)
        requires
            low > 0,
    ;
    assert(pow2(1074) <= weight(x) < c * low);
    let d = (weight(x) - pow2(1074)) as nat;
    if d > 0 {
        lemma_rounded_overflow(d, 1);
        assert(1 * (c * low) == c * low) by (nonlinear_arith);
        lemma_rounded_is_number(d, 1);
    }
}

} // verus!
