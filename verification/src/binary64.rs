//! IEEE 754 binary64 numbers, held as their 64-bit patterns.
//!
//! A pattern is a sign bit, eleven bits of exponent and fifty-two bits of
//! fraction. Every finite binary64 number is a whole multiple of 2^-1074, the
//! smallest positive one; that multiple is the number's `weight`, and with the
//! sign its `quanta`. The functions of this module work on patterns with
//! integer arithmetic only, and their contracts are stated over quanta.

use vstd::prelude::*;
use vstd::arithmetic::power2::{pow2, lemma_pow2_pos, lemma_pow2_unfold, lemma_pow2_strictly_increases};

verus! {

/// The sign bit; also the pattern of negative zero.
pub const SIGN_BIT: u64 = 0x8000_0000_0000_0000;

/// Positive infinity; a magnitude above it is no number.
pub const INFINITY: u64 = 0x7FF0_0000_0000_0000;

/// The quiet NaN that the operations of this module return.
pub const NAN: u64 = 0x7FF8_0000_0000_0000;

/// Positive zero.
pub const ZERO: u64 = 0;

/// One half.
pub const HALF: u64 = 0x3FE0_0000_0000_0000;

/// One.
pub const ONE: u64 = 0x3FF0_0000_0000_0000;

/// Two.
pub const TWO: u64 = 0x4000_0000_0000_0000;

/// 2^52: the lowest exponent bit of a pattern, and the leading bit of a
/// normal number's significand.
pub const HIDDEN_BIT: u64 = 0x0010_0000_0000_0000;

/// Whether the sign bit is set.
pub open spec fn is_negative(x: u64) -> bool {
    x >= SIGN_BIT
}

/// The pattern without its sign bit.
pub open spec fn magnitude(x: u64) -> u64 {
    if x >= SIGN_BIT {
        (x - SIGN_BIT) as u64
    } else {
        x
    }
}

/// Whether the pattern is no number.
pub open spec fn is_nan(x: u64) -> bool {
    magnitude(x) > INFINITY
}

/// Whether the pattern is one of the two infinities.
pub open spec fn is_infinite(x: u64) -> bool {
    magnitude(x) == INFINITY
}

/// Whether the pattern is a finite number.
pub open spec fn is_finite(x: u64) -> bool {
    magnitude(x) < INFINITY
}

/// The eleven exponent bits.
pub open spec fn exponent_field(x: u64) -> nat {
    (magnitude(x) / HIDDEN_BIT) as nat
}

/// The fifty-two fraction bits.
pub open spec fn fraction_field(x: u64) -> nat {
    (magnitude(x) % HIDDEN_BIT) as nat
}

/// The absolute value in units of 2^-1074.
///
/// With exponent bits zero the number is subnormal and its weight is the
/// fraction. Otherwise the significand is the fraction with the hidden bit
/// in front, scaled by the exponent. An infinity gets the weight 2^2098 that
/// the same formula gives it, which is above every finite weight.
pub open spec fn weight(x: u64) -> nat {
    let e = exponent_field(x);
    let f = fraction_field(x);
    if e == 0 {
        f
    } else {
        ((HIDDEN_BIT + f) * pow2((e - 1) as nat)) as nat
    }
}

/// The value in units of 2^-1074.
pub open spec fn quanta(x: u64) -> int {
    if is_negative(x) {
        -(weight(x) as int)
    } else {
        weight(x) as int
    }
}

/// The order of IEEE 754: a NaN is below nothing and nothing is below it, the
/// two zeros are equal, and otherwise the values decide.
pub open spec fn lt(a: u64, b: u64) -> bool {
    &&& !is_nan(a)
    &&& !is_nan(b)
    &&& quanta(a) < quanta(b)
}

/// Among numbers of one sign, the greater pattern has the greater weight.
pub proof fn lemma_weight_increases(a: u64, b: u64)
    requires
        a < b <= INFINITY,
    ensures
        weight(a) < weight(b),
{
    let ea = exponent_field(a);
    let eb = exponent_field(b);
    let fa = fraction_field(a);
    let fb = fraction_field(b);
    assert(ea <= eb);
    if ea == eb {
        assert(fa < fb);
        if ea > 0 {
            let p = pow2((ea - 1) as nat);
            lemma_pow2_pos((ea - 1) as nat);
            assert((HIDDEN_BIT + fa) * p < (HIDDEN_BIT + fb) * p) by (nonlinear_arith)
                requires
                    fa < fb,
                    p > 0,
            ;
        }
    } else {
        let q = pow2((eb - 1) as nat);
        lemma_pow2_pos((eb - 1) as nat);
        assert(HIDDEN_BIT * q <= (HIDDEN_BIT + fb) * q) by (nonlinear_arith)
            requires
                fb >= 0,
                q > 0,
        ;
        if ea == 0 {
            assert(HIDDEN_BIT * 1 <= HIDDEN_BIT * q) by (nonlinear_arith)
                requires
                    q >= 1,
            ;
        } else {
            let p = pow2((ea - 1) as nat);
            lemma_pow2_pos((ea - 1) as nat);
            lemma_pow2_unfold(ea);
            if ea < eb - 1 {
                lemma_pow2_strictly_increases(ea, (eb - 1) as nat);
            }
            assert(pow2(ea) <= q);
            assert((HIDDEN_BIT + fa) * p < HIDDEN_BIT * (2 * p)) by (nonlinear_arith)
                requires
                    fa < HIDDEN_BIT,
                    p > 0,
            ;
            assert(HIDDEN_BIT * (2 * p) <= HIDDEN_BIT * q) by (nonlinear_arith)
                requires
                    2 * p <= q,
            ;
        }
    }
}

/// Only the two zeros weigh nothing.
pub proof fn lemma_weight_zero(x: u64)
    requires
        !is_nan(x),
    ensures
        weight(x) == 0 <==> magnitude(x) == 0,
{
    let m = magnitude(x);
    if m > 0 {
        lemma_weight_increases(0, m);
    }
}

/// Whether the pattern is no number.
pub fn nan(x: u64) -> (r: bool)
    ensures
        r == is_nan(x),
{
    let m: u64 = if x >= SIGN_BIT {
        x - SIGN_BIT
    } else {
        x
    };
    m > INFINITY
}

/// Whether `a` is below `b` in the order of IEEE 754.
pub fn less_than(a: u64, b: u64) -> (r: bool)
    ensures
        r == lt(a, b),
{
    if nan(a) || nan(b) {
        return false;
    }
    let negative_a = a >= SIGN_BIT;
    let negative_b = b >= SIGN_BIT;
    let ma: u64 = if negative_a {
        a - SIGN_BIT
    } else {
        a
    };
    let mb: u64 = if negative_b {
        b - SIGN_BIT
    } else {
        b
    };
    proof {
        assert(weight(a) == weight(ma));
        assert(weight(b) == weight(mb));
        if ma < mb {
            lemma_weight_increases(ma, mb);
        }
        if mb < ma {
            lemma_weight_increases(mb, ma);
        }
        lemma_weight_zero(a);
        lemma_weight_zero(b);
    }
    if negative_a {
        if negative_b {
            mb < ma
        } else {
            ma > 0 || mb > 0
        }
    } else {
        if negative_b {
            false
        } else {
            ma < mb
        }
    }
}

} // verus!
