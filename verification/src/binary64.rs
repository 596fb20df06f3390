//! Numbers in the binary64 format of IEEE 754, held as their bit patterns.
//!
//! The library orders and compares such numbers; it never does arithmetic on
//! them. A number is equal to another, or below it, as IEEE 754 says: a NaN
//! is neither equal to nor below anything, and the two zeros are equal.
use vstd::prelude::*;
use vstd::arithmetic::power2::{lemma_pow2_pos, lemma_pow2_strictly_increases, lemma_pow2_unfold, pow2};

verus! {

/// A binary64 number, as its 64 bits.
pub type Binary64 = u64;

/// The bit that holds the sign.
pub const SIGN_BIT: u64 = 0x8000_0000_0000_0000;

/// The bits of positive infinity: every larger magnitude is a NaN.
pub const INFINITY: Binary64 = 0x7FF0_0000_0000_0000;

/// 0
pub const ZERO: Binary64 = 0;

/// 1
pub const ONE: Binary64 = 0x3FF0_0000_0000_0000;

/// -1
pub const MINUS_ONE: Binary64 = 0xBFF0_0000_0000_0000;

/// 1/2
pub const HALF: Binary64 = 0x3FE0_0000_0000_0000;

/// 2
pub const TWO: Binary64 = 0x4000_0000_0000_0000;

/// The binary64 number nearest to 1/3.
pub const ONE_THIRD: Binary64 = 0x3FD5_5555_5555_5555;

/// The binary64 number nearest to 2/3.
pub const TWO_THIRDS: Binary64 = 0x3FE5_5555_5555_5555;

/// The binary64 number nearest to 0.8.
pub const FOUR_FIFTHS: Binary64 = 0x3FE9_9999_9999_999A;

/// 1e-7, the tolerance of the broad phase.
pub const GEOMETRIC_EPSILON: Binary64 = 0x3E7A_D7F2_9ABC_AF48;

/// 1e-8, the margin that keeps a curve parameter off the ends of a curve.
pub const CURVETIME_EPSILON: Binary64 = 0x3E45_798E_E230_8C3A;

/// 1 - 1e-8, as binary64 subtraction gives it.
pub const CURVETIME_MAX: Binary64 = 0x3FEF_FFFF_FAA1_9C47;

/// 1e-9, the width below which a clipped parameter window has converged.
pub const FATLINE_EPSILON: Binary64 = 0x3E11_2E0B_E826_D695;

/// 1e-12, the bound of the general test for zero.
pub const EPSILON: Binary64 = 0x3D71_9799_812D_EA11;

/// -1e-12
pub const MINUS_EPSILON: Binary64 = 0xBD71_9799_812D_EA11;

/// 1.12e-16, the bound of the test for zero of a determinant.
pub const MACHINE_EPSILON: Binary64 = 0x3CA0_2412_1797_FB36;

/// -1.12e-16
pub const MINUS_MACHINE_EPSILON: Binary64 = 0xBCA0_2412_1797_FB36;

/// 1 + 1.12e-16, as binary64 addition gives it.
pub const ONE_PLUS_MACHINE_EPSILON: Binary64 = 0x3FF0_0000_0000_0001;

/// The bits of `x` without the sign.
pub open spec fn magnitude(x: Binary64) -> int {
    if x >= SIGN_BIT {
        x - SIGN_BIT
    } else {
        x as int
    }
}

/// Whether the bits hold no number.
pub open spec fn spec_is_nan(x: Binary64) -> bool {
    magnitude(x) > INFINITY
}

/// The place of `x` among the binary64 numbers: one number is below another
/// exactly when its rank is, and the two zeros share the rank 0.
pub open spec fn rank_of(x: Binary64) -> int {
    if x >= SIGN_BIT {
        -magnitude(x)
    } else {
        magnitude(x)
    }
}

/// `a < b`
pub open spec fn spec_lt(a: Binary64, b: Binary64) -> bool {
    !spec_is_nan(a) && !spec_is_nan(b) && rank_of(a) < rank_of(b)
}

/// `a <= b`
pub open spec fn spec_le(a: Binary64, b: Binary64) -> bool {
    !spec_is_nan(a) && !spec_is_nan(b) && rank_of(a) <= rank_of(b)
}

/// `a == b`
pub open spec fn spec_eq(a: Binary64, b: Binary64) -> bool {
    !spec_is_nan(a) && !spec_is_nan(b) && rank_of(a) == rank_of(b)
}

/// The weight of the lowest bit of the exponent, 2^52: the bits below it hold
/// the fraction.
pub const FRACTION_LIMIT: u64 = 0x0010_0000_0000_0000;

/// The exponent field of `x`.
pub open spec fn exponent(x: Binary64) -> int {
    magnitude(x) / (FRACTION_LIMIT as int)
}

/// The fraction field of `x`.
pub open spec fn fraction(x: Binary64) -> int {
    magnitude(x) % (FRACTION_LIMIT as int)
}

/// The absolute value of the number `x`, in units of 2^-1074, the least
/// positive number: the fraction alone where the exponent field is 0, and
/// else the fraction with the hidden bit above it, doubled as many times as
/// the exponent field exceeds 1. For an infinity it is the value that the
/// same reading gives, which is above every number.
pub open spec fn absolute_value(x: Binary64) -> int {
    if exponent(x) == 0 {
        fraction(x)
    } else {
        (FRACTION_LIMIT + fraction(x)) * pow2((exponent(x) - 1) as nat)
    }
}

/// The value of the number `x`, in units of 2^-1074.
pub open spec fn value(x: Binary64) -> int {
    if x >= SIGN_BIT {
        -absolute_value(x)
    } else {
        absolute_value(x)
    }
}

/// Of two numbers, the one with the greater magnitude of bits has the greater
/// absolute value.
proof fn lemma_absolute_value_grows(a: Binary64, b: Binary64)
    requires
        magnitude(a) < magnitude(b),
    ensures
        0 <= absolute_value(a) < absolute_value(b),
{
    let limit = FRACTION_LIMIT as int;
    let (ea, fa) = (exponent(a), fraction(a));
    let (eb, fb) = (exponent(b), fraction(b));
    assert(magnitude(a) == ea * limit + fa && 0 <= fa < limit && 0 <= ea) by {
        assert(magnitude(a) == limit * (magnitude(a) / limit) + magnitude(a) % limit) by (nonlinear_arith)
            requires
                limit == 0x0010_0000_0000_0000,
        ;
    }
    assert(magnitude(b) == eb * limit + fb && 0 <= fb < limit && 0 <= eb) by {
        assert(magnitude(b) == limit * (magnitude(b) / limit) + magnitude(b) % limit) by (nonlinear_arith)
            requires
                limit == 0x0010_0000_0000_0000,
        ;
    }
    assert(ea <= eb) by (nonlinear_arith)
        requires
            ea * limit + fa < eb * limit + fb,
            0 <= fa < limit,
            0 <= fb < limit,
    ;
    if ea == eb {
        if ea > 0 {
            let scale = pow2((ea - 1) as nat);
            lemma_pow2_pos((ea - 1) as nat);
            assert((limit + fa) * scale < (limit + fb) * scale) by (nonlinear_arith)
                requires
                    fa < fb,
                    scale > 0,
            ;
            assert(0 <= (limit + fa) * scale) by (nonlinear_arith)
                requires
                    0 <= fa,
                    limit > 0,
                    scale > 0,
            ;
        }
    } else {
        let high = pow2((eb - 1) as nat);
        lemma_pow2_pos((eb - 1) as nat);
        assert(limit * high <= (limit + fb) * high) by (nonlinear_arith)
            requires
                0 <= fb,
                high > 0,
        ;
        if ea == 0 {
            assert(limit <= limit * high) by (nonlinear_arith)
                requires
                    limit > 0,
                    high >= 1,
            ;
        } else {
            let low = pow2((ea - 1) as nat);
            lemma_pow2_pos((ea - 1) as nat);
            lemma_pow2_unfold(ea as nat);
            assert(pow2(ea as nat) == 2 * low);
            if ea < eb - 1 {
                lemma_pow2_strictly_increases(ea as nat, (eb - 1) as nat);
            }
            assert(2 * low <= high);
            assert((limit + fa) * low < limit * high) by (nonlinear_arith)
                requires
                    0 <= fa < limit,
                    low > 0,
                    2 * low <= high,
            ;
            assert(0 <= (limit + fa) * low) by (nonlinear_arith)
                requires
                    0 <= fa,
                    limit > 0,
                    low > 0,
            ;
        }
    }
}

/// Numbers are ordered as their values are: one is below another exactly when
/// its value is smaller, and two are equal exactly when their values are.
pub proof fn lemma_order_is_by_value(a: Binary64, b: Binary64)
    requires
        !spec_is_nan(a),
        !spec_is_nan(b),
    ensures
        spec_lt(a, b) <==> value(a) < value(b),
        spec_le(a, b) <==> value(a) <= value(b),
        spec_eq(a, b) <==> value(a) == value(b),
        rank_of(a) < rank_of(b) <==> value(a) < value(b),
{
    if magnitude(a) < magnitude(b) {
        lemma_absolute_value_grows(a, b);
    } else if magnitude(b) < magnitude(a) {
        lemma_absolute_value_grows(b, a);
    }
    lemma_absolute_value_of_zero(a);
    lemma_absolute_value_of_zero(b);
}

/// An absolute value is never negative, and is zero only for a zero.
proof fn lemma_absolute_value_of_zero(a: Binary64)
    ensures
        0 <= absolute_value(a),
        absolute_value(a) == 0 <==> magnitude(a) == 0,
{
    let zero: Binary64 = 0;
    if magnitude(a) > 0 {
        lemma_absolute_value_grows(zero, a);
    }
}

/// Whether the bits hold no number.
#[verifier::when_used_as_spec(spec_is_nan)]
pub fn is_nan(x: Binary64) -> (r: bool)
    ensures
        r == spec_is_nan(x),
{
    let magnitude = if x >= SIGN_BIT {
        x - SIGN_BIT
    } else {
        x
    };
    magnitude > INFINITY
}

/// The place of `x` among the binary64 numbers, as a signed integer.
pub fn rank(x: Binary64) -> (r: i64)
    ensures
        r == rank_of(x),
{
    if x >= SIGN_BIT {
        -((x - SIGN_BIT) as i64)
    } else {
        x as i64
    }
}

/// `a < b`
#[verifier::when_used_as_spec(spec_lt)]
pub fn lt(a: Binary64, b: Binary64) -> (r: bool)
    ensures
        r == spec_lt(a, b),
{
    !is_nan(a) && !is_nan(b) && rank(a) < rank(b)
}

/// `a <= b`
#[verifier::when_used_as_spec(spec_le)]
pub fn le(a: Binary64, b: Binary64) -> (r: bool)
    ensures
        r == spec_le(a, b),
{
    !is_nan(a) && !is_nan(b) && rank(a) <= rank(b)
}

/// `a > b`
pub fn gt(a: Binary64, b: Binary64) -> (r: bool)
    ensures
        r == lt(b, a),
{
    lt(b, a)
}

/// `a >= b`
pub fn ge(a: Binary64, b: Binary64) -> (r: bool)
    ensures
        r == le(b, a),
{
    le(b, a)
}

/// `a == b`
#[verifier::when_used_as_spec(spec_eq)]
pub fn eq(a: Binary64, b: Binary64) -> (r: bool)
    ensures
        r == spec_eq(a, b),
{
    !is_nan(a) && !is_nan(b) && rank(a) == rank(b)
}

/// `x` without its sign.
pub open spec fn absolute(x: Binary64) -> Binary64 {
    if x >= SIGN_BIT {
        (x - SIGN_BIT) as u64
    } else {
        x
    }
}

/// `x` without its sign: the number of the same magnitude that is not
/// negative.
pub fn abs(x: Binary64) -> (r: Binary64)
    ensures
        r == absolute(x),
        r as int == magnitude(x),
{
    if x >= SIGN_BIT {
        x - SIGN_BIT
    } else {
        x
    }
}

/// Whether `value` lies within 1e-12 of zero.
pub fn is_zero(value: Binary64) -> (r: bool)
    ensures
        r == (le(MINUS_EPSILON, value) && le(value, EPSILON)),
{
    ge(value, MINUS_EPSILON) && le(value, EPSILON)
}

/// Whether `value` lies within 1.12e-16 of zero.
pub fn is_machine_zero(value: Binary64) -> (r: bool)
    ensures
        r == (le(MINUS_MACHINE_EPSILON, value) && le(value, MACHINE_EPSILON)),
{
    ge(value, MINUS_MACHINE_EPSILON) && le(value, MACHINE_EPSILON)
}

} // verus!
