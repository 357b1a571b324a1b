//! What the bits of a double-precision number say about its value.

use vstd::arithmetic::mul::*;
use vstd::arithmetic::power2::*;
use vstd::prelude::*;

use crate::dual_mirror::is_finite;
use crate::dual_mirror::is_nan;
use crate::dual_mirror::keeps_to_bound;
use crate::dual_mirror::same_number;
use crate::dual_mirror::ENTROPY_BOUND;

verus! {

/// The bits without the sign.
pub open spec fn unsigned_bits(bits: u64) -> nat {
    bits as nat % 0x8000_0000_0000_0000
}

/// The biased exponent.
pub open spec fn exponent(bits: u64) -> nat {
    unsigned_bits(bits) / 0x10_0000_0000_0000
}

/// The fraction.
pub open spec fn fraction(bits: u64) -> nat {
    unsigned_bits(bits) % 0x10_0000_0000_0000
}

/// The size of a number in units of the smallest positive one: the fraction, with a leading one
/// unless the exponent is zero, shifted by the exponent.
pub open spec fn units(bits: u64) -> nat {
    if exponent(bits) == 0 {
        fraction(bits)
    } else {
        (0x10_0000_0000_0000 + fraction(bits)) * pow2((exponent(bits) - 1) as nat)
    }
}

/// The value of a number in units of the smallest positive one.
pub open spec fn value_of(bits: u64) -> int {
    if bits >= 0x8000_0000_0000_0000 {
        -(units(bits) as int)
    } else {
        units(bits) as int
    }
}

/// Whether the bits are those of a number, finite or not.
pub open spec fn is_number(bits: u64) -> bool {
    exponent(bits) < 2047 || fraction(bits) == 0
}

/// Larger bits without a sign are those of a larger number.
proof fn units_grow(a: u64, b: u64)
    requires
        unsigned_bits(a) < unsigned_bits(b),
    ensures
        units(a) < units(b),
{
    let one: nat = 0x10_0000_0000_0000;
    let (ea, eb) = (exponent(a), exponent(b));
    let (fa, fb) = (fraction(a), fraction(b));
    assert(ea <= eb && fa < one && fb < one);
    if ea == eb {
        assert(fa < fb);
        if ea > 0 {
            let p = pow2((ea - 1) as nat);
            lemma_pow2_pos((ea - 1) as nat);
            assert((one + fa) * p < (one + fb) * p) by (nonlinear_arith)
                requires
                    p > 0,
                    fa < fb,
            ;
        }
    } else {
        let q = pow2((eb - 1) as nat);
        lemma_pow2_pos((eb - 1) as nat);
        assert(one * q <= (one + fb) * q && one <= one * q) by (nonlinear_arith)
            requires
                q > 0,
                one > 0,
        ;
        if ea > 0 {
            let p = pow2((ea - 1) as nat);
            lemma_pow2_pos((ea - 1) as nat);
            lemma_pow2_unfold(ea);
            assert(pow2(ea) == 2 * p);
            if ea < eb - 1 {
                lemma_pow2_strictly_increases(ea, (eb - 1) as nat);
            }
            assert(2 * p <= q);
            assert((one + fa) * p < one * q) by (nonlinear_arith)
                requires
                    fa < one,
                    p > 0,
                    2 * p <= q,
                    one > 0,
            ;
        }
    }
}

/// Only zero has no units.
proof fn zero_has_no_units(bits: u64)
    ensures
        units(bits) == 0 <==> unsigned_bits(bits) == 0,
{
    if unsigned_bits(bits) > 0 {
        units_grow(0, bits);
    }
}

/// Bits are those of no number exactly if the exponent is the largest one and there is a fraction,
/// and those of a finite number exactly if the exponent is not the largest one.
pub proof fn largest_exponent_is_not_finite(bits: u64)
    ensures
        is_nan(bits) <==> !is_number(bits),
        is_finite(bits) <==> exponent(bits) < 2047,
        is_finite(bits) ==> is_number(bits),
{
}

/// Two numbers are equal exactly if both are numbers and have the same value.
pub proof fn equal_numbers_have_equal_values(a: u64, b: u64)
    ensures
        same_number(a, b) <==> is_number(a) && is_number(b) && value_of(a) == value_of(b),
{
    zero_has_no_units(a);
    zero_has_no_units(b);
    if unsigned_bits(a) < unsigned_bits(b) {
        units_grow(a, b);
    } else if unsigned_bits(b) < unsigned_bits(a) {
        units_grow(b, a);
    }
}

/// An entropy keeps to the bound exactly if it is a number whose value is at most that of the
/// bound.
pub proof fn bound_limits_the_value(entropy: u64)
    ensures
        keeps_to_bound(entropy) <==> is_number(entropy) && value_of(entropy) <= value_of(
            ENTROPY_BOUND,
        ),
{
    zero_has_no_units(ENTROPY_BOUND);
    if entropy < 0x8000_0000_0000_0000 {
        if unsigned_bits(entropy) < unsigned_bits(ENTROPY_BOUND) {
            units_grow(entropy, ENTROPY_BOUND);
        } else if unsigned_bits(ENTROPY_BOUND) < unsigned_bits(entropy) {
            units_grow(ENTROPY_BOUND, entropy);
        }
    }
}

/// Of two numbers of which the larger keeps to the bound, the smaller does too; the bound keeps to
/// itself; and no number above it does.
pub proof fn smaller_entropies_keep_to_the_bound(small: u64, large: u64)
    requires
        is_number(small),
        is_number(large),
        value_of(small) <= value_of(large),
    ensures
        keeps_to_bound(large) ==> keeps_to_bound(small),
        keeps_to_bound(ENTROPY_BOUND),
        small < 0x8000_0000_0000_0000 && small > ENTROPY_BOUND ==> !keeps_to_bound(small)
            && !keeps_to_bound(large),
{
    bound_limits_the_value(small);
    bound_limits_the_value(large);
}

/// The bound is one fifth, as closely as a number can be: five times the bound is one and two
/// units of its last place.
pub proof fn bound_is_one_fifth()
    ensures
        5 * value_of(ENTROPY_BOUND) == pow2(1074) + pow2(1020),
        exponent(ENTROPY_BOUND) == 1020,
{
    let p = pow2(1019) as int;
    let significand = 0x10_0000_0000_0000 + fraction(ENTROPY_BOUND);
    assert(exponent(ENTROPY_BOUND) == 1020);
    assert(significand == 0x19_9999_9999_999A);
    lemma_pow2_adds(1019, 55);
    lemma_pow2_adds(1019, 1);
    lemma2_to64();
    assert(5 * significand == pow2(55) + 2) by {
        lemma2_to64_rest();
    }
    assert(5 * (significand * p) == (5 * significand) * p) by (nonlinear_arith);
    assert((pow2(55) + 2) * p == pow2(55) * p + 2 * p) by (nonlinear_arith);
    lemma_mul_is_commutative(pow2(55) as int, p);
    lemma_mul_is_commutative(2, p);
}

} // verus!
