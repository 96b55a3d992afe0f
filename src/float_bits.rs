//! Single-precision numbers held as their IEEE-754 bit patterns, and the
//! truncating conversion to `i32` that `as` performs.
use vstd::arithmetic::power2::pow2;
use vstd::bits::{lemma_u32_shl_is_mul, lemma_u32_shr_is_div};
use vstd::prelude::*;

verus! {

/// Biased exponent field (bits 23..31).
pub open spec fn exponent_field(bits: u32) -> nat {
    ((bits as nat / 0x80_0000) % 0x100) as nat
}

/// Fraction field (bits 0..23).
pub open spec fn fraction_field(bits: u32) -> nat {
    (bits as nat % 0x80_0000) as nat
}

/// Sign bit.
pub open spec fn is_negative(bits: u32) -> bool {
    bits >= 0x8000_0000
}

pub open spec fn is_nan(bits: u32) -> bool {
    exponent_field(bits) == 0xff && fraction_field(bits) != 0
}

pub open spec fn is_infinite(bits: u32) -> bool {
    exponent_field(bits) == 0xff && fraction_field(bits) == 0
}

/// Significand as an integer: the fraction, with the hidden bit for normal numbers.
pub open spec fn significand(bits: u32) -> nat {
    if exponent_field(bits) == 0 {
        fraction_field(bits)
    } else {
        fraction_field(bits) + 0x80_0000
    }
}

/// For a finite number, its absolute value is `significand * 2^(scale - 150)`.
pub open spec fn scale(bits: u32) -> nat {
    if exponent_field(bits) == 0 {
        1
    } else {
        exponent_field(bits)
    }
}

/// Absolute value of a finite number, rounded toward zero to an integer.
pub open spec fn truncated_magnitude(bits: u32) -> nat {
    if scale(bits) >= 150 {
        significand(bits) * pow2((scale(bits) - 150) as nat)
    } else {
        significand(bits) / pow2((150 - scale(bits)) as nat)
    }
}

/// The value of `x as i32` for the number `x` with these bits: rounded toward
/// zero, saturated at the bounds of `i32`, and `0` for NaN.
pub open spec fn truncate_spec(bits: u32) -> i32 {
    if is_nan(bits) {
        0
    } else if is_infinite(bits) {
        if is_negative(bits) { i32::MIN } else { i32::MAX }
    } else {
        let v: int = if is_negative(bits) {
            -(truncated_magnitude(bits) as int)
        } else {
            truncated_magnitude(bits) as int
        };
        if v > i32::MAX {
            i32::MAX
        } else if v < i32::MIN {
            i32::MIN
        } else {
            v as i32
        }
    }
}

proof fn lemma_fields(bits: u32)
    ensures
        (bits >> 23) & 0xff == exponent_field(bits),
        bits & 0x7f_ffff == fraction_field(bits),
        (bits >> 31 == 1) == is_negative(bits),
{
    assert((bits >> 23) & 0xff == (bits / 0x80_0000) % 0x100) by (bit_vector);
    assert(bits & 0x7f_ffff == bits % 0x80_0000) by (bit_vector);
    assert((bits >> 31 == 1) == (bits >= 0x8000_0000)) by (bit_vector);
}

proof fn lemma_pow2_mono(a: nat, b: nat)
    requires
        a <= b,
    ensures
        pow2(a) <= pow2(b),
    decreases b,
{
    vstd::arithmetic::power2::lemma_pow2_pos(a);
    if a < b {
        lemma_pow2_mono(a, (b - 1) as nat);
        vstd::arithmetic::power2::lemma_pow2_unfold(b);
    }
}

/// Converts the number with these bits to `i32` as `as` does.
pub fn truncate_to_i32(bits: u32) -> (r: i32)
    ensures
        r == truncate_spec(bits),
{
    let exp: u32 = (bits >> 23) & 0xff;
    let frac: u32 = bits & 0x7f_ffff;
    let negative: bool = bits >> 31 == 1;
    proof {
        lemma_fields(bits);
    }
    if exp == 0xff {
        if frac != 0 {
            0
        } else if negative {
            i32::MIN
        } else {
            i32::MAX
        }
    } else if exp >= 158 {
        // The magnitude is at least 2^23 * 2^8 = 2^31.
        proof {
            vstd::arithmetic::power2::lemma2_to64();
            lemma_pow2_mono(8, (exp - 150) as nat);
            assert(significand(bits) * pow2((scale(bits) - 150) as nat) >= 0x80_0000 * 0x100)
                by (nonlinear_arith)
                requires
                    significand(bits) >= 0x80_0000,
                    pow2((scale(bits) - 150) as nat) >= 0x100,
            ;
        }
        if negative {
            i32::MIN
        } else {
            i32::MAX
        }
    } else {
        let sig: u32 = if exp == 0 { frac } else { frac + 0x80_0000 };
        let sc: u32 = if exp == 0 { 1 } else { exp };
        let magnitude: u32 = if sc >= 150 {
            let shift: u32 = sc - 150;
            proof {
                vstd::arithmetic::power2::lemma2_to64();
                lemma_pow2_mono(shift as nat, 7);
                assert(sig * pow2(shift as nat) < 0x100_0000 * 0x80) by (nonlinear_arith)
                    requires
                        sig < 0x100_0000,
                        pow2(shift as nat) <= 0x80,
                ;
                lemma_u32_shl_is_mul(sig, shift);
            }
            sig << shift
        } else {
            let shift: u32 = 150 - sc;
            if shift >= 24 {
                proof {
                    vstd::arithmetic::power2::lemma2_to64();
                    lemma_pow2_mono(24, shift as nat);
                    vstd::arithmetic::div_mod::lemma_basic_div(
                        sig as int,
                        pow2(shift as nat) as int,
                    );
                }
                0
            } else {
                proof {
                    lemma_u32_shr_is_div(sig, shift);
                    vstd::arithmetic::power2::lemma_pow2_pos(shift as nat);
                    vstd::arithmetic::div_mod::lemma_div_is_ordered_by_denominator(
                        sig as int,
                        1,
                        pow2(shift as nat) as int,
                    );
                }
                sig >> shift
            }
        };
        assert(magnitude == truncated_magnitude(bits));
        let m: i32 = magnitude as i32;
        if negative {
            -m
        } else {
            m
        }
    }
}

} // verus!
