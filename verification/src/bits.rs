//! The fields of an IEEE 754 double-precision bit pattern, read with plain
//! integer arithmetic.
//!
//! The requested threshold reaches the library as the raw bits of a double.
//! A finite, non-negative double with biased exponent `e` and fraction `f`
//! denotes the rational number `mantissa * 2^scale / 2^1074`, where
//! `mantissa` restores the implicit leading bit of a normal number and
//! `scale` is `e - 1` for normal numbers and `0` for subnormal ones.

use vstd::prelude::*;

verus! {

/// 2^52, the weight of the implicit leading bit of a normal double.
pub const IMPLICIT_BIT: u64 = 0x10_0000_0000_0000;

/// 2^63, the weight of the sign bit.
pub const SIGN_BIT: u64 = 0x8000_0000_0000_0000;

/// Biased exponent reserved for infinities and NaNs.
pub const EXP_SPECIAL: u64 = 0x7ff;

/// The sign field: 0 for non-negative doubles, 1 for negative ones.
pub open spec fn sign_field(gb_bits: u64) -> nat {
    (gb_bits as nat) / (SIGN_BIT as nat)
}

/// The biased exponent field, 11 bits.
pub open spec fn exp_field(gb_bits: u64) -> nat {
    ((gb_bits as nat) / (IMPLICIT_BIT as nat)) % 0x800
}

/// The fraction field, 52 bits.
pub open spec fn frac_field(gb_bits: u64) -> nat {
    (gb_bits as nat) % (IMPLICIT_BIT as nat)
}

/// A bit pattern denotes NaN when the exponent field is all ones and the
/// fraction field is not zero.
pub open spec fn is_nan(gb_bits: u64) -> bool {
    exp_field(gb_bits) == EXP_SPECIAL && frac_field(gb_bits) != 0
}

/// A bit pattern denotes an infinity when the exponent field is all ones and
/// the fraction field is zero.
pub open spec fn is_infinite(gb_bits: u64) -> bool {
    exp_field(gb_bits) == EXP_SPECIAL && frac_field(gb_bits) == 0
}

/// The integer mantissa: the fraction with the implicit bit restored for
/// normal numbers. Always below 2^53.
pub open spec fn mantissa(gb_bits: u64) -> nat {
    if exp_field(gb_bits) == 0 {
        frac_field(gb_bits)
    } else {
        (IMPLICIT_BIT as nat) + frac_field(gb_bits)
    }
}

/// The power of two that, together with the fixed denominator 2^1074, scales
/// the mantissa to the denoted magnitude: `mantissa * 2^scale / 2^1074`.
pub open spec fn scale(gb_bits: u64) -> nat {
    if exp_field(gb_bits) == 0 {
        0
    } else {
        (exp_field(gb_bits) - 1) as nat
    }
}

/// The three fields of a double's bit pattern: sign, biased exponent,
/// fraction.
pub fn decompose(gb_bits: u64) -> (r: (u64, u64, u64))
    ensures
        r.0 as nat == sign_field(gb_bits),
        r.1 as nat == exp_field(gb_bits),
        r.2 as nat == frac_field(gb_bits),
        r.0 <= 1,
        r.1 < 0x800,
        r.2 < IMPLICIT_BIT,
{
    let s: u64 = gb_bits / SIGN_BIT;
    let e: u64 = (gb_bits / IMPLICIT_BIT) % 0x800;
    let f: u64 = gb_bits % IMPLICIT_BIT;
    (s, e, f)
}

} // verus!
