//! Decimal rendering of gigabyte quantities, two places after the point.
//!
//! Quantities are first rounded to a whole number of hundredths of a
//! gigabyte — to nearest, ties to even, the rounding of the standard
//! fixed-precision formatter — and then written out as digits. All of it is
//! integer arithmetic.

use vstd::prelude::*;
use vstd::arithmetic::power2::{
    pow2, lemma_pow2_adds, lemma_pow2_pos, lemma2_to64, lemma2_to64_rest,
};
use vstd::arithmetic::mul::{
    lemma_mul_equality_converse, lemma_mul_inequality, lemma_mul_strict_inequality,
    lemma_mul_is_associative, lemma_mul_is_commutative, lemma_mul_is_distributive_add_other_way,
};
use vstd::arithmetic::div_mod::{
    lemma_fundamental_div_mod, lemma_fundamental_div_mod_converse,
    lemma_mod_division_less_than_divisor, lemma_div_is_ordered,
};
use crate::bits::{
    decompose, exp_field, is_infinite, is_nan, mantissa, scale, sign_field, EXP_SPECIAL,
};

verus! {

/// The quotient `num / den` rounded to the nearest whole number, ties to
/// even, for an even positive denominator.
pub open spec fn round_half_even(num: nat, den: nat) -> nat
    recommends
        den >= 2,
        den % 2 == 0,
{
    let h = (num + den / 2) / den;
    if num % den == den / 2 && h % 2 == 1 {
        (h - 1) as nat
    } else {
        h
    }
}

/// An available byte count as hundredths of a binary gigabyte, rounded to
/// nearest with ties to even.
pub open spec fn avail_hundredths(avail_bytes: u64) -> nat {
    round_half_even((avail_bytes as nat) * 100, 0x4000_0000)
}

/// A finite threshold's magnitude as hundredths of a gigabyte, rounded to
/// nearest with ties to even. The magnitude is `mantissa * 2^scale / 2^1074`
/// gigabytes, so its hundredths round `mantissa * 100 * 2^scale / 2^1074`.
pub open spec fn threshold_hundredths(gb_bits: u64) -> nat {
    round_half_even(mantissa(gb_bits) * 100 * pow2(scale(gb_bits)), pow2(1074))
}

/// The rounding is to the nearest: the rounded count of `den`-ths differs
/// from the exact quotient by at most half a unit, stated free of
/// fractions as `|round_half_even(num, den) * den - num| <= den / 2`.
pub proof fn lemma_round_half_even_nearest(num: nat, den: nat)
    requires
        den >= 2,
        den % 2 == 0,
    ensures
        round_half_even(num, den) * den <= num + den / 2,
        num <= round_half_even(num, den) * den + den / 2,
{
    let half = den / 2;
    let h0 = (num + half) / den;
    let r = (num + half) % den;
    lemma_fundamental_div_mod((num + half) as int, den as int);
    lemma_mod_division_less_than_divisor((num + half) as int, den as int);
    lemma_mul_is_commutative(den as int, h0 as int);
    assert(h0 * den == num + half - r);
    if num % den == half && h0 % 2 == 1 {
        let q = num / den;
        lemma_fundamental_div_mod(num as int, den as int);
        assert(num == den * q + half);
        assert(num + half == den * (q + 1)) by {
            vstd::arithmetic::mul::lemma_mul_is_distributive_add(den as int, q as int, 1);
        }
        lemma_fundamental_div_mod_converse((num + half) as int, den as int, (q + 1) as int, 0);
        assert(h0 == q + 1);
        assert((h0 - 1) * den == num - half) by {
            lemma_mul_is_commutative(den as int, (q + 1) as int);
            vstd::arithmetic::mul::lemma_mul_is_distributive_sub_other_way(
                den as int,
                (q + 1) as int,
                1,
            );
        }
    }
}

/// The displayed hundredths of an available byte count are nearest: they
/// sit within half a hundredth of the exact quantity `100 * bytes / 2^30`,
/// fractions cleared by the factor 2^30.
pub proof fn lemma_avail_display_nearest(avail_bytes: u64)
    ensures
        avail_hundredths(avail_bytes) * 0x4000_0000 <= (avail_bytes as nat) * 100 + 0x2000_0000,
        (avail_bytes as nat) * 100 <= avail_hundredths(avail_bytes) * 0x4000_0000 + 0x2000_0000,
{
    lemma_round_half_even_nearest((avail_bytes as nat) * 100, 0x4000_0000);
}

/// The threshold's displayed hundredths are nearest in the same sense,
/// fractions cleared by the factor 2^1074.
pub proof fn lemma_threshold_display_nearest(gb_bits: u64)
    ensures
        threshold_hundredths(gb_bits) * pow2(1074) <= mantissa(gb_bits) * 100 * pow2(
            scale(gb_bits),
        ) + pow2(1073),
        mantissa(gb_bits) * 100 * pow2(scale(gb_bits)) <= threshold_hundredths(gb_bits) * pow2(
            1074,
        ) + pow2(1073),
{
    lemma_pow2_pos(1073);
    lemma_pow2_adds(1073, 1);
    lemma2_to64();
    assert(pow2(1074) == pow2(1073) * 2);
    lemma_round_half_even_nearest(mantissa(gb_bits) * 100 * pow2(scale(gb_bits)), pow2(1074));
}

/// The decimal digit characters.
pub open spec fn digit_char(d: nat) -> char {
    if d == 0 {
        '0'
    } else if d == 1 {
        '1'
    } else if d == 2 {
        '2'
    } else if d == 3 {
        '3'
    } else if d == 4 {
        '4'
    } else if d == 5 {
        '5'
    } else if d == 6 {
        '6'
    } else if d == 7 {
        '7'
    } else if d == 8 {
        '8'
    } else {
        '9'
    }
}

/// The usual decimal writing of a number: no sign, no leading zero except
/// on zero itself.
pub open spec fn dec_rep(n: nat) -> Seq<char>
    decreases n,
{
    if n < 10 {
        seq![digit_char(n)]
    } else {
        dec_rep(n / 10) + seq![digit_char(n % 10)]
    }
}

/// A count of hundredths written with two places after the point: the whole
/// part in decimal, a point, then exactly two digits.
pub open spec fn gb_display(h: nat) -> Seq<char> {
    dec_rep(h / 100) + seq!['.'] + seq![digit_char((h / 10) % 10), digit_char(h % 10)]
}

/// Appends one decimal digit character.
fn append_digit(d: u128, out: &mut String)
    requires
        d < 10,
    ensures
        final(out)@ == old(out)@ + seq![digit_char(d as nat)],
{
    if d == 0 {
        proof {
            reveal_strlit("0");
            assert("0"@ =~= seq![digit_char(0)]);
        }
        out.append("0");
    } else if d == 1 {
        proof {
            reveal_strlit("1");
            assert("1"@ =~= seq![digit_char(1)]);
        }
        out.append("1");
    } else if d == 2 {
        proof {
            reveal_strlit("2");
            assert("2"@ =~= seq![digit_char(2)]);
        }
        out.append("2");
    } else if d == 3 {
        proof {
            reveal_strlit("3");
            assert("3"@ =~= seq![digit_char(3)]);
        }
        out.append("3");
    } else if d == 4 {
        proof {
            reveal_strlit("4");
            assert("4"@ =~= seq![digit_char(4)]);
        }
        out.append("4");
    } else if d == 5 {
        proof {
            reveal_strlit("5");
            assert("5"@ =~= seq![digit_char(5)]);
        }
        out.append("5");
    } else if d == 6 {
        proof {
            reveal_strlit("6");
            assert("6"@ =~= seq![digit_char(6)]);
        }
        out.append("6");
    } else if d == 7 {
        proof {
            reveal_strlit("7");
            assert("7"@ =~= seq![digit_char(7)]);
        }
        out.append("7");
    } else if d == 8 {
        proof {
            reveal_strlit("8");
            assert("8"@ =~= seq![digit_char(8)]);
        }
        out.append("8");
    } else {
        proof {
            reveal_strlit("9");
            assert("9"@ =~= seq![digit_char(9)]);
        }
        out.append("9");
    }
}

/// Appends the decimal writing of `n`.
fn append_dec(n: u128, out: &mut String)
    ensures
        final(out)@ == old(out)@ + dec_rep(n as nat),
    decreases n,
{
    if n < 10 {
        append_digit(n, out);
    } else {
        proof {
            assert(n / 10 < n) by (nonlinear_arith)
                requires
                    n >= 10,
            ;
        }
        append_dec(n / 10, out);
        append_digit(n % 10, out);
        proof {
            assert(old(out)@ + dec_rep((n / 10) as nat) + seq![digit_char((n % 10) as nat)]
                =~= old(out)@ + dec_rep(n as nat));
        }
    }
}

/// The decimal writing of a count of hundredths, two places after the
/// point.
pub fn render_hundredths(h: u128) -> (r: String)
    ensures
        r@ == gb_display(h as nat),
{
    let mut out = String::new();
    append_dec(h / 100, &mut out);
    proof {
        reveal_strlit(".");
        assert("."@ =~= seq!['.']);
    }
    out.append(".");
    append_digit((h / 10) % 10, &mut out);
    append_digit(h % 10, &mut out);
    proof {
        assert(out@ =~= gb_display(h as nat));
    }
    out
}

/// An available byte count as hundredths of a gigabyte, as a machine word.
pub fn gb_hundredths(avail_bytes: u64) -> (h: u64)
    ensures
        h as nat == avail_hundredths(avail_bytes),
{
    let num: u128 = (avail_bytes as u128) * 100;
    let h0: u128 = (num + 0x2000_0000) / 0x4000_0000;
    let rem: u128 = num % 0x4000_0000;
    let h: u128 = if rem == 0x2000_0000 && h0 % 2 == 1 {
        h0 - 1
    } else {
        h0
    };
    proof {
        lemma_div_is_ordered((num + 0x2000_0000) as int, 0x7_0000_0000_0000_0000_0000 as int,
            0x4000_0000 as int);
    }
    h as u64
}

/// 2^k as a double machine word, computed by doubling.
fn pow2_u128(k: u64) -> (r: u128)
    requires
        k <= 127,
    ensures
        r as nat == pow2(k as nat),
{
    let mut i: u64 = 0;
    let mut r: u128 = 1;
    proof {
        lemma2_to64();
    }
    while i < k
        invariant
            i <= k,
            k <= 127,
            r as nat == pow2(i as nat),
        decreases k - i,
    {
        proof {
            lemma_pow2_adds(i as nat, 1);
            lemma2_to64();
            lemma2_to64_rest();
            crate::compare::lemma_pow2_increases((i + 1) as nat, 127);
            lemma_pow2_adds(64, 63);
        }
        r = r * 2;
        i = i + 1;
    }
    r
}

/// A finite threshold's hundredths of a gigabyte as a machine word, or
/// `None` when they exceed the largest one.
pub(crate) fn threshold_hundredths_word(gb_bits: u64) -> (r: Option<u128>)
    requires
        exp_field(gb_bits) != EXP_SPECIAL as nat,
    ensures
        match r {
            Some(h) => h as nat == threshold_hundredths(gb_bits),
            None => threshold_hundredths(gb_bits) > u128::MAX as nat,
        },
{
    let (_s, e, f) = decompose(gb_bits);
    let m: u64 = if e == 0 { f } else { crate::bits::IMPLICIT_BIT + f };
    let g: u64 = if e == 0 { 0 } else { e - 1 };
    proof {
        assert(m as nat == mantissa(gb_bits));
        assert(g as nat == scale(gb_bits));
        assert(m < 0x20_0000_0000_0000);
    }
    let base: u128 = (m as u128) * 100;
    proof {
        assert(base < 0x1000_0000_0000_0000) by (nonlinear_arith)
            requires
                base == (m as u128) * 100,
                m < 0x20_0000_0000_0000,
        ;
    }
    if g >= 1074 {
        // The threshold is a whole multiple of 2^1074 hundredths' worth:
        // the result is exactly base * 2^(g - 1074), no rounding.
        let sh: u64 = g - 1074;
        proof {
            lemma_exact_scaled_hundredths(m as nat, g as nat, sh as nat);
        }
        if sh >= 128 {
            proof {
                crate::compare::lemma_pow2_increases(128, sh as nat);
                lemma_pow2_adds(64, 64);
                lemma2_to64();
                assert(base >= 1) by (nonlinear_arith)
                    requires
                        base == (m as u128) * 100,
                        m >= 1,
                ;
                lemma_mul_inequality(1, base as int, pow2(sh as nat) as int);
                assert((base as nat) * pow2(sh as nat) >= pow2(sh as nat));
            }
            None
        } else {
            let p: u128 = pow2_u128(sh);
            proof {
                lemma_pow2_pos(sh as nat);
            }
            let cap: u128 = u128::MAX / p;
            proof {
                lemma_fundamental_div_mod(u128::MAX as int, p as int);
                lemma_mod_division_less_than_divisor(u128::MAX as int, p as int);
                lemma_mul_is_commutative(cap as int, p as int);
                if base > cap {
                    lemma_mul_inequality((cap + 1) as int, base as int, p as int);
                    lemma_mul_is_distributive_add_other_way(p as int, cap as int, 1);
                    assert((base as nat) * (p as nat) > u128::MAX as nat);
                }
            }
            if base > cap {
                None
            } else {
                proof {
                    lemma_mul_inequality(base as int, cap as int, p as int);
                }
                Some(base * p)
            }
        }
    } else {
        // Divide base by 2^k, k = 1074 - g, rounding to nearest, ties to
        // even; the common factor 2^g of numerator and denominator drops
        // out of the spec-side rounding.
        let k: u64 = 1074 - g;
        proof {
            lemma_scaled_hundredths(m as nat, g as nat, k as nat);
        }
        if k >= 61 {
            proof {
                crate::compare::lemma_pow2_increases(60, (k - 1) as nat);
                lemma2_to64_rest();
                assert(base < pow2((k - 1) as nat));
                lemma_round_small(base as nat, k as nat);
            }
            Some(0)
        } else {
            let p: u128 = pow2_u128(k);
            let half: u128 = p / 2;
            proof {
                lemma_pow2_adds((k - 1) as nat, 1);
                lemma2_to64();
                assert(p == 2 * pow2((k - 1) as nat));
                assert(half as nat == pow2((k - 1) as nat));
                lemma_pow2_pos((k - 1) as nat);
            }
            let h0: u128 = (base + half) / p;
            let rem: u128 = base % p;
            if rem == half && h0 % 2 == 1 {
                Some(h0 - 1)
            } else {
                Some(h0)
            }
        }
    }
}

/// Whether the threshold's display can be rendered: always, except for a
/// finite threshold whose hundredths overflow the largest machine word.
pub open spec fn threshold_display_defined(gb_bits: u64) -> bool {
    is_nan(gb_bits) || is_infinite(gb_bits) || threshold_hundredths(gb_bits) <= u128::MAX as nat
}

/// The display of a threshold, as the standard formatter writes a double
/// with two places after the point: `NaN` for the NaN patterns, `inf` and
/// `-inf` for the infinities, otherwise an optional minus sign and the
/// rounded hundredths.
pub open spec fn threshold_display(gb_bits: u64) -> Seq<char>
    recommends
        threshold_display_defined(gb_bits),
{
    if is_nan(gb_bits) {
        "NaN"@
    } else if is_infinite(gb_bits) && sign_field(gb_bits) == 1 {
        "-inf"@
    } else if is_infinite(gb_bits) {
        "inf"@
    } else if sign_field(gb_bits) == 1 {
        "-"@ + gb_display(threshold_hundredths(gb_bits))
    } else {
        gb_display(threshold_hundredths(gb_bits))
    }
}

/// Renders the threshold's display, or `None` for a finite threshold whose
/// hundredths overflow the largest machine word.
pub fn render_threshold(gb_bits: u64) -> (r: Option<String>)
    ensures
        r is Some <==> threshold_display_defined(gb_bits),
        r matches Some(s) ==> s@ == threshold_display(gb_bits),
{
    let (s, e, f) = decompose(gb_bits);
    if e == EXP_SPECIAL {
        if f != 0 {
            Some(String::from_str("NaN"))
        } else if s == 1 {
            Some(String::from_str("-inf"))
        } else {
            Some(String::from_str("inf"))
        }
    } else {
        match threshold_hundredths_word(gb_bits) {
            None => None,
            Some(h) => {
                let digits = render_hundredths(h);
                if s == 1 {
                    let mut out = String::from_str("-");
                    out.append(digits.as_str());
                    Some(out)
                } else {
                    Some(digits)
                }
            },
        }
    }
}

/// For `g >= 1074` the rounding is exact:
/// `threshold_hundredths == m * 100 * 2^(g - 1074)`.
proof fn lemma_exact_scaled_hundredths(m: nat, g: nat, sh: nat)
    requires
        g == sh + 1074,
    ensures
        round_half_even(m * 100 * pow2(g), pow2(1074)) == (m * 100) * pow2(sh),
{
    let b = m * 100;
    let a = b * pow2(sh);
    lemma_pow2_adds(sh, 1074);
    lemma_mul_is_associative(b as int, pow2(sh) as int, pow2(1074) as int);
    assert(b * pow2(g) == a * pow2(1074));
    lemma_pow2_pos(1074);
    lemma_pow2_pos(1073);
    lemma_pow2_adds(1073, 1);
    lemma2_to64();
    assert(pow2(1074) / 2 == pow2(1073)) by {
        assert(pow2(1074) == pow2(1073) * 2);
    }
    lemma_fundamental_div_mod_converse(
        (b * pow2(g) + pow2(1073)) as int,
        pow2(1074) as int,
        a as int,
        pow2(1073) as int,
    );
    lemma_fundamental_div_mod_converse((b * pow2(g)) as int, pow2(1074) as int, a as int, 0);
}

/// For `g < 1074` the common factor `2^g` of the numerator and the
/// denominator drops out of the rounding.
proof fn lemma_scaled_hundredths(m: nat, g: nat, k: nat)
    requires
        g + k == 1074,
        k >= 1,
    ensures
        round_half_even(m * 100 * pow2(g), pow2(1074)) == round_half_even(m * 100, pow2(k)),
{
    let b = m * 100;
    lemma_pow2_pos(g);
    lemma_pow2_pos(k);
    lemma_pow2_pos((k - 1) as nat);
    lemma_pow2_adds(k, g);
    lemma_pow2_adds((k - 1) as nat, g);
    lemma_pow2_adds((k - 1) as nat, 1);
    lemma2_to64();
    assert(pow2(k) == pow2((k - 1) as nat) * 2);
    assert(pow2(k) / 2 == pow2((k - 1) as nat));
    assert(pow2(1074) == pow2(k) * pow2(g));
    assert(pow2(1073) == pow2((k - 1) as nat) * pow2(g)) by {
        lemma_pow2_adds(1073, 1);
        assert(pow2(1074) == pow2(1073) * 2);
        assert((k - 1) + g == 1073);
    }
    assert(pow2(1074) / 2 == pow2(1073)) by {
        lemma_pow2_adds(1073, 1);
        assert(pow2(1074) == pow2(1073) * 2);
    }
    // Quotient with the added half, scaled by 2^g.
    let q = (b + pow2((k - 1) as nat)) / pow2(k);
    let r = (b + pow2((k - 1) as nat)) % pow2(k);
    lemma_fundamental_div_mod((b + pow2((k - 1) as nat)) as int, pow2(k) as int);
    lemma_mod_division_less_than_divisor((b + pow2((k - 1) as nat)) as int, pow2(k) as int);
    assert(b + pow2((k - 1) as nat) == pow2(k) * q + r);
    assert((b + pow2((k - 1) as nat)) * pow2(g) == (pow2(k) * q) * pow2(g) + r * pow2(g)) by {
        lemma_mul_is_distributive_add_other_way(pow2(g) as int, (pow2(k) * q) as int, r as int);
    }
    lemma_mul_is_distributive_add_other_way(pow2(g) as int, b as int, pow2((k - 1) as nat) as int);
    assert((b + pow2((k - 1) as nat)) * pow2(g) == b * pow2(g) + pow2(1073));
    assert((pow2(k) * q) * pow2(g) == q * pow2(1074)) by {
        lemma_mul_is_commutative(pow2(k) as int, q as int);
        lemma_mul_is_associative(q as int, pow2(k) as int, pow2(g) as int);
    }
    assert(r * pow2(g) < pow2(1074)) by {
        lemma_mul_strict_inequality(r as int, pow2(k) as int, pow2(g) as int);
    }
    lemma_fundamental_div_mod_converse(
        (b * pow2(g) + pow2(1073)) as int,
        pow2(1074) as int,
        q as int,
        (r * pow2(g)) as int,
    );
    // Remainder of the raw numerator, scaled by 2^g.
    let q2 = b / pow2(k);
    let r2 = b % pow2(k);
    lemma_fundamental_div_mod(b as int, pow2(k) as int);
    lemma_mod_division_less_than_divisor(b as int, pow2(k) as int);
    assert(b * pow2(g) == (pow2(k) * q2) * pow2(g) + r2 * pow2(g)) by {
        lemma_mul_is_distributive_add_other_way(pow2(g) as int, (pow2(k) * q2) as int, r2 as int);
    }
    assert((pow2(k) * q2) * pow2(g) == q2 * pow2(1074)) by {
        lemma_mul_is_commutative(pow2(k) as int, q2 as int);
        lemma_mul_is_associative(q2 as int, pow2(k) as int, pow2(g) as int);
    }
    assert(r2 * pow2(g) < pow2(1074)) by {
        lemma_mul_strict_inequality(r2 as int, pow2(k) as int, pow2(g) as int);
    }
    lemma_fundamental_div_mod_converse(
        (b * pow2(g)) as int,
        pow2(1074) as int,
        q2 as int,
        (r2 * pow2(g)) as int,
    );
    // The scaled remainder names the tie exactly when the plain one does.
    if r2 * pow2(g) == pow2(1073) {
        assert(pow2(g) * r2 == pow2(g) * pow2((k - 1) as nat)) by {
            lemma_mul_is_commutative(pow2(g) as int, r2 as int);
            lemma_mul_is_commutative(pow2(g) as int, pow2((k - 1) as nat) as int);
        }
        lemma_mul_equality_converse(pow2(g) as int, r2 as int, pow2((k - 1) as nat) as int);
    }
}

/// A numerator below half the denominator rounds to zero.
proof fn lemma_round_small(b: nat, k: nat)
    requires
        k >= 1,
        b < pow2((k - 1) as nat),
    ensures
        round_half_even(b, pow2(k)) == 0,
{
    lemma_pow2_pos(k);
    lemma_pow2_pos((k - 1) as nat);
    lemma_pow2_adds((k - 1) as nat, 1);
    lemma2_to64();
    assert(pow2(k) == pow2((k - 1) as nat) * 2);
    assert(pow2(k) / 2 == pow2((k - 1) as nat));
    lemma_fundamental_div_mod_converse(
        (b + pow2((k - 1) as nat)) as int,
        pow2(k) as int,
        0,
        (b + pow2((k - 1) as nat)) as int,
    );
    lemma_fundamental_div_mod_converse(b as int, pow2(k) as int, 0, b as int);
}

} // verus!
