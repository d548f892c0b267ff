//! The space decision: does an available byte count reach a requested
//! threshold of binary gigabytes?
//!
//! The threshold arrives as the raw bits of a double. The comparison is
//! exact: `avail_bytes / 2^30 >= mantissa * 2^scale / 2^1074` as rational
//! numbers, which cleared of denominators reads
//! `avail_bytes * 2^1044 >= mantissa * 2^scale`. No rounding of either side
//! takes part in the decision.

use vstd::prelude::*;
use vstd::arithmetic::power2::{
    pow2, lemma_pow2_adds, lemma_pow2_pos, lemma2_to64, lemma2_to64_rest,
};
use vstd::arithmetic::mul::{
    lemma_mul_inequality, lemma_mul_strict_inequality, lemma_mul_left_inequality,
    lemma_mul_is_associative, lemma_mul_is_commutative, lemma_mul_is_distributive_sub_other_way,
    lemma_mul_upper_bound,
};
use vstd::arithmetic::div_mod::{lemma_fundamental_div_mod, lemma_mod_division_less_than_divisor};
use crate::bits::{
    decompose, exp_field, frac_field, is_nan, mantissa, scale, sign_field, EXP_SPECIAL,
    IMPLICIT_BIT,
};

verus! {

/// Whether `avail_bytes` bytes reach the threshold whose double bit pattern
/// is `gb_bits`, read in binary gigabytes.
///
/// A NaN threshold never passes, as no quantity compares greater than or
/// equal to NaN. A negative threshold (sign field set, minus-zero included)
/// always passes. Otherwise the comparison is the exact rational
/// `avail_bytes / 2^30 >= mantissa * 2^scale / 2^1074`, cleared of its
/// denominators. A threshold of positive infinity falls under the same
/// formula and never passes, its scaled mantissa exceeding any byte count.
pub open spec fn passes(avail_bytes: u64, gb_bits: u64) -> bool {
    if is_nan(gb_bits) {
        false
    } else if sign_field(gb_bits) == 1 {
        true
    } else {
        (avail_bytes as nat) * pow2(1044) >= mantissa(gb_bits) * pow2(scale(gb_bits))
    }
}

/// An inclusive threshold passes exactly: when the two sides denote the same
/// quantity, the check succeeds.
pub proof fn lemma_boundary_is_inclusive(avail_bytes: u64, gb_bits: u64)
    requires
        !is_nan(gb_bits),
        sign_field(gb_bits) == 0,
        (avail_bytes as nat) * pow2(1044) == mantissa(gb_bits) * pow2(scale(gb_bits)),
    ensures
        passes(avail_bytes, gb_bits),
{
}

/// 2^k as a machine word, computed by doubling.
fn pow2_u64(k: u64) -> (r: u64)
    requires
        k <= 63,
    ensures
        r as nat == pow2(k as nat),
{
    let mut i: u64 = 0;
    let mut r: u64 = 1;
    proof {
        lemma2_to64();
    }
    while i < k
        invariant
            i <= k,
            k <= 63,
            r as nat == pow2(i as nat),
        decreases k - i,
    {
        proof {
            lemma2_to64();
            lemma2_to64_rest();
            lemma_pow2_adds(i as nat, 1);
            if (i as nat) + 1 < 64 {
                lemma_pow2_increases((i + 1) as nat, 63);
            }
        }
        r = r * 2;
        i = i + 1;
    }
    r
}

/// pow2 is monotone.
pub(crate) proof fn lemma_pow2_increases(e1: nat, e2: nat)
    requires
        e1 <= e2,
    ensures
        pow2(e1) <= pow2(e2),
{
    lemma_pow2_adds(e1, (e2 - e1) as nat);
    lemma_pow2_pos((e2 - e1) as nat);
    lemma_pow2_pos(e1);
    lemma_mul_left_inequality(pow2(e1) as int, 1, pow2((e2 - e1) as nat) as int);
}

/// For a positive factor `p`, comparing `a * p` with `b * p` is comparing
/// `a` with `b`.
proof fn lemma_cancel_common_factor(a: nat, b: nat, p: nat)
    requires
        p >= 1,
    ensures
        a * p >= b * p <==> a >= b,
{
    if a >= b {
        lemma_mul_inequality(b as int, a as int, p as int);
    }
    if a < b {
        lemma_mul_strict_inequality(a as int, b as int, p as int);
    }
}

/// `a * p >= m` exactly when `a` reaches the rounded-up quotient of `m`
/// by `p`.
proof fn lemma_cmp_ceil_div(a: nat, m: nat, p: nat)
    requires
        p >= 1,
    ensures
        a * p >= m <==> a >= (m + p - 1) / (p as int),
{
    let x: int = m + p - 1;
    let q: int = x / (p as int);
    let r: int = x % (p as int);
    lemma_fundamental_div_mod(x, p as int);
    lemma_mod_division_less_than_divisor(x, p as int);
    lemma_mul_is_commutative(q, p as int);
    if a as int >= q {
        lemma_mul_inequality(q, a as int, p as int);
        assert(a * p >= q * p);
        assert(q * p == x - r);
    } else {
        lemma_mul_inequality(a as int, q - 1, p as int);
        lemma_mul_is_distributive_sub_other_way(p as int, q, 1);
        assert((q - 1) * p == q * p - p);
        assert(a * p <= q * p - p);
        assert(q * p - p == x - r - p);
        assert(x - r - p < m);
    }
}

/// Whether the available bytes reach the requested threshold. The decision
/// agrees with the exact rational comparison `passes`: success if and only
/// if the available space, in binary gigabytes, is at least the threshold.
pub fn meets_threshold(avail_bytes: u64, gb_bits: u64) -> (r: bool)
    ensures
        r == passes(avail_bytes, gb_bits),
{
    let (s, e, f) = decompose(gb_bits);
    if e == EXP_SPECIAL && f != 0 {
        // NaN threshold: no quantity satisfies it.
        return false;
    }
    if s == 1 {
        // Negative threshold (minus zero included): always satisfied.
        return true;
    }
    let m: u64 = if e == 0 { f } else { IMPLICIT_BIT + f };
    let g: u64 = if e == 0 { 0 } else { e - 1 };
    proof {
        assert(m as nat == mantissa(gb_bits));
        assert(g as nat == scale(gb_bits));
        assert(m < 0x20_0000_0000_0000);
    }
    if g >= 1044 {
        // Threshold of at least 2^21 gigabytes: compare whole bytes,
        // avail_bytes >= m * 2^(g - 1044).
        let sh: u64 = g - 1044;
        proof {
            lemma_pow2_adds(sh as nat, 1044);
            assert(pow2(g as nat) == pow2(sh as nat) * pow2(1044));
            lemma_pow2_pos(1044);
            lemma_mul_is_associative(m as int, pow2(sh as nat) as int, pow2(1044) as int);
            assert((m as nat) * pow2(g as nat) == ((m as nat) * pow2(sh as nat)) * pow2(1044));
            lemma_cancel_common_factor((avail_bytes as nat), (m as nat) * pow2(sh as nat), pow2(1044));
            assert(passes(avail_bytes, gb_bits) <==> (avail_bytes as nat) >= (m as nat) * pow2(
                sh as nat,
            ));
        }
        if sh >= 12 {
            // The exponent field is nonzero here, so m carries the implicit
            // bit: m * 2^sh >= 2^52 * 2^12 = 2^64 exceeds any u64.
            proof {
                lemma2_to64();
                lemma2_to64_rest();
                lemma_pow2_increases(12, sh as nat);
                lemma_mul_inequality(pow2(52) as int, m as int, pow2(sh as nat) as int);
                assert(pow2(52) * pow2(sh as nat) <= (m as nat) * pow2(sh as nat));
                lemma_mul_left_inequality(pow2(52) as int, pow2(12) as int, pow2(sh as nat) as int);
                assert(pow2(52) * pow2(12) <= pow2(52) * pow2(sh as nat));
                lemma_pow2_adds(52, 12);
                assert((m as nat) * pow2(sh as nat) >= pow2(64));
                assert((avail_bytes as nat) < pow2(64));
                assert(!passes(avail_bytes, gb_bits));
            }
            false
        } else {
            let p: u64 = pow2_u64(sh);
            proof {
                lemma2_to64();
                lemma2_to64_rest();
                lemma_pow2_increases(sh as nat, 11);
                assert(p <= 0x800);
                lemma_mul_upper_bound(m as int, 0x1f_ffff_ffff_ffff, p as int, 0x800);
            }
            let t: u64 = m * p;
            proof {
                assert(t as nat == (m as nat) * pow2(sh as nat));
                assert((avail_bytes >= t) == passes(avail_bytes, gb_bits));
            }
            avail_bytes >= t
        }
    } else {
        // Compare avail_bytes * 2^k with m, where k = 1044 - g.
        let k: u64 = 1044 - g;
        proof {
            lemma_pow2_adds(k as nat, g as nat);
            assert(pow2(1044) == pow2(k as nat) * pow2(g as nat));
            lemma_pow2_pos(g as nat);
            lemma_mul_is_associative(avail_bytes as int, pow2(k as nat) as int, pow2(g as nat) as int);
            assert((avail_bytes as nat) * pow2(1044) == ((avail_bytes as nat) * pow2(k as nat))
                * pow2(g as nat));
            lemma_cancel_common_factor((avail_bytes as nat) * pow2(k as nat), m as nat, pow2(g as nat));
            assert(passes(avail_bytes, gb_bits) <==> (avail_bytes as nat) * pow2(k as nat) >= (
            m as nat));
        }
        if k >= 53 {
            // 2^k tops the largest mantissa, so one byte already decides.
            proof {
                lemma2_to64_rest();
                lemma_pow2_increases(53, k as nat);
                lemma_pow2_pos(k as nat);
                if avail_bytes >= 1 {
                    lemma_mul_inequality(1, avail_bytes as int, pow2(k as nat) as int);
                    assert((avail_bytes as nat) * pow2(k as nat) >= pow2(k as nat));
                    assert((avail_bytes as nat) * pow2(k as nat) >= (m as nat));
                } else {
                    assert((avail_bytes as nat) * pow2(k as nat) == 0);
                }
                assert((avail_bytes > 0 || m == 0) == passes(avail_bytes, gb_bits));
            }
            avail_bytes > 0 || m == 0
        } else {
            let p: u64 = pow2_u64(k);
            proof {
                lemma2_to64();
                lemma2_to64_rest();
                lemma_pow2_pos(k as nat);
                lemma_pow2_increases(k as nat, 52);
                assert(p <= 0x10_0000_0000_0000);
                lemma_cmp_ceil_div(avail_bytes as nat, m as nat, p as nat);
            }
            let c: u64 = (m + (p - 1)) / p;
            proof {
                assert(c as int == ((m as nat) + (p as nat) - 1) / (p as int));
                assert((avail_bytes >= c) == passes(avail_bytes, gb_bits));
            }
            avail_bytes >= c
        }
    }
}

} // verus!
