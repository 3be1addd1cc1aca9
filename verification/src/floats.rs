//! Floats of eight bytes, by their bits.
use vstd::arithmetic::power2::{
    lemma2_to64, lemma2_to64_rest, lemma_pow2_pos, lemma_pow2_strictly_increases,
    lemma_pow2_unfold, pow2,
};
use vstd::prelude::*;

verus! {

/// The least mantissa of a float with a leading one; the exponent's bits stand
/// above it.
pub const MANTISSA: u64 = 0x10_0000_0000_0000;

/// The sign bit.
pub const SIGN: u64 = 0x8000_0000_0000_0000;

/// The bits of the float that is beyond all numbers.
pub const UNBOUNDED: u64 = 0x7ff0_0000_0000_0000;

/// Whether the float is zero, of either sign, or above.
pub open spec fn not_negative(bits: u64) -> bool {
    bits <= UNBOUNDED || bits == SIGN
}

/// What is left of a float without its sign and its fraction. One beyond all
/// numbers counts as the power of two that its bits stand for.
pub open spec fn whole_part(bits: u64) -> nat {
    let exponent = (bits / MANTISSA) % 2048;
    let mantissa = (MANTISSA + bits % MANTISSA) as nat;
    if exponent == 0 {
        0
    } else if exponent >= 1075 {
        mantissa * pow2((exponent - 1075) as nat)
    } else {
        mantissa / pow2((1075 - exponent) as nat)
    }
}

/// A float as a count: none below zero, and the largest where it is too large.
pub open spec fn count_in(bits: u64) -> Option<u64> {
    if !not_negative(bits) {
        None
    } else if whole_part(bits) > u64::MAX {
        Some(u64::MAX)
    } else {
        Some(whole_part(bits) as u64)
    }
}

/// A power of two.
pub(crate) fn power(n: u32) -> (p: u64)
    requires
        n < 64,
    ensures
        p == pow2(n as nat),
{
    let mut p: u64 = 1;
    let mut i: u32 = 0;
    proof {
        lemma2_to64();
    }
    while i < n
        invariant
            i <= n < 64,
            p == pow2(i as nat),
        decreases n - i,
    {
        proof {
            lemma_pow2_unfold((i + 1) as nat);
            lemma2_to64_rest();
            if i + 1 < 63 {
                lemma_pow2_strictly_increases((i + 1) as nat, 63);
            }
        }
        p = p * 2;
        i = i + 1;
    }
    p
}

pub(crate) proof fn lemma_small(m: u64, d: nat)
    requires
        d >= 64,
    ensures
        m < pow2(d),
        m as nat % pow2(d) == m,
{
    lemma2_to64_rest();
    if d > 64 {
        lemma_pow2_strictly_increases(64, d);
    }
    vstd::arithmetic::div_mod::lemma_small_mod(m as nat, pow2(d));
}

/// A float as a count.
pub fn float_count(bits: u64) -> (r: Option<u64>)
    ensures
        r == count_in(bits),
{
    if bits > UNBOUNDED && bits != SIGN {
        return None;
    }
    let exponent: u64 = (bits / MANTISSA) % 2048;
    let mantissa: u64 = MANTISSA + bits % MANTISSA;
    if exponent == 0 {
        return Some(0);
    }
    if exponent >= 1075 {
        let d: u32 = (exponent - 1075) as u32;
        if d >= 12 {
            proof {
                lemma2_to64();
                if d > 12 {
                    lemma_pow2_strictly_increases(12, d as nat);
                }
                assert(mantissa * pow2(d as nat) >= 0x10_0000_0000_0000 * 0x1000) by (nonlinear_arith)
                    requires
                        mantissa >= 0x10_0000_0000_0000,
                        pow2(d as nat) >= 0x1000,
                ;
            }
            return Some(u64::MAX);
        }
        let p: u64 = power(d);
        proof {
            lemma2_to64();
            if d < 11 {
                lemma_pow2_strictly_increases(d as nat, 11);
            }
            assert(0 <= mantissa * p <= 0x1f_ffff_ffff_ffff * 0x800) by (nonlinear_arith)
                requires
                    0 <= mantissa <= 0x1f_ffff_ffff_ffff,
                    0 <= p <= 0x800,
            ;
        }
        return Some(mantissa * p);
    }
    let d: u32 = (1075 - exponent) as u32;
    if d >= 64 {
        proof {
            lemma_small(mantissa, d as nat);
            vstd::arithmetic::div_mod::lemma_basic_div(mantissa as int, pow2(d as nat) as int);
        }
        return Some(0);
    }
    let p: u64 = power(d);
    proof {
        lemma_pow2_pos(d as nat);
        vstd::arithmetic::div_mod::lemma_div_is_ordered_by_denominator(
            mantissa as int,
            1,
            pow2(d as nat) as int,
        );
    }
    Some(mantissa / p)
}

} // verus!
