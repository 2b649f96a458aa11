//! Binary32 encodings of integer extents and their reciprocals, in
//! integer arithmetic.

use vstd::prelude::*;
use vstd::arithmetic::power2::pow2;
use vstd::arithmetic::power2::lemma_pow2_unfold;
use vstd::arithmetic::power2::lemma_pow2_strictly_increases;
use vstd::arithmetic::power2::lemma2_to64;
use crate::size::bit_length;
use crate::size::bit_length_u32;
use crate::size::lemma_bit_length_interval;

verus! {

/// `q` rounded up by one when the discarded remainder `r / d` is above one
/// half, or exactly one half with `q` odd: round to nearest, ties to even.
pub open spec fn spec_round_half_even(q: nat, r: nat, d: nat) -> nat {
    if 2 * r > d || (2 * r == d && q % 2 == 1) {
        q + 1
    } else {
        q
    }
}

/// The binary32 encoding of the integer `x`, rounded to nearest with ties to
/// even: zero encodes as zero; otherwise the leading digit fixes the
/// exponent, and the next 23 digits (rounded) form the mantissa field.
pub open spec fn spec_f32_bits_of_u32(x: nat) -> nat {
    if x == 0 {
        0
    } else {
        let e = (bit_length(x) - 1) as nat;
        if e <= 23 {
            ((127 + e) * pow2(23) + (x * pow2((23 - e) as nat) - pow2(23))) as nat
        } else {
            let shift = (e - 23) as nat;
            let m = spec_round_half_even(x / pow2(shift), x % pow2(shift), pow2(shift));
            if m == pow2(24) {
                ((127 + e + 1) * pow2(23)) as nat
            } else {
                ((127 + e) * pow2(23) + (m - pow2(23))) as nat
            }
        }
    }
}

/// The binary32 encoding of `1 / x`, rounded to nearest with ties to even,
/// with `1 / 0` defined as zero. A power of two inverts exactly; otherwise
/// `1/x` lies strictly between two adjacent negative powers of two and the
/// mantissa is the rounded quotient `2^(24 + floor(log2 x)) / x`.
pub open spec fn spec_f32_recip_bits_of_u32(x: nat) -> nat {
    if x == 0 {
        0
    } else {
        let k = (bit_length(x) - 1) as nat;
        if x == pow2(k) {
            ((127 - k) * pow2(23)) as nat
        } else {
            let m = spec_round_half_even(pow2(24 + k) / x, pow2(24 + k) % x, x);
            if m == pow2(24) {
                ((127 - k) * pow2(23)) as nat
            } else {
                ((127 - (k + 1)) * pow2(23) + (m - pow2(23))) as nat
            }
        }
    }
}

/// `2^s` as a machine word.
fn pow2_u64(s: u32) -> (r: u64)
    requires
        s < 64,
    ensures
        r == pow2(s as nat),
        r >= 1,
{
    let mut d: u64 = 1;
    let mut i: u32 = 0;
    proof {
        assert(pow2(0) == 1) by {
            vstd::arithmetic::power::lemma_pow0(2);
        }
    }
    while i < s
        invariant
            i <= s < 64,
            d == pow2(i as nat),
        decreases s - i,
    {
        proof {
            lemma_pow2_unfold((i + 1) as nat);
            lemma_pow2_strictly_increases(i as nat, 63);
            lemma2_to64_full();
        }
        d = d * 2;
        i = i + 1;
    }
    proof {
        vstd::arithmetic::power2::lemma_pow2_pos(s as nat);
    }
    d
}

proof fn lemma2_to64_full()
    ensures
        pow2(63) == 0x8000000000000000,
        pow2(23) == 0x800000,
        pow2(24) == 0x1000000,
        pow2(32) == 0x100000000,
{
    lemma2_to64();
    vstd::arithmetic::power2::lemma2_to64_rest();
}

/// Encode the integer `x` as a binary32 value, rounding to nearest with
/// ties to even. Every extent up to `2^24` encodes exactly.
pub fn f32_bits_of_u32(x: u32) -> (r: u32)
    ensures
        r == spec_f32_bits_of_u32(x as nat),
{
    if x == 0 {
        return 0;
    }
    let len = bit_length_u32(x);
    proof {
        lemma_bit_length_interval(x as nat);
        lemma2_to64_full();
    }
    let e: u32 = len - 1;
    if e <= 23 {
        let scale = pow2_u64(23 - e);
        proof {
            assert((x as nat) * pow2((23 - e) as nat) < pow2((e + 1) as nat) * pow2(
                (23 - e) as nat,
            )) by (nonlinear_arith)
                requires
                    (x as nat) < pow2((e + 1) as nat),
                    pow2((23 - e) as nat) > 0,
            ;
            vstd::arithmetic::power2::lemma_pow2_adds((e + 1) as nat, (23 - e) as nat);
            assert(pow2(e as nat) * pow2((23 - e) as nat) == pow2(23)) by {
                vstd::arithmetic::power2::lemma_pow2_adds(e as nat, (23 - e) as nat);
            }
            assert((x as nat) * pow2((23 - e) as nat) >= pow2(e as nat) * pow2((23 - e) as nat))
                by (nonlinear_arith)
                requires
                    (x as nat) >= pow2(e as nat),
                    pow2((23 - e) as nat) > 0,
            ;
        }
        let m: u64 = (x as u64) * scale;
        let bits: u64 = ((127 + e) as u64) * 0x800000u64 + (m - 0x800000u64);
        return bits as u32;
    }
    let shift: u32 = e - 23;
    let d = pow2_u64(shift);
    let q: u64 = (x as u64) / d;
    let rem: u64 = (x as u64) % d;
    proof {
        let dd = pow2(shift as nat) as int;
        assert((x as nat) < pow2((e + 1) as nat));
        vstd::arithmetic::power2::lemma_pow2_adds(shift as nat, 24);
        vstd::arithmetic::div_mod::lemma_multiply_divide_lt(x as int, dd, pow2(24) as int);
        assert((x as nat) / pow2(shift as nat) >= pow2(23)) by {
            vstd::arithmetic::power2::lemma_pow2_adds(23, shift as nat);
            assert(pow2(23) * pow2(shift as nat) == pow2(e as nat));
            vstd::arithmetic::div_mod::lemma_div_by_multiple(pow2(23) as int, dd);
            vstd::arithmetic::div_mod::lemma_div_is_ordered(
                pow2(23) as int * dd,
                x as int,
                dd,
            );
        }
    }
    let mut m: u64 = q;
    if rem > d - rem || (rem == d - rem && q % 2 == 1) {
        m = m + 1;
    }
    let bits: u64 = if m == 0x1000000u64 {
        ((127 + e + 1) as u64) * 0x800000u64
    } else {
        ((127 + e) as u64) * 0x800000u64 + (m - 0x800000u64)
    };
    bits as u32
}

/// Encode `1 / x` as a binary32 value, rounding to nearest with ties to
/// even; `1 / 0` encodes as zero, as the size uniforms require.
pub fn f32_recip_bits_of_u32(x: u32) -> (r: u32)
    ensures
        r == spec_f32_recip_bits_of_u32(x as nat),
{
    if x == 0 {
        return 0;
    }
    let len = bit_length_u32(x);
    proof {
        lemma_bit_length_interval(x as nat);
        lemma2_to64_full();
    }
    let k: u32 = len - 1;
    proof {
        if k < 32 {
            lemma_pow2_strictly_increases(k as nat, 32);
        }
    }
    let p = pow2_u64(k);
    if (x as u64) == p {
        return (127 - k) * 0x800000u32;
    }
    let num = pow2_u64(24 + k);
    let q: u64 = num / (x as u64);
    let rem: u64 = num % (x as u64);
    proof {
        let numv = pow2((24 + k) as nat) as int;
        assert(pow2((24 + k) as nat) / (x as nat) < pow2(24)) by {
            assert(pow2(k as nat) < x as nat);
            assert(numv < (x as int) * (pow2(24) as int)) by {
                vstd::arithmetic::power2::lemma_pow2_adds(k as nat, 24);
                assert((pow2(k as nat) as int) * (pow2(24) as int) < (x as int) * (pow2(
                    24,
                ) as int)) by (nonlinear_arith)
                    requires
                        (pow2(k as nat) as int) < x as int,
                        (pow2(24) as int) > 0,
                ;
            }
            vstd::arithmetic::div_mod::lemma_multiply_divide_lt(numv, x as int, pow2(24) as int);
        }
        assert(pow2((24 + k) as nat) / (x as nat) >= pow2(23)) by {
            assert((pow2(23) as int) * (x as int) <= numv) by {
                assert((x as nat) < pow2((k + 1) as nat));
                assert((pow2(23) as int) * (x as int) < (pow2(23) as int) * (pow2(
                    (k + 1) as nat,
                ) as int)) by (nonlinear_arith)
                    requires
                        (x as int) < pow2((k + 1) as nat) as int,
                        (pow2(23) as int) > 0,
                ;
                vstd::arithmetic::power2::lemma_pow2_adds(23, (k + 1) as nat);
            }
            vstd::arithmetic::div_mod::lemma_div_by_multiple(pow2(23) as int, x as int);
            vstd::arithmetic::div_mod::lemma_div_is_ordered(
                (pow2(23) as int) * (x as int),
                numv,
                x as int,
            );
        }
    }
    let mut m: u64 = q;
    if rem > (x as u64) - rem || (rem == (x as u64) - rem && q % 2 == 1) {
        m = m + 1;
    }
    let bits: u64 = if m == 0x1000000u64 {
        ((127 - k) as u64) * 0x800000u64
    } else {
        ((127 - (k + 1)) as u64) * 0x800000u64 + (m - 0x800000u64)
    };
    bits as u32
}

} // verus!
