//! Texture extents and mip-chain arithmetic.

use vstd::prelude::*;

verus! {

/// A two-dimensional texture size in texels.
#[derive(Clone, Copy, Debug, PartialEq, Eq, Structural)]
pub struct Size {
    pub width: u32,
    pub height: u32,
}

/// Number of binary digits of `n`: `floor(log2(n)) + 1` for `n > 0`, and `0` for `n == 0`.
pub open spec fn bit_length(n: nat) -> nat
    decreases n,
{
    if n == 0 {
        0
    } else {
        1 + bit_length(n / 2)
    }
}

/// The full mip chain length for a size: `floor(log2(max(w, h))) + 1`,
/// or `0` when the size is empty.
pub open spec fn spec_miplevels(s: Size) -> nat {
    bit_length(if s.width >= s.height {
        s.width as nat
    } else {
        s.height as nat
    })
}

proof fn lemma_bit_length_bound(n: nat, width: nat)
    requires
        n < vstd::arithmetic::power2::pow2(width),
    ensures
        bit_length(n) <= width,
    decreases width,
{
    if n == 0 {
    } else {
        assert(vstd::arithmetic::power2::pow2(0) == 1) by {
            vstd::arithmetic::power::lemma_pow0(2);
        }
        vstd::arithmetic::power2::lemma_pow2_unfold(width);
        lemma_bit_length_bound(n / 2, (width - 1) as nat);
    }
}

impl Size {
    /// Build a size from its two extents.
    pub fn new(width: u32, height: u32) -> (r: Size)
        ensures
            r.width == width,
            r.height == height,
    {
        Size { width, height }
    }

    /// The full mip chain length for this size.
    pub fn calculate_miplevels(&self) -> (r: u32)
        ensures
            r == spec_miplevels(*self),
    {
        calc_miplevel(*self)
    }
}

/// The number of binary digits of `x`.
pub fn bit_length_u32(x: u32) -> (r: u32)
    ensures
        r == bit_length(x as nat),
        r <= 32,
{
    let mut sz: u32 = x;
    let mut levels: u32 = 0;
    proof {
        vstd::arithmetic::power2::lemma2_to64();
        lemma_bit_length_bound(sz as nat, 32);
    }
    while sz != 0
        invariant
            levels + bit_length(sz as nat) == bit_length(x as nat),
            bit_length(x as nat) <= 32,
        decreases sz,
    {
        levels = levels + 1;
        proof {
            assert(sz >> 1u32 == sz / 2) by (bit_vector);
        }
        sz = sz >> 1u32;
    }
    levels
}

/// A positive number lies between the powers of two its digit count names:
/// `2^(bit_length - 1) <= n < 2^bit_length`.
pub proof fn lemma_bit_length_interval(n: nat)
    requires
        n > 0,
    ensures
        bit_length(n) >= 1,
        vstd::arithmetic::power2::pow2((bit_length(n) - 1) as nat) <= n,
        n < vstd::arithmetic::power2::pow2(bit_length(n)),
    decreases n,
{
    assert(vstd::arithmetic::power2::pow2(0) == 1) by {
        vstd::arithmetic::power::lemma_pow0(2);
    }
    vstd::arithmetic::div_mod::lemma_fundamental_div_mod(n as int, 2);
    vstd::arithmetic::power2::lemma_pow2_unfold(bit_length(n));
    if n / 2 == 0 {
        assert(n == 1);
    } else {
        lemma_bit_length_interval(n / 2);
        vstd::arithmetic::power2::lemma_pow2_unfold((bit_length(n) - 1) as nat);
    }
}

/// Length of the full mip chain for `size`: one level per binary digit of the
/// larger extent, so `floor(log2(max(w, h))) + 1` for a non-empty size.
pub fn calc_miplevel(size: Size) -> (r: u32)
    ensures
        r == spec_miplevels(size),
{
    let larger: u32 = if size.width >= size.height {
        size.width
    } else {
        size.height
    };
    bit_length_u32(larger)
}

} // verus!
