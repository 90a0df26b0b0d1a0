//! Width metadata: a declared bit width between 1 and 64, the minimal number
//! of bytes that contain it, and the bit mask that enforces it.

use vstd::arithmetic::power2::{lemma2_to64, lemma_pow2_pos, pow2};
use vstd::bits::{lemma_u64_pow2_no_overflow, lemma_u64_shl_is_mul, low_bits_mask};
use vstd::prelude::*;

verus! {

/// The bit mask with the lowest `n` bits set: `(1 << n) - 1` for `n < 64`,
/// all ones for `n >= 64`.
pub open spec fn spec_ones(n: nat) -> u64 {
    if n >= 64 {
        0xFFFF_FFFF_FFFF_FFFFu64
    } else {
        low_bits_mask(n) as u64
    }
}

/// A positive bit mask of the desired width.
///
/// ones(1) => 0b1
/// ones(2) => 0b11
/// ones(3) => 0b111
/// ...
pub fn ones(n: u64) -> (r: u64)
    ensures
        r == spec_ones(n as nat),
{
    if n == 0 {
        proof {
            lemma2_to64();
        }
        return 0;
    }
    if n >= 64 {
        proof {
            assert(!0u64 == 0xFFFF_FFFF_FFFF_FFFFu64) by (bit_vector);
        }
        return !0;
    }
    proof {
        lemma_u64_pow2_no_overflow(n as nat);
        lemma_u64_shl_is_mul(1u64, n);
        lemma_pow2_pos(n as nat);
    }
    (1u64 << n) - 1
}

/// The minimal number of bytes that hold `n` bits: `ceil(n / 8)`.
pub open spec fn byte_len_of(n: nat) -> nat {
    (n + 7) / 8
}

/// `n` bits fit in `byte_len_of(n)` bytes, and the last byte is not wasted.
pub proof fn lemma_byte_len_bounds(n: nat)
    requires
        1 <= n <= 64,
    ensures
        1 <= byte_len_of(n) <= 8,
        n <= 8 * byte_len_of(n),
        8 * byte_len_of(n) < n + 8,
{
}

/// A bit width `N` with `1 <= N <= 64`. It determines the minimal byte count
/// `ceil(N / 8)` of the packed representation.
#[derive(Clone, Copy, Debug, PartialEq, Eq, Structural)]
pub struct BitWidth {
    bits: u8,
}

impl BitWidth {
    /// The number of bits, as a mathematical integer.
    pub closed spec fn spec_bits(self) -> nat {
        self.bits as nat
    }

    /// The minimal number of bytes that hold this width.
    pub open spec fn spec_byte_len(self) -> nat {
        byte_len_of(self.spec_bits())
    }

    #[verifier::type_invariant]
    pub(crate) open spec fn type_inv(self) -> bool {
        1 <= self.spec_bits() <= 64
    }

    /// Make a width of `bits` bits.
    pub fn new(bits: u8) -> (r: Self)
        requires
            1 <= bits <= 64,
        ensures
            r.spec_bits() == bits as nat,
    {
        BitWidth { bits }
    }

    /// The number of bits.
    pub fn number_of_bits(&self) -> (r: u8)
        ensures
            r as nat == self.spec_bits(),
            1 <= r <= 64,
    {
        proof {
            use_type_invariant(*self);
        }
        self.bits
    }

    /// The minimal number of bytes that hold this width: `ceil(bits / 8)`.
    pub fn number_of_bytes(&self) -> (r: usize)
        ensures
            r as nat == self.spec_byte_len(),
            1 <= r <= 8,
    {
        proof {
            use_type_invariant(*self);
        }
        ((self.bits + 7) / 8) as usize
    }
}

/// The mask of a width, as a value: `v & spec_mask(n)` keeps exactly the
/// lowest `n` bits of `v`.
pub open spec fn mask_value(v: u64, n: nat) -> u64
    recommends
        n <= 64,
{
    ((v as nat) % pow2(n)) as u64
}

/// A bit pattern that already fits the width is unchanged by masking. In
/// particular a full 32- or 64-bit pattern (an IEEE-754 float's raw bits,
/// say) taken at its native width is preserved exactly, so by the round-trip
/// laws it packs and unpacks to itself, bit for bit.
pub proof fn lemma_mask_value_identity(v: u64, n: nat)
    requires
        n <= 64,
        (v as nat) < pow2(n),
    ensures
        mask_value(v, n) == v,
{
    lemma_pow2_pos(n);
    vstd::arithmetic::div_mod::lemma_small_mod(v as nat, pow2(n));
}

/// Masking keeps the value below `pow2(n)` and never grows it.
pub proof fn lemma_mask_value_bound(v: u64, n: nat)
    requires
        n <= 64,
    ensures
        (mask_value(v, n) as nat) < pow2(n),
        mask_value(v, n) as nat == (v as nat) % pow2(n),
{
    lemma_pow2_pos(n);
    lemma2_to64();
    if n < 64 {
        vstd::arithmetic::power2::lemma_pow2_strictly_increases(n, 64);
    }
    assert((v as nat) % pow2(n) < pow2(n)) by {
        vstd::arithmetic::div_mod::lemma_mod_bound(v as int, pow2(n) as int);
    }
}

} // verus!
