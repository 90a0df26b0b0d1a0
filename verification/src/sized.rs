//! The masked sized value: a native value constrained to a declared bit
//! width. All bits at or above the width are zero, and the value converts
//! to and from the minimal byte array for that width.

use crate::bytes::{
    be_bytes_of, be_bytes_vec, be_value_of, be_value_u64, le_bytes_of, le_bytes_vec, le_value_of,
    le_value_u64, lemma_be_round_trip, lemma_le_round_trip,
};
use crate::width::{
    byte_len_of, lemma_byte_len_bounds, lemma_mask_value_bound, mask_value, ones, spec_ones,
    BitWidth,
};
use vstd::arithmetic::div_mod::{lemma_basic_div, lemma_small_mod};
use vstd::arithmetic::power2::{lemma2_to64, lemma_pow2_pos, lemma_pow2_strictly_increases, pow2};
use vstd::bits::{lemma_u64_low_bits_mask_is_mod, lemma_u64_pow2_no_overflow};
use vstd::prelude::*;

verus! {

/// A native value paired with its declared bit width `N`. No bit at or above
/// position `N` is ever set: construction masks the input, and byte
/// deserialization re-masks after decoding.
///
/// The value is carried as a `u64` bit pattern. Narrower native integers
/// embed by zero extension; signed integers and floating point values embed
/// by their raw (two's complement or IEEE-754) bit pattern.
#[derive(Clone, Copy, Debug, PartialEq, Eq, Structural)]
pub struct SizedValue {
    value: u64,
    width: BitWidth,
}

impl SizedValue {
    /// The stored bit pattern.
    pub closed spec fn spec_value(self) -> u64 {
        self.value
    }

    /// The declared bit width.
    pub closed spec fn spec_width(self) -> nat {
        self.width.spec_bits()
    }

    /// The minimal number of bytes for the declared width.
    pub open spec fn spec_byte_len(self) -> nat {
        byte_len_of(self.spec_width())
    }

    #[verifier::type_invariant]
    spec fn type_inv(self) -> bool {
        (self.value as nat) < pow2(self.width.spec_bits())
    }

    /// Wrap a native value, masking it to the declared width: the result
    /// holds `value` with every bit at or above the width cleared.
    pub fn from_primitive(value: u64, width: BitWidth) -> (r: Self)
        ensures
            r.spec_width() == width.spec_bits(),
            r.spec_value() == mask_value(value, width.spec_bits()),
            (r.spec_value() as nat) == (value as nat) % pow2(width.spec_bits()),
            (r.spec_value() as nat) < pow2(width.spec_bits()),
    {
        proof {
            use_type_invariant(width);
        }
        let n = width.number_of_bits();
        let masked = value & ones(n as u64);
        proof {
            lemma_mask_value_bound(value, n as nat);
            if n < 64 {
                lemma_u64_pow2_no_overflow(n as nat);
                lemma_u64_low_bits_mask_is_mod(value, n as nat);
            } else {
                assert(value & 0xFFFF_FFFF_FFFF_FFFFu64 == value) by (bit_vector);
                lemma2_to64();
                lemma_small_mod(value as nat, pow2(64));
            }
        }
        SizedValue { value: masked, width }
    }

    /// The wrapped native value. It is already masked, so no bit at or
    /// above the declared width is set.
    pub fn to_primitive(&self) -> (r: u64)
        ensures
            r == self.spec_value(),
            (r as nat) < pow2(self.spec_width()),
    {
        proof {
            use_type_invariant(*self);
        }
        self.value
    }

    /// The declared bit width.
    pub fn width(&self) -> (r: BitWidth)
        ensures
            r.spec_bits() == self.spec_width(),
    {
        self.width
    }

    /// The bit mask applied to every incoming value of this width. For a
    /// width of 8 bits, that is `0xFF`.
    pub fn value_bit_mask(width: BitWidth) -> (r: u64)
        ensures
            r == spec_ones(width.spec_bits()),
    {
        let n = width.number_of_bits();
        ones(n as u64)
    }

    /// The minimal MSB byte representation: `ceil(N / 8)` bytes, most
    /// significant first, with `8 * ceil(N / 8) - N` zero padding bits at
    /// the top of the first byte.
    pub fn to_msb_bytes(&self) -> (r: Vec<u8>)
        ensures
            r@ == be_bytes_of(self.spec_value(), self.spec_byte_len()),
            r@.len() == self.spec_byte_len(),
    {
        proof {
            use_type_invariant(*self);
            use_type_invariant(self.width);
        }
        let b = self.width.number_of_bytes();
        be_bytes_vec(self.value, b)
    }

    /// The minimal LSB byte representation: `ceil(N / 8)` bytes, least
    /// significant first, with the zero padding bits at the top of the
    /// last byte.
    pub fn to_lsb_bytes(&self) -> (r: Vec<u8>)
        ensures
            r@ == le_bytes_of(self.spec_value(), self.spec_byte_len()),
            r@.len() == self.spec_byte_len(),
    {
        proof {
            use_type_invariant(*self);
            use_type_invariant(self.width);
        }
        let b = self.width.number_of_bytes();
        le_bytes_vec(self.value, b)
    }

    /// Decode from the minimal MSB byte array for the width, then re-mask.
    /// Set bits beyond the declared width are silently discarded: the
    /// decode is deliberately lenient, not an error.
    pub fn from_msb_bytes(bytes: &[u8], width: BitWidth) -> (r: Self)
        requires
            bytes@.len() == byte_len_of(width.spec_bits()),
        ensures
            r.spec_width() == width.spec_bits(),
            (r.spec_value() as nat) == be_value_of(bytes@) % pow2(width.spec_bits()),
    {
        proof {
            use_type_invariant(width);
            lemma_byte_len_bounds(width.spec_bits());
        }
        let v = be_value_u64(bytes);
        Self::from_primitive(v, width)
    }

    /// Decode from the minimal LSB byte array for the width, then re-mask,
    /// as [`Self::from_msb_bytes`] does.
    pub fn from_lsb_bytes(bytes: &[u8], width: BitWidth) -> (r: Self)
        requires
            bytes@.len() == byte_len_of(width.spec_bits()),
        ensures
            r.spec_width() == width.spec_bits(),
            (r.spec_value() as nat) == le_value_of(bytes@) % pow2(width.spec_bits()),
    {
        proof {
            use_type_invariant(width);
            lemma_byte_len_bounds(width.spec_bits());
        }
        let v = le_value_u64(bytes);
        Self::from_primitive(v, width)
    }
}

/// Round trip, MSB order: a value masked to `n` bits, packed to its minimal
/// MSB bytes and decoded back with re-masking, is unchanged. In the terms of
/// the executable functions: `from_msb_bytes` of `to_msb_bytes` of
/// `from_primitive(v, n)` equals `from_primitive(v, n)`, for every `v`.
pub proof fn lemma_msb_round_trip(v: u64, n: nat)
    requires
        1 <= n <= 64,
    ensures
        be_value_of(be_bytes_of(mask_value(v, n), byte_len_of(n))) % pow2(n) == mask_value(
            v,
            n,
        ) as nat,
{
    let m = mask_value(v, n);
    lemma_mask_value_bound(v, n);
    lemma_byte_len_bounds(n);
    if n < 8 * byte_len_of(n) {
        lemma_pow2_strictly_increases(n, 8 * byte_len_of(n));
    }
    lemma_be_round_trip(m, byte_len_of(n));
    lemma_pow2_pos(n);
    lemma_small_mod(m as nat, pow2(n));
}

/// Round trip, LSB order: the LSB analogue of [`lemma_msb_round_trip`].
pub proof fn lemma_lsb_round_trip(v: u64, n: nat)
    requires
        1 <= n <= 64,
    ensures
        le_value_of(le_bytes_of(mask_value(v, n), byte_len_of(n))) % pow2(n) == mask_value(
            v,
            n,
        ) as nat,
{
    let m = mask_value(v, n);
    lemma_mask_value_bound(v, n);
    lemma_byte_len_bounds(n);
    if n < 8 * byte_len_of(n) {
        lemma_pow2_strictly_increases(n, 8 * byte_len_of(n));
    }
    lemma_le_round_trip(m, byte_len_of(n));
    lemma_pow2_pos(n);
    lemma_small_mod(m as nat, pow2(n));
}

/// Bit `k` of a value, counting from the least significant bit.
pub open spec fn bit_of(v: u64, k: nat) -> bool {
    ((v as nat) / pow2(k)) % 2 == 1
}

/// Masking clears the high bits: a value masked to `n` bits has no bit set
/// at any position `k >= n`.
pub proof fn lemma_mask_clears_high_bits(v: u64, n: nat, k: nat)
    requires
        1 <= n <= 64,
        n <= k,
    ensures
        !bit_of(mask_value(v, n), k),
{
    lemma_mask_value_bound(v, n);
    if n < k {
        lemma_pow2_strictly_increases(n, k);
    }
    lemma_pow2_pos(k);
    lemma_basic_div(mask_value(v, n) as int, pow2(k) as int);
}

} // verus!
