//! Byte/endian conversion: a value's byte decomposition in MSB (big-endian)
//! and LSB (little-endian) order, and the full-width conversions for the
//! native integer sizes.
//!
//! MSB order puts the most significant byte first: `0xAABB` becomes
//! `[0xAA, 0xBB]`. LSB order puts the least significant byte first:
//! `0xAABB` becomes `[0xBB, 0xAA]`.

use vstd::arithmetic::div_mod::{
    lemma_basic_div, lemma_div_denominator, lemma_fundamental_div_mod, lemma_mod_bound,
};
use vstd::arithmetic::power2::{
    lemma2_to64, lemma_pow2_adds, lemma_pow2_pos, lemma_pow2_strictly_increases, pow2,
};
use vstd::bits::{lemma_u64_low_bits_mask_is_mod, lemma_u64_shr_is_div};
use vstd::prelude::*;

verus! {

/// Byte `k` of a value, counting from the least significant byte.
pub open spec fn byte_of(v: u64, k: nat) -> u8 {
    (((v as nat) / pow2(8 * k)) % 256) as u8
}

/// The `b` bytes of `v` in MSB order: the most significant of the `b` bytes
/// comes first.
pub open spec fn be_bytes_of(v: u64, b: nat) -> Seq<u8> {
    Seq::new(b, |i: int| byte_of(v, (b - 1 - i) as nat))
}

/// The `b` bytes of `v` in LSB order: the least significant byte comes first.
pub open spec fn le_bytes_of(v: u64, b: nat) -> Seq<u8> {
    Seq::new(b, |i: int| byte_of(v, i as nat))
}

/// The value a byte sequence denotes when read in MSB order.
pub open spec fn be_value_of(s: Seq<u8>) -> nat
    decreases s.len(),
{
    if s.len() == 0 {
        0
    } else {
        be_value_of(s.drop_last()) * 256 + s.last() as nat
    }
}

/// The value a byte sequence denotes when read in LSB order.
pub open spec fn le_value_of(s: Seq<u8>) -> nat
    decreases s.len(),
{
    if s.len() == 0 {
        0
    } else {
        le_value_of(s.drop_first()) * 256 + s.first() as nat
    }
}

/// Shifting out the lowest byte moves every remaining byte down one place.
proof fn lemma_byte_of_shift(v: u64, k: nat)
    ensures
        byte_of(v / 256, k) == byte_of(v, k + 1),
{
    lemma_pow2_pos(8 * k);
    lemma_pow2_adds(8, 8 * k);
    lemma2_to64();
    lemma_div_denominator(v as int, 256, pow2(8 * k) as int);
    assert((v / 256) as nat == (v as nat) / 256);
    assert(((v as nat) / 256) / pow2(8 * k) == (v as nat) / (256 * pow2(8 * k)));
    assert(256 * pow2(8 * k) == pow2(8 * (k + 1))) by {
        assert(8 * (k + 1) == 8 + 8 * k);
    }
}

/// The lowest byte is the value modulo 256.
proof fn lemma_byte_of_low(v: u64)
    ensures
        byte_of(v, 0) == (v as nat) % 256,
{
    lemma2_to64();
    assert((v as nat) / 1 == v as nat);
    lemma_mod_bound(v as int, 256);
}

/// Dropping the last (least significant) MSB byte leaves the MSB bytes of
/// the value shifted down by one byte.
proof fn lemma_be_bytes_of_drop_last(v: u64, b: nat)
    requires
        b >= 1,
    ensures
        be_bytes_of(v, b).drop_last() =~= be_bytes_of(v / 256, (b - 1) as nat),
        be_bytes_of(v, b).last() == (v as nat) % 256,
{
    lemma_byte_of_low(v);
    assert forall|i: int| 0 <= i < b - 1 implies be_bytes_of(v, b).drop_last()[i] == be_bytes_of(
        v / 256,
        (b - 1) as nat,
    )[i] by {
        lemma_byte_of_shift(v, (b - 2 - i) as nat);
    }
}

/// Dropping the first (least significant) LSB byte leaves the LSB bytes of
/// the value shifted down by one byte.
proof fn lemma_le_bytes_of_drop_first(v: u64, b: nat)
    requires
        b >= 1,
    ensures
        le_bytes_of(v, b).drop_first() =~= le_bytes_of(v / 256, (b - 1) as nat),
        le_bytes_of(v, b).first() == (v as nat) % 256,
{
    lemma_byte_of_low(v);
    assert forall|i: int| 0 <= i < b - 1 implies le_bytes_of(v, b).drop_first()[i] == le_bytes_of(
        v / 256,
        (b - 1) as nat,
    )[i] by {
        lemma_byte_of_shift(v, i as nat);
    }
}

/// A value below `pow2(8 * b)` survives the round trip through its `b` MSB
/// bytes.
pub proof fn lemma_be_round_trip(v: u64, b: nat)
    requires
        (v as nat) < pow2(8 * b),
    ensures
        be_value_of(be_bytes_of(v, b)) == v as nat,
    decreases b,
{
    if b == 0 {
        lemma2_to64();
        assert(be_bytes_of(v, 0) =~= Seq::<u8>::empty());
    } else {
        lemma_be_bytes_of_drop_last(v, b);
        lemma_pow2_adds(8 * (b - 1) as nat, 8);
        lemma2_to64();
        assert(((v / 256) as nat) < pow2(8 * (b - 1) as nat)) by (nonlinear_arith)
            requires
                (v as nat) < pow2(8 * b),
                pow2(8 * b) == pow2(8 * (b - 1) as nat) * 256,
        ;
        lemma_be_round_trip(v / 256, (b - 1) as nat);
        lemma_fundamental_div_mod(v as int, 256);
    }
}

/// A value below `pow2(8 * b)` survives the round trip through its `b` LSB
/// bytes.
pub proof fn lemma_le_round_trip(v: u64, b: nat)
    requires
        (v as nat) < pow2(8 * b),
    ensures
        le_value_of(le_bytes_of(v, b)) == v as nat,
    decreases b,
{
    if b == 0 {
        lemma2_to64();
        assert(le_bytes_of(v, 0) =~= Seq::<u8>::empty());
    } else {
        lemma_le_bytes_of_drop_first(v, b);
        lemma_pow2_adds(8 * (b - 1) as nat, 8);
        lemma2_to64();
        assert(((v / 256) as nat) < pow2(8 * (b - 1) as nat)) by (nonlinear_arith)
            requires
                (v as nat) < pow2(8 * b),
                pow2(8 * b) == pow2(8 * (b - 1) as nat) * 256,
        ;
        lemma_le_round_trip(v / 256, (b - 1) as nat);
        lemma_fundamental_div_mod(v as int, 256);
    }
}

/// A sequence of `b` bytes denotes a value below `pow2(8 * b)`, in MSB order.
pub proof fn lemma_be_value_of_bound(s: Seq<u8>)
    ensures
        be_value_of(s) < pow2(8 * s.len()),
    decreases s.len(),
{
    lemma2_to64();
    if s.len() > 0 {
        lemma_be_value_of_bound(s.drop_last());
        lemma_pow2_adds(8 * (s.len() - 1) as nat, 8);
        assert(be_value_of(s.drop_last()) * 256 + s.last() < pow2(8 * s.len()))
            by (nonlinear_arith)
            requires
                be_value_of(s.drop_last()) < pow2(8 * (s.len() - 1) as nat),
                s.last() < 256,
                pow2(8 * s.len()) == pow2(8 * (s.len() - 1) as nat) * 256,
        ;
    }
}

/// A sequence of `b` bytes denotes a value below `pow2(8 * b)`, in LSB order.
pub proof fn lemma_le_value_of_bound(s: Seq<u8>)
    ensures
        le_value_of(s) < pow2(8 * s.len()),
    decreases s.len(),
{
    lemma2_to64();
    if s.len() > 0 {
        lemma_le_value_of_bound(s.drop_first());
        lemma_pow2_adds(8 * (s.len() - 1) as nat, 8);
        assert(le_value_of(s.drop_first()) * 256 + s.first() < pow2(8 * s.len()))
            by (nonlinear_arith)
            requires
                le_value_of(s.drop_first()) < pow2(8 * (s.len() - 1) as nat),
                s.first() < 256,
                pow2(8 * s.len()) == pow2(8 * (s.len() - 1) as nat) * 256,
        ;
    }
}

/// Truncation on pack, MSB order: skipping the leading `w - b` bytes of the
/// full `w`-byte MSB array leaves exactly the minimal `b`-byte MSB array.
pub proof fn lemma_be_bytes_of_skip(v: u64, w: nat, b: nat)
    requires
        b <= w,
    ensures
        be_bytes_of(v, w).skip((w - b) as int) =~= be_bytes_of(v, b),
{
}

/// Truncation on pack, LSB order: taking the first `b` bytes of the full
/// `w`-byte LSB array leaves exactly the minimal `b`-byte LSB array.
pub proof fn lemma_le_bytes_of_take(v: u64, w: nat, b: nat)
    requires
        b <= w,
    ensures
        le_bytes_of(v, w).take(b as int) =~= le_bytes_of(v, b),
{
}

/// The bytes a masked value leaves behind on truncation are zero: every byte
/// at or above position `b` of a value below `pow2(8 * b)` is zero, so the
/// skipped leading MSB bytes (and dropped trailing LSB bytes) carry nothing.
pub proof fn lemma_high_bytes_zero(v: u64, b: nat, k: nat)
    requires
        (v as nat) < pow2(8 * b),
        b <= k,
    ensures
        byte_of(v, k) == 0,
{
    if 8 * b < 8 * k {
        lemma_pow2_strictly_increases(8 * b, 8 * k);
    }
    lemma_pow2_pos(8 * k);
    lemma_basic_div(v as int, pow2(8 * k) as int);
}

/// Byte `k` of a value, computed by shifting and masking.
fn byte_at(v: u64, k: usize) -> (r: u8)
    requires
        k < 8,
    ensures
        r == byte_of(v, k as nat),
{
    let sh: u64 = (8 * k) as u64;
    let shifted: u64 = v >> sh;
    proof {
        lemma_u64_shr_is_div(v, sh);
        lemma_u64_low_bits_mask_is_mod(shifted, 8);
        lemma2_to64();
        lemma_mod_bound(shifted as int, 256);
    }
    (shifted & 0xFF) as u8
}

/// The `b` least significant bytes of `v`, most significant first.
pub(crate) fn be_bytes_vec(v: u64, b: usize) -> (r: Vec<u8>)
    requires
        b <= 8,
    ensures
        r@ == be_bytes_of(v, b as nat),
{
    let mut out: Vec<u8> = Vec::new();
    let mut i: usize = 0;
    while i < b
        invariant
            i <= b <= 8,
            out@.len() == i as nat,
            forall|j: int| 0 <= j < i ==> out@[j] == byte_of(v, (b - 1 - j) as nat),
        decreases b - i,
    {
        let byte = byte_at(v, b - 1 - i);
        out.push(byte);
        i += 1;
    }
    proof {
        assert(out@ =~= be_bytes_of(v, b as nat));
    }
    out
}

/// The `b` least significant bytes of `v`, least significant first.
pub(crate) fn le_bytes_vec(v: u64, b: usize) -> (r: Vec<u8>)
    requires
        b <= 8,
    ensures
        r@ == le_bytes_of(v, b as nat),
{
    let mut out: Vec<u8> = Vec::new();
    let mut i: usize = 0;
    while i < b
        invariant
            i <= b <= 8,
            out@.len() == i as nat,
            forall|j: int| 0 <= j < i ==> out@[j] == byte_of(v, j as nat),
        decreases b - i,
    {
        let byte = byte_at(v, i);
        out.push(byte);
        i += 1;
    }
    proof {
        assert(out@ =~= le_bytes_of(v, b as nat));
    }
    out
}

/// The value that up to eight bytes denote in MSB order.
pub(crate) fn be_value_u64(s: &[u8]) -> (r: u64)
    requires
        s@.len() <= 8,
    ensures
        r as nat == be_value_of(s@),
{
    let n = s.len();
    let mut acc: u64 = 0;
    let mut i: usize = 0;
    proof {
        lemma2_to64();
    }
    while i < n
        invariant
            i <= n,
            n == s@.len() <= 8,
            acc as nat == be_value_of(s@.take(i as int)),
            (acc as nat) < pow2(8 * i as nat),
        decreases n - i,
    {
        proof {
            lemma_pow2_adds(8 * i as nat, 8);
            lemma2_to64();
            if 8 * (i as nat) + 8 < 64 {
                lemma_pow2_strictly_increases(8 * i as nat + 8, 64);
            }
            assert((acc as nat) * 256 + 255 < pow2(8 * (i + 1) as nat)) by (nonlinear_arith)
                requires
                    (acc as nat) < pow2(8 * i as nat),
                    pow2(8 * (i + 1) as nat) == pow2(8 * i as nat) * 256,
            ;
            assert(s@.take(i + 1).drop_last() =~= s@.take(i as int));
            assert(s@.take(i + 1).last() == s@[i as int]);
        }
        acc = acc * 256 + (s[i] as u64);
        i += 1;
    }
    proof {
        assert(s@.take(n as int) =~= s@);
    }
    acc
}

/// The value that up to eight bytes denote in LSB order.
pub(crate) fn le_value_u64(s: &[u8]) -> (r: u64)
    requires
        s@.len() <= 8,
    ensures
        r as nat == le_value_of(s@),
{
    let n = s.len();
    let mut acc: u64 = 0;
    let mut i: usize = n;
    proof {
        lemma2_to64();
    }
    while i > 0
        invariant
            i <= n,
            n == s@.len() <= 8,
            acc as nat == le_value_of(s@.skip(i as int)),
            (acc as nat) < pow2(8 * (n - i) as nat),
        decreases i,
    {
        proof {
            lemma_pow2_adds(8 * (n - i) as nat, 8);
            lemma2_to64();
            if 8 * ((n - i) as nat) + 8 < 64 {
                lemma_pow2_strictly_increases(8 * (n - i) as nat + 8, 64);
            }
            assert((acc as nat) * 256 + 255 < pow2(8 * (n - i + 1) as nat)) by (nonlinear_arith)
                requires
                    (acc as nat) < pow2(8 * (n - i) as nat),
                    pow2(8 * (n - i + 1) as nat) == pow2(8 * (n - i) as nat) * 256,
            ;
            assert(s@.skip(i - 1).drop_first() =~= s@.skip(i as int));
            assert(s@.skip(i - 1).first() == s@[i - 1]);
        }
        i -= 1;
        acc = acc * 256 + (s[i] as u64);
    }
    proof {
        assert(s@.skip(0) =~= s@);
    }
    acc
}

/// The single MSB byte of a `u8`.
pub fn u8_to_msb_bytes(v: u8) -> (r: Vec<u8>)
    ensures
        r@ == be_bytes_of(v as u64, 1),
{
    be_bytes_vec(v as u64, 1)
}

/// The single LSB byte of a `u8`.
pub fn u8_to_lsb_bytes(v: u8) -> (r: Vec<u8>)
    ensures
        r@ == le_bytes_of(v as u64, 1),
{
    le_bytes_vec(v as u64, 1)
}

/// The `u8` one MSB byte denotes.
pub fn u8_from_msb_bytes(s: &[u8]) -> (r: u8)
    requires
        s@.len() == 1,
    ensures
        r as nat == be_value_of(s@),
{
    proof {
        lemma_be_value_of_bound(s@);
        lemma2_to64();
    }
    be_value_u64(s) as u8
}

/// The `u8` one LSB byte denotes.
pub fn u8_from_lsb_bytes(s: &[u8]) -> (r: u8)
    requires
        s@.len() == 1,
    ensures
        r as nat == le_value_of(s@),
{
    proof {
        lemma_le_value_of_bound(s@);
        lemma2_to64();
    }
    le_value_u64(s) as u8
}

/// The two MSB bytes of a `u16`: `0xAABB` becomes `[0xAA, 0xBB]`.
pub fn u16_to_msb_bytes(v: u16) -> (r: Vec<u8>)
    ensures
        r@ == be_bytes_of(v as u64, 2),
{
    be_bytes_vec(v as u64, 2)
}

/// The two LSB bytes of a `u16`: `0xAABB` becomes `[0xBB, 0xAA]`.
pub fn u16_to_lsb_bytes(v: u16) -> (r: Vec<u8>)
    ensures
        r@ == le_bytes_of(v as u64, 2),
{
    le_bytes_vec(v as u64, 2)
}

/// The `u16` that two MSB bytes denote.
pub fn u16_from_msb_bytes(s: &[u8]) -> (r: u16)
    requires
        s@.len() == 2,
    ensures
        r as nat == be_value_of(s@),
{
    proof {
        lemma_be_value_of_bound(s@);
        lemma2_to64();
    }
    be_value_u64(s) as u16
}

/// The `u16` that two LSB bytes denote.
pub fn u16_from_lsb_bytes(s: &[u8]) -> (r: u16)
    requires
        s@.len() == 2,
    ensures
        r as nat == le_value_of(s@),
{
    proof {
        lemma_le_value_of_bound(s@);
        lemma2_to64();
    }
    le_value_u64(s) as u16
}

/// The four MSB bytes of a `u32`.
pub fn u32_to_msb_bytes(v: u32) -> (r: Vec<u8>)
    ensures
        r@ == be_bytes_of(v as u64, 4),
{
    be_bytes_vec(v as u64, 4)
}

/// The four LSB bytes of a `u32`.
pub fn u32_to_lsb_bytes(v: u32) -> (r: Vec<u8>)
    ensures
        r@ == le_bytes_of(v as u64, 4),
{
    le_bytes_vec(v as u64, 4)
}

/// The `u32` that four MSB bytes denote.
pub fn u32_from_msb_bytes(s: &[u8]) -> (r: u32)
    requires
        s@.len() == 4,
    ensures
        r as nat == be_value_of(s@),
{
    proof {
        lemma_be_value_of_bound(s@);
        lemma2_to64();
    }
    be_value_u64(s) as u32
}

/// The `u32` that four LSB bytes denote.
pub fn u32_from_lsb_bytes(s: &[u8]) -> (r: u32)
    requires
        s@.len() == 4,
    ensures
        r as nat == le_value_of(s@),
{
    proof {
        lemma_le_value_of_bound(s@);
        lemma2_to64();
    }
    le_value_u64(s) as u32
}

/// The eight MSB bytes of a `u64`.
pub fn u64_to_msb_bytes(v: u64) -> (r: Vec<u8>)
    ensures
        r@ == be_bytes_of(v, 8),
{
    be_bytes_vec(v, 8)
}

/// The eight LSB bytes of a `u64`.
pub fn u64_to_lsb_bytes(v: u64) -> (r: Vec<u8>)
    ensures
        r@ == le_bytes_of(v, 8),
{
    le_bytes_vec(v, 8)
}

/// The `u64` that eight MSB bytes denote.
pub fn u64_from_msb_bytes(s: &[u8]) -> (r: u64)
    requires
        s@.len() == 8,
    ensures
        r as nat == be_value_of(s@),
{
    be_value_u64(s)
}

/// The `u64` that eight LSB bytes denote.
pub fn u64_from_lsb_bytes(s: &[u8]) -> (r: u64)
    requires
        s@.len() == 8,
    ensures
        r as nat == le_value_of(s@),
{
    le_value_u64(s)
}

} // verus!
