//! Endianness pack adaptors: wrappers around a sized value that present a
//! uniform pack/unpack interface in MSB or LSB byte order, with buffer-size
//! validation on the slice-based entry points.

use crate::bytes::{be_bytes_of, be_value_of, le_bytes_of, le_value_of};
use crate::sized::SizedValue;
use crate::width::{byte_len_of, BitWidth};
use vstd::arithmetic::power2::pow2;
use vstd::prelude::*;
use vstd::slice::slice_subrange;

verus! {

/// The one error of the codec: a slice-based pack or unpack was handed a
/// buffer of the wrong size.
#[derive(Clone, Copy, Debug, PartialEq, Eq)]
pub enum PackingError {
    BufferSizeMismatch { expected: usize, actual: usize },
}

/// Wraps a sized value to pack and unpack it in MSB byte order. It carries
/// no state of its own, it only selects the byte order.
#[derive(Clone, Copy, Debug)]
pub struct MsbValue {
    pub value: SizedValue,
}

/// Wraps a sized value to pack and unpack it in LSB byte order. It carries
/// no state of its own, it only selects the byte order.
#[derive(Clone, Copy, Debug)]
pub struct LsbValue {
    pub value: SizedValue,
}

impl SizedValue {
    /// Wrap into an MSB packing adaptor.
    pub fn as_packed_msb(&self) -> (r: MsbValue)
        ensures
            r.value == *self,
    {
        MsbValue { value: *self }
    }

    /// Wrap into an LSB packing adaptor.
    pub fn as_packed_lsb(&self) -> (r: LsbValue)
        ensures
            r.value == *self,
    {
        LsbValue { value: *self }
    }
}

impl MsbValue {
    /// Pack into the minimal MSB byte array for the width.
    pub fn pack(&self) -> (r: Vec<u8>)
        ensures
            r@ == be_bytes_of(self.value.spec_value(), self.value.spec_byte_len()),
            r@.len() == self.value.spec_byte_len(),
    {
        self.value.to_msb_bytes()
    }

    /// Unpack from the minimal MSB byte array for the width. A correctly
    /// sized buffer always decodes; the `Result` only mirrors the slice
    /// entry points.
    pub fn unpack(src: &[u8], width: BitWidth) -> (r: Result<MsbValue, PackingError>)
        requires
            src@.len() == byte_len_of(width.spec_bits()),
        ensures
            r is Ok,
            r matches Ok(m) ==> m.value.spec_width() == width.spec_bits() && (
            m.value.spec_value() as nat) == be_value_of(src@) % pow2(width.spec_bits()),
    {
        Ok(MsbValue { value: SizedValue::from_msb_bytes(src, width) })
    }

    /// The declared bit width of the wrapped value.
    pub fn packed_bits(&self) -> (r: usize)
        ensures
            r as nat == self.value.spec_width(),
    {
        self.value.width().number_of_bits() as usize
    }

    /// The number of packed bytes: `ceil(N / 8)`.
    pub fn packed_bytes(&self) -> (r: usize)
        ensures
            r as nat == self.value.spec_byte_len(),
    {
        self.value.width().number_of_bytes()
    }

    /// Pack into a caller-supplied buffer. Fails, and leaves the buffer
    /// unchanged, exactly when the buffer's length is not the packed byte
    /// count.
    pub fn pack_to_slice(&self, output: &mut Vec<u8>) -> (r: Result<(), PackingError>)
        ensures
            r is Ok <==> old(output)@.len() == self.value.spec_byte_len(),
            r is Ok ==> final(output)@ == be_bytes_of(
                self.value.spec_value(),
                self.value.spec_byte_len(),
            ),
            r is Err ==> final(output)@ == old(output)@ && r == Err::<(), PackingError>(
                (PackingError::BufferSizeMismatch {
                    expected: self.value.spec_byte_len() as usize,
                    actual: old(output)@.len() as usize,
                }),
            ),
    {
        let expected = self.value.width().number_of_bytes();
        if output.len() != expected {
            return Err(PackingError::BufferSizeMismatch { expected, actual: output.len() });
        }
        let packed = self.value.to_msb_bytes();
        *output = packed;
        Ok(())
    }

    /// Unpack from a caller-supplied buffer. Fails exactly when the buffer
    /// holds fewer bytes than the packed byte count; a longer buffer is
    /// fine, only its first `ceil(N / 8)` bytes are read and the rest is
    /// ignored.
    pub fn unpack_from_slice(src: &[u8], width: BitWidth) -> (r: Result<MsbValue, PackingError>)
        ensures
            r is Ok <==> src@.len() >= byte_len_of(width.spec_bits()),
            r matches Ok(m) ==> m.value.spec_width() == width.spec_bits() && (
            m.value.spec_value() as nat) == be_value_of(
                src@.take(byte_len_of(width.spec_bits()) as int),
            ) % pow2(width.spec_bits()),
            r is Err ==> r == Err::<MsbValue, PackingError>(
                (PackingError::BufferSizeMismatch {
                    expected: byte_len_of(width.spec_bits()) as usize,
                    actual: src@.len() as usize,
                }),
            ),
    {
        let expected = width.number_of_bytes();
        if src.len() < expected {
            return Err(PackingError::BufferSizeMismatch { expected, actual: src.len() });
        }
        let head = slice_subrange(src, 0, expected);
        proof {
            assert(head@ =~= src@.take(byte_len_of(width.spec_bits()) as int));
        }
        let value = SizedValue::from_msb_bytes(head, width);
        Ok(MsbValue { value })
    }
}

impl LsbValue {
    /// Pack into the minimal LSB byte array for the width.
    pub fn pack(&self) -> (r: Vec<u8>)
        ensures
            r@ == le_bytes_of(self.value.spec_value(), self.value.spec_byte_len()),
            r@.len() == self.value.spec_byte_len(),
    {
        self.value.to_lsb_bytes()
    }

    /// Unpack from the minimal LSB byte array for the width. A correctly
    /// sized buffer always decodes; the `Result` only mirrors the slice
    /// entry points.
    pub fn unpack(src: &[u8], width: BitWidth) -> (r: Result<LsbValue, PackingError>)
        requires
            src@.len() == byte_len_of(width.spec_bits()),
        ensures
            r is Ok,
            r matches Ok(m) ==> m.value.spec_width() == width.spec_bits() && (
            m.value.spec_value() as nat) == le_value_of(src@) % pow2(width.spec_bits()),
    {
        Ok(LsbValue { value: SizedValue::from_lsb_bytes(src, width) })
    }

    /// The declared bit width of the wrapped value.
    pub fn packed_bits(&self) -> (r: usize)
        ensures
            r as nat == self.value.spec_width(),
    {
        self.value.width().number_of_bits() as usize
    }

    /// The number of packed bytes: `ceil(N / 8)`.
    pub fn packed_bytes(&self) -> (r: usize)
        ensures
            r as nat == self.value.spec_byte_len(),
    {
        self.value.width().number_of_bytes()
    }

    /// Pack into a caller-supplied buffer. Fails, and leaves the buffer
    /// unchanged, exactly when the buffer's length is not the packed byte
    /// count.
    pub fn pack_to_slice(&self, output: &mut Vec<u8>) -> (r: Result<(), PackingError>)
        ensures
            r is Ok <==> old(output)@.len() == self.value.spec_byte_len(),
            r is Ok ==> final(output)@ == le_bytes_of(
                self.value.spec_value(),
                self.value.spec_byte_len(),
            ),
            r is Err ==> final(output)@ == old(output)@ && r == Err::<(), PackingError>(
                (PackingError::BufferSizeMismatch {
                    expected: self.value.spec_byte_len() as usize,
                    actual: old(output)@.len() as usize,
                }),
            ),
    {
        let expected = self.value.width().number_of_bytes();
        if output.len() != expected {
            return Err(PackingError::BufferSizeMismatch { expected, actual: output.len() });
        }
        let packed = self.value.to_lsb_bytes();
        *output = packed;
        Ok(())
    }

    /// Unpack from a caller-supplied buffer. Fails exactly when the buffer
    /// holds fewer bytes than the packed byte count; a longer buffer is
    /// fine, only its first `ceil(N / 8)` bytes are read and the rest is
    /// ignored.
    pub fn unpack_from_slice(src: &[u8], width: BitWidth) -> (r: Result<LsbValue, PackingError>)
        ensures
            r is Ok <==> src@.len() >= byte_len_of(width.spec_bits()),
            r matches Ok(m) ==> m.value.spec_width() == width.spec_bits() && (
            m.value.spec_value() as nat) == le_value_of(
                src@.take(byte_len_of(width.spec_bits()) as int),
            ) % pow2(width.spec_bits()),
            r is Err ==> r == Err::<LsbValue, PackingError>(
                (PackingError::BufferSizeMismatch {
                    expected: byte_len_of(width.spec_bits()) as usize,
                    actual: src@.len() as usize,
                }),
            ),
    {
        let expected = width.number_of_bytes();
        if src.len() < expected {
            return Err(PackingError::BufferSizeMismatch { expected, actual: src.len() });
        }
        let head = slice_subrange(src, 0, expected);
        proof {
            assert(head@ =~= src@.take(byte_len_of(width.spec_bits()) as int));
        }
        let value = SizedValue::from_lsb_bytes(head, width);
        Ok(LsbValue { value })
    }
}

} // verus!
