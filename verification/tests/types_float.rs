//! Floating point values go through the codec by their raw IEEE-754 bit
//! pattern, obtained with the lossless same-size reinterpretations
//! `to_bits` and `from_bits`.

use packed_num::bytes::{
    u32_from_lsb_bytes, u32_from_msb_bytes, u32_to_lsb_bytes, u32_to_msb_bytes,
    u64_from_lsb_bytes, u64_from_msb_bytes, u64_to_lsb_bytes, u64_to_msb_bytes,
};
use packed_num::packing::{LsbValue, MsbValue};
use packed_num::sized::SizedValue;
use packed_num::width::BitWidth;

#[test]
fn test_f32_literal() {
    let num: f32 = 4405.475;
    assert_eq!(u32_to_msb_bytes(num.to_bits()), [0x45, 0x89, 0xAB, 0xCD]);
    assert_eq!(u32_to_lsb_bytes(num.to_bits()), [0xCD, 0xAB, 0x89, 0x45]);
}

#[test]
fn test_f64_literal() {
    let num: f64 = 3.841412024471731e-226;
    assert_eq!(u64_to_msb_bytes(num.to_bits()), [0x11, 0x22, 0x33, 0x44, 0x55, 0x66, 0x77, 0x88]);
    assert_eq!(u64_to_lsb_bytes(num.to_bits()), [0x88, 0x77, 0x66, 0x55, 0x44, 0x33, 0x22, 0x11]);
}

#[test]
fn test_f32() {
    let val = f32::from_bits(0x4589ABCD);
    let num = SizedValue::from_primitive(val.to_bits() as u64, BitWidth::new(32));
    assert_eq!(val, f32::from_bits(num.to_primitive() as u32));
    assert_eq!(num.to_msb_bytes(), [0x45, 0x89, 0xAB, 0xCD]);
    assert_eq!(num.to_lsb_bytes(), [0xCD, 0xAB, 0x89, 0x45]);
}

#[test]
fn test_f64() {
    let val = f64::from_bits(0x1122334455667788);
    let num = SizedValue::from_primitive(val.to_bits(), BitWidth::new(64));
    assert_eq!(val, f64::from_bits(num.to_primitive()));
    assert_eq!(num.to_msb_bytes(), [0x11, 0x22, 0x33, 0x44, 0x55, 0x66, 0x77, 0x88]);
    assert_eq!(num.to_lsb_bytes(), [0x88, 0x77, 0x66, 0x55, 0x44, 0x33, 0x22, 0x11]);
}

#[test]
fn test_roundtrip_f32_literal() {
    let val = f32::from_bits(0x11223344);
    let num = SizedValue::from_primitive(val.to_bits() as u64, BitWidth::new(32));
    let msb_bytes = num.to_msb_bytes();
    let from_msb = f32::from_bits(u32_from_msb_bytes(&msb_bytes));
    assert_eq!(val, from_msb);

    let lsb_bytes = num.to_lsb_bytes();
    let from_lsb = f32::from_bits(u32_from_lsb_bytes(&lsb_bytes));
    assert_eq!(val, from_lsb);
}

#[test]
fn test_roundtrip_f32() {
    let val = f32::from_bits(0x11223344);
    let num = SizedValue::from_primitive(val.to_bits() as u64, BitWidth::new(32));
    let msb_bytes = num.to_msb_bytes();
    let from_msb = SizedValue::from_msb_bytes(&msb_bytes, BitWidth::new(32));
    assert_eq!(val, f32::from_bits(from_msb.to_primitive() as u32));

    let lsb_bytes = num.to_lsb_bytes();
    let from_lsb = SizedValue::from_lsb_bytes(&lsb_bytes, BitWidth::new(32));
    assert_eq!(val, f32::from_bits(from_lsb.to_primitive() as u32));
}

#[test]
fn test_roundtrip_f64_literal() {
    let val = f64::from_bits(0xCCBBAA);
    let num = SizedValue::from_primitive(val.to_bits(), BitWidth::new(64));
    let msb_bytes = num.to_msb_bytes();
    assert_eq!(msb_bytes, [0x00, 0x00, 0x00, 0x00, 0x00, 0xCC, 0xBB, 0xAA]);
    let from_msb = f64::from_bits(u64_from_msb_bytes(&msb_bytes));
    assert_eq!(val, from_msb);

    let lsb_bytes = num.to_lsb_bytes();
    assert_eq!(lsb_bytes, [0xAA, 0xBB, 0xCC, 0x00, 0x00, 0x00, 0x00, 0x00]);
    let from_lsb = f64::from_bits(u64_from_lsb_bytes(&lsb_bytes));
    assert_eq!(val, from_lsb);
}

#[test]
fn test_roundtrip_f64() {
    let val = f64::from_bits(0xCCBBAA);
    let num = SizedValue::from_primitive(val.to_bits(), BitWidth::new(64));
    let msb_bytes = num.to_msb_bytes();
    assert_eq!(msb_bytes, [0x00, 0x00, 0x00, 0x00, 0x00, 0xCC, 0xBB, 0xAA]);
    let from_msb = SizedValue::from_msb_bytes(&msb_bytes, BitWidth::new(64));
    assert_eq!(val, f64::from_bits(from_msb.to_primitive()));

    let lsb_bytes = num.to_lsb_bytes();
    assert_eq!(lsb_bytes, [0xAA, 0xBB, 0xCC, 0x00, 0x00, 0x00, 0x00, 0x00]);
    let from_lsb = SizedValue::from_lsb_bytes(&lsb_bytes, BitWidth::new(64));
    assert_eq!(val, f64::from_bits(from_lsb.to_primitive()));
}

#[test]
fn test_packed_float_msb() {
    let val = f32::from_bits(0xAABBCCDD);
    let typed = SizedValue::from_primitive(val.to_bits() as u64, BitWidth::new(32));
    let endian = typed.as_packed_msb();
    let packed = endian.pack();
    assert_eq!(packed, [0xAA, 0xBB, 0xCC, 0xDD]);

    let unpacked = MsbValue::unpack(&packed, BitWidth::new(32)).unwrap();
    assert_eq!(val, f32::from_bits(unpacked.value.to_primitive() as u32));
}

#[test]
fn test_packed_float_partial() {
    let val = f32::from_bits(0b10_10101010);
    let typed = SizedValue::from_primitive(val.to_bits() as u64, BitWidth::new(10));
    let endian = typed.as_packed_msb();
    let packed = endian.pack();
    assert_eq!(packed, [0b00000010, 0b10101010]);

    let unpacked = MsbValue::unpack(&packed, BitWidth::new(10)).unwrap();
    assert_eq!(val, f32::from_bits(unpacked.value.to_primitive() as u32));
}

#[test]
fn test_packed_float_lsb() {
    let val = f32::from_bits(0xAABBCCDD);
    let typed = SizedValue::from_primitive(val.to_bits() as u64, BitWidth::new(32));
    let endian = typed.as_packed_lsb();
    let packed = endian.pack();
    assert_eq!(packed, [0xDD, 0xCC, 0xBB, 0xAA]);

    let unpacked = LsbValue::unpack(&packed, BitWidth::new(32)).unwrap();
    assert_eq!(val, f32::from_bits(unpacked.value.to_primitive() as u32));
}

#[test]
fn test_float_struct_info() {
    let val = f32::from_bits(123);
    let typed = SizedValue::from_primitive(val.to_bits() as u64, BitWidth::new(30));
    let msb = typed.as_packed_msb();
    assert_eq!(30, msb.packed_bits());
}

#[test]
fn test_float_slice_packing() {
    let mut data = vec![0xAA, 0xBB, 0xCC, 0xDD];
    let unpacked = MsbValue::unpack_from_slice(&data, BitWidth::new(32)).unwrap();
    assert_eq!(f32::from_bits(0xAABBCCDD), f32::from_bits(unpacked.value.to_primitive() as u32));

    unpacked.pack_to_slice(&mut data).unwrap();
    assert_eq!(&[0xAA, 0xBB, 0xCC, 0xDD], &data[..]);
}

#[test]
fn test_packed_float_lsb_sub() {
    let val = f32::from_bits(0xAABBCC);
    let typed = SizedValue::from_primitive(val.to_bits() as u64, BitWidth::new(24));
    let endian = typed.as_packed_lsb();
    let packed = endian.pack();
    assert_eq!(packed, [0xCC, 0xBB, 0xAA]);
}

#[test]
fn test_packed_float_lsb_bits4() {
    let val: f32 = 1.0000001;
    let typed = SizedValue::from_primitive(val.to_bits() as u64, BitWidth::new(4));
    let endian = typed.as_packed_msb();
    let packed = endian.pack();
    assert_eq!(packed, [0x01]);
}

#[test]
fn test_float_big_slice_unpacking() {
    let data = vec![0xAA, 0xBB, 0xCC, 0xDD, 0xEE];
    let unpacked = MsbValue::unpack_from_slice(&data, BitWidth::new(32)).unwrap();
    assert_eq!(f32::from_bits(0xAABBCCDD), f32::from_bits(unpacked.value.to_primitive() as u32));
}
