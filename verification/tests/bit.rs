use p4rs::{Bit, FieldValue, TryFromSliceError};
use std::collections::HashSet;

#[test]
fn new_fails_where_the_buffer_is_short() {
    let buf = [0x12u8];
    let r = Bit::<16>::new(&buf);
    let e = r.unwrap_err();
    assert_eq!(e.bits(), 16);
    assert_eq!(e.message(), "slice not big enough for 16 bits");
}

#[test]
fn new_fails_on_an_empty_buffer_for_one_bit() {
    let buf: [u8; 0] = [];
    let e = Bit::<1>::new(&buf).unwrap_err();
    assert_eq!(e.bits(), 1);
    assert_eq!(e, TryFromSliceError::new(1));
}

#[test]
fn new_succeeds_exactly_where_the_bits_are_there() {
    // 9 bits need two bytes.
    assert!(Bit::<9>::new(&[0xff]).is_err());
    assert!(Bit::<9>::new(&[0xff, 0x80]).is_ok());
    // 8 bits need one.
    assert!(Bit::<8>::new(&[0xff]).is_ok());
    assert!(Bit::<8>::new(&[]).is_err());
    assert!(Bit::<17>::new(&[1, 2]).is_err());
    assert!(Bit::<17>::new(&[1, 2, 3]).is_ok());
}

#[test]
fn new_takes_only_the_bytes_that_the_field_covers() {
    let buf = [0xabu8, 0xcd, 0xef];
    let b = Bit::<12>::new(&buf).unwrap();
    assert_eq!(b.bytes(), &[0xab, 0xcd]);
    let b = Bit::<16>::new(&buf).unwrap();
    assert_eq!(b.bytes(), &[0xab, 0xcd]);
    let b = Bit::<24>::new(&buf).unwrap();
    assert_eq!(b.bytes(), &[0xab, 0xcd, 0xef]);
}

#[test]
fn a_field_of_no_bits_covers_no_byte() {
    let buf = [1u8, 2];
    let b = Bit::<0>::new(&buf).unwrap();
    assert_eq!(b.bytes().len(), 0);
    assert_eq!(b.to_hex(), "");
    let empty: [u8; 0] = [];
    assert!(Bit::<0>::new(&empty).is_ok());
}

#[test]
fn hex_has_two_lowercase_digits_for_each_byte() {
    let buf = [0x0au8, 0xff, 0x00, 0x9c];
    let b = Bit::<32>::new(&buf).unwrap();
    assert_eq!(b.to_hex(), "0aff009c");
    let b = Bit::<8>::new(&buf).unwrap();
    assert_eq!(b.to_hex(), "0a");
}

#[test]
fn sixteen_bits_convert_big_endian() {
    let buf = [0x86u8, 0xdd];
    let b = Bit::<16>::new(&buf).unwrap();
    assert_eq!(b.to_u16(), 0x86dd);
    let v: u16 = b.into();
    assert_eq!(v, 0x86dd);
}

#[test]
fn every_integer_width_converts_big_endian() {
    let buf: [u8; 16] = [
        0x01, 0x02, 0x03, 0x04, 0x05, 0x06, 0x07, 0x08, 0x09, 0x0a, 0x0b, 0x0c, 0x0d, 0x0e, 0x0f,
        0x10,
    ];
    assert_eq!(Bit::<8>::new(&buf).unwrap().to_u8(), 0x01);
    assert_eq!(Bit::<32>::new(&buf).unwrap().to_u32(), 0x0102_0304);
    assert_eq!(Bit::<64>::new(&buf).unwrap().to_u64(), 0x0102_0304_0506_0708);
    assert_eq!(
        Bit::<128>::new(&buf).unwrap().to_u128(),
        0x0102_0304_0506_0708_090a_0b0c_0d0e_0f10
    );
    let a: u8 = Bit::<8>::new(&buf).unwrap().into();
    let b: u32 = Bit::<32>::new(&buf).unwrap().into();
    let c: u64 = Bit::<64>::new(&buf).unwrap().into();
    let d: u128 = Bit::<128>::new(&buf).unwrap().into();
    assert_eq!(a, 0x01);
    assert_eq!(b, 0x0102_0304);
    assert_eq!(c, 0x0102_0304_0506_0708);
    assert_eq!(d, 0x0102_0304_0506_0708_090a_0b0c_0d0e_0f10);
}

#[test]
fn the_largest_values_convert() {
    let buf = [0xffu8; 16];
    assert_eq!(Bit::<8>::new(&buf).unwrap().to_u8(), u8::MAX);
    assert_eq!(Bit::<16>::new(&buf).unwrap().to_u16(), u16::MAX);
    assert_eq!(Bit::<32>::new(&buf).unwrap().to_u32(), u32::MAX);
    assert_eq!(Bit::<64>::new(&buf).unwrap().to_u64(), u64::MAX);
    assert_eq!(Bit::<128>::new(&buf).unwrap().to_u128(), u128::MAX);
}

#[test]
fn value_is_an_integer_at_the_integer_widths() {
    let buf: [u8; 16] = [
        0xde, 0xad, 0xbe, 0xef, 0x00, 0x01, 0x02, 0x03, 0x04, 0x05, 0x06, 0x07, 0x08, 0x09, 0x0a,
        0x0b,
    ];
    assert_eq!(Bit::<8>::new(&buf).unwrap().value(), FieldValue::U8(0xde));
    assert_eq!(Bit::<16>::new(&buf).unwrap().value(), FieldValue::U16(0xdead));
    assert_eq!(Bit::<32>::new(&buf).unwrap().value(), FieldValue::U32(0xdead_beef));
    assert_eq!(Bit::<64>::new(&buf).unwrap().value(), FieldValue::U64(0xdead_beef_0001_0203));
    assert_eq!(
        Bit::<128>::new(&buf).unwrap().value(),
        FieldValue::U128(0xdead_beef_0001_0203_0405_0607_0809_0a0b)
    );
}

#[test]
fn value_is_the_bytes_at_other_widths() {
    let buf = [0x11u8, 0x22, 0x33, 0x44, 0x55, 0x66, 0x77];
    assert_eq!(
        Bit::<48>::new(&buf).unwrap().value(),
        FieldValue::Bytes(vec![0x11, 0x22, 0x33, 0x44, 0x55, 0x66])
    );
    assert_eq!(Bit::<12>::new(&buf).unwrap().value(), FieldValue::Bytes(vec![0x11, 0x22]));
    assert_eq!(Bit::<4>::new(&buf).unwrap().value(), FieldValue::Bytes(vec![0x11]));
    assert_eq!(Bit::<0>::new(&buf).unwrap().value(), FieldValue::Bytes(vec![]));
}

#[test]
fn a_value_written_back_is_the_bytes_of_the_field() {
    let buf: [u8; 20] = [
        0xf0, 0x0f, 0xaa, 0x55, 0x00, 0xff, 0x10, 0x01, 0x80, 0x7f, 0x12, 0x34, 0x56, 0x78, 0x9a,
        0xbc, 0xde, 0xf0, 0x11, 0x22,
    ];
    assert_eq!(Bit::<1>::new(&buf).unwrap().value().to_be_bytes(), &buf[..1]);
    assert_eq!(Bit::<8>::new(&buf).unwrap().value().to_be_bytes(), &buf[..1]);
    assert_eq!(Bit::<9>::new(&buf).unwrap().value().to_be_bytes(), &buf[..2]);
    assert_eq!(Bit::<16>::new(&buf).unwrap().value().to_be_bytes(), &buf[..2]);
    assert_eq!(Bit::<32>::new(&buf).unwrap().value().to_be_bytes(), &buf[..4]);
    assert_eq!(Bit::<48>::new(&buf).unwrap().value().to_be_bytes(), &buf[..6]);
    assert_eq!(Bit::<64>::new(&buf).unwrap().value().to_be_bytes(), &buf[..8]);
    assert_eq!(Bit::<128>::new(&buf).unwrap().value().to_be_bytes(), &buf[..16]);
    assert_eq!(Bit::<160>::new(&buf).unwrap().value().to_be_bytes(), &buf[..20]);
}

#[test]
fn integers_write_as_many_bytes_as_their_width() {
    assert_eq!(FieldValue::U8(7).to_be_bytes(), vec![7]);
    assert_eq!(FieldValue::U16(7).to_be_bytes(), vec![0, 7]);
    assert_eq!(FieldValue::U32(0x0a00_0001).to_be_bytes(), vec![0x0a, 0, 0, 1]);
    assert_eq!(FieldValue::U64(1 << 56).to_be_bytes(), vec![1, 0, 0, 0, 0, 0, 0, 0]);
    assert_eq!(
        FieldValue::U128(0xff).to_be_bytes(),
        vec![0, 0, 0, 0, 0, 0, 0, 0, 0, 0, 0, 0, 0, 0, 0, 0xff]
    );
    assert_eq!(FieldValue::Bytes(vec![9, 8, 7]).to_be_bytes(), vec![9, 8, 7]);
}

#[test]
fn values_are_the_same_only_at_the_same_width() {
    assert_eq!(FieldValue::U16(5), FieldValue::U16(5));
    assert_ne!(FieldValue::U16(5), FieldValue::U16(6));
    assert_ne!(FieldValue::U16(5), FieldValue::U32(5));
    assert_ne!(FieldValue::U16(5), FieldValue::Bytes(vec![0, 5]));
    assert_eq!(FieldValue::Bytes(vec![0, 5]), FieldValue::Bytes(vec![0, 5]));
    assert_ne!(FieldValue::Bytes(vec![0, 5]), FieldValue::Bytes(vec![0, 5, 0]));
    assert_ne!(FieldValue::Bytes(vec![0, 5]), FieldValue::Bytes(vec![1, 5]));
}

#[test]
fn as_int_gives_width_and_value() {
    assert_eq!(FieldValue::U8(0xff).as_int(), Some((8, 0xff)));
    assert_eq!(FieldValue::U16(0x1234).as_int(), Some((16, 0x1234)));
    assert_eq!(FieldValue::U32(1).as_int(), Some((32, 1)));
    assert_eq!(FieldValue::U64(u64::MAX).as_int(), Some((64, u64::MAX as u128)));
    assert_eq!(FieldValue::U128(u128::MAX).as_int(), Some((128, u128::MAX)));
    assert_eq!(FieldValue::Bytes(vec![1]).as_int(), None);
}

#[test]
fn a_copy_of_a_value_is_the_value() {
    let v = FieldValue::Bytes(vec![1, 2, 3]);
    assert_eq!(v.clone(), v);
    assert_eq!(FieldValue::U64(77).clone(), FieldValue::U64(77));
}

#[test]
fn fields_of_the_same_bits_are_equal_and_hash_alike() {
    let a = [0x2au8, 1];
    let b = [0x2au8, 2];
    let c = [0x2bu8, 2];
    let x = Bit::<8>::new(&a).unwrap();
    let y = Bit::<8>::new(&b).unwrap();
    let z = Bit::<8>::new(&c).unwrap();
    assert_eq!(x, y);
    assert_ne!(x, z);
    let mut set = HashSet::new();
    assert!(set.insert(x));
    assert!(!set.insert(y));
    assert!(set.insert(z));
}

#[test]
fn the_message_spells_the_width_in_decimal() {
    assert_eq!(TryFromSliceError::new(0).message(), "slice not big enough for 0 bits");
    assert_eq!(TryFromSliceError::new(7).message(), "slice not big enough for 7 bits");
    assert_eq!(TryFromSliceError::new(10).message(), "slice not big enough for 10 bits");
    assert_eq!(TryFromSliceError::new(128).message(), "slice not big enough for 128 bits");
    assert_eq!(
        TryFromSliceError::new(4294967295).message(),
        "slice not big enough for 4294967295 bits"
    );
}
