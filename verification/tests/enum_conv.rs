//! Enum conversion tables: construction, both conversion directions,
//! and the widths a table supports.

use deen::enums::{Conv, EnumTable};
use deen::env::Scalar;
use deen::integers::{Endian, IntCodec};

#[test]
fn explicit_table_both_directions() {
    let t = EnumTable::new(vec![0xff00, 0x00ff], 2, false).unwrap();
    assert_eq!(t.to_int(0), Some(0xff00));
    assert_eq!(t.to_int(1), Some(0x00ff));
    assert_eq!(t.to_int(2), None);
    assert_eq!(t.from_int(0xff00), Some(0));
    assert_eq!(t.from_int(0x00ff), Some(1));
    assert_eq!(t.from_int(0x1234), None);
}

#[test]
fn conversion_succeeds_exactly_on_the_code_set() {
    let t = EnumTable::new(vec![3, 9, 250], 1, false).unwrap();
    for v in 0u128..=255 {
        let hit = t.from_int(v).is_some();
        assert_eq!(hit, v == 3 || v == 9 || v == 250);
    }
}

#[test]
fn positional_table() {
    let t = EnumTable::positional(4, 1, false).unwrap();
    assert_eq!(t.to_int(2), Some(2));
    assert_eq!(t.from_int(3), Some(3));
    assert_eq!(t.from_int(4), None);
}

#[test]
fn table_round_trip_every_variant() {
    let t = EnumTable::new(vec![7, 1, 0, 42], 1, false).unwrap();
    for i in 0u64..4 {
        let code = t.to_int(i).unwrap();
        assert_eq!(t.from_int(code), Some(i));
    }
}

#[test]
fn duplicate_codes_rejected() {
    assert!(EnumTable::new(vec![1, 2, 1], 1, false).is_none());
}

#[test]
fn code_too_wide_rejected() {
    // 0x100 cannot be an 8-bit code.
    assert!(EnumTable::new(vec![0x100], 1, false).is_none());
    // ... but is a fine 16-bit code.
    assert!(EnumTable::new(vec![0x100], 2, false).is_some());
    // 0xff does not fit a signed byte.
    assert!(EnumTable::new(vec![0xff], 1, true).is_none());
}

#[test]
fn signed_codes() {
    let minus_one: u128 = (-1i128) as u128;
    let t = EnumTable::new(vec![minus_one, 5], 1, true).unwrap();
    assert_eq!(t.from_int(minus_one), Some(0));
    assert_eq!(t.from_int(5), Some(1));
    assert_eq!(t.from_int(0xff), None);
}

#[test]
fn wider_codecs_supported() {
    let t = EnumTable::new(vec![0xff00, 0x00ff], 2, false).unwrap();
    let u16be = IntCodec { width: 2, signed: false, endian: Endian::Big };
    let u32le = IntCodec { width: 4, signed: false, endian: Endian::Little };
    let i32be = IntCodec { width: 4, signed: true, endian: Endian::Big };
    let i16be = IntCodec { width: 2, signed: true, endian: Endian::Big };
    assert!(t.check_supports(&u16be));
    assert!(t.check_supports(&u32le));
    assert!(t.check_supports(&i32be));
    // 0xff00 does not fit a signed 16-bit value.
    assert!(!t.check_supports(&i16be));
}

#[test]
fn conv_direct_and_table() {
    let u16be = IntCodec { width: 2, signed: false, endian: Endian::Big };
    let direct = Conv::Direct;
    assert_eq!(direct.to_wire(&u16be, Scalar::Int(0x1234)), Some(0x1234));
    assert_eq!(direct.to_wire(&u16be, Scalar::Int(0x10000)), None);
    assert_eq!(direct.from_wire(0x1234), Some(Scalar::Int(0x1234)));

    let table = Conv::Table(EnumTable::new(vec![10, 20], 1, false).unwrap());
    assert_eq!(table.to_wire(&u16be, Scalar::EnumVal(1)), Some(20));
    assert_eq!(table.to_wire(&u16be, Scalar::EnumVal(9)), None);
    assert_eq!(table.from_wire(20), Some(Scalar::EnumVal(1)));
    assert_eq!(table.from_wire(21), None);
}
