//! Integer codec behaviour: widths, byte orders, signedness, and the
//! one-byte typed codec.

use deen::integers::{dec_int, enc_int, Endian, IntCodec};
use deen::{Deen, Error, U8};

fn c(width: u8, signed: bool, endian: Endian) -> IntCodec {
    IntCodec::new(width, signed, endian).unwrap()
}

#[test]
fn u16_big_endian_bytes() {
    let mut out = Vec::new();
    enc_int(&c(2, false, Endian::Big), 0x1234, &mut out);
    assert_eq!(out, vec![0x12, 0x34]);
    let (v, p) = dec_int(&c(2, false, Endian::Big), &out, 0).unwrap();
    assert_eq!(v, 0x1234);
    assert_eq!(p, 2);
}

#[test]
fn u16_little_endian_bytes() {
    let mut out = Vec::new();
    enc_int(&c(2, false, Endian::Little), 0x1234, &mut out);
    assert_eq!(out, vec![0x34, 0x12]);
    let (v, _) = dec_int(&c(2, false, Endian::Little), &out, 0).unwrap();
    assert_eq!(v, 0x1234);
}

#[test]
fn u24_reads_into_wider_value() {
    let mut out = Vec::new();
    enc_int(&c(3, false, Endian::Big), 0xabcdef, &mut out);
    assert_eq!(out, vec![0xab, 0xcd, 0xef]);
    let (v, p) = dec_int(&c(3, false, Endian::Big), &out, 0).unwrap();
    assert_eq!(v, 0xabcdef);
    assert_eq!(p, 3);
}

#[test]
fn u48_and_u64_and_u128() {
    let mut out = Vec::new();
    enc_int(&c(6, false, Endian::Little), 0x010203040506, &mut out);
    assert_eq!(out, vec![0x06, 0x05, 0x04, 0x03, 0x02, 0x01]);
    let (v, _) = dec_int(&c(6, false, Endian::Little), &out, 0).unwrap();
    assert_eq!(v, 0x010203040506);

    let mut out = Vec::new();
    enc_int(&c(8, false, Endian::Big), 0x1122334455667788, &mut out);
    assert_eq!(out, vec![0x11, 0x22, 0x33, 0x44, 0x55, 0x66, 0x77, 0x88]);

    let mut out = Vec::new();
    enc_int(&c(16, false, Endian::Big), u128::MAX - 1, &mut out);
    let (v, _) = dec_int(&c(16, false, Endian::Big), &out, 0).unwrap();
    assert_eq!(v, u128::MAX - 1);
}

#[test]
fn signed_sign_extension() {
    // -2 as an i16 pattern, widened to the 128-bit pattern space.
    let minus_two: u128 = (-2i128) as u128;
    let mut out = Vec::new();
    enc_int(&c(2, true, Endian::Big), minus_two, &mut out);
    assert_eq!(out, vec![0xff, 0xfe]);
    let (v, _) = dec_int(&c(2, true, Endian::Big), &out, 0).unwrap();
    assert_eq!(v, minus_two);

    // A positive signed value keeps a clear top bit.
    let mut out = Vec::new();
    enc_int(&c(3, true, Endian::Little), 0x1234, &mut out);
    assert_eq!(out, vec![0x34, 0x12, 0x00]);
    let (v, _) = dec_int(&c(3, true, Endian::Little), &out, 0).unwrap();
    assert_eq!(v, 0x1234);
}

#[test]
fn signed_48_bit_negative() {
    let minus_one: u128 = (-1i128) as u128;
    let mut out = Vec::new();
    enc_int(&c(6, true, Endian::Big), minus_one, &mut out);
    assert_eq!(out, vec![0xff; 6]);
    let (v, _) = dec_int(&c(6, true, Endian::Big), &out, 0).unwrap();
    assert_eq!(v, minus_one);
}

#[test]
fn decode_truncated() {
    let buf = vec![0x01, 0x02, 0x03];
    assert_eq!(dec_int(&c(4, false, Endian::Big), &buf, 0).unwrap_err(), Error::Truncated);
    assert_eq!(dec_int(&c(2, false, Endian::Big), &buf, 2).unwrap_err(), Error::Truncated);
    assert!(dec_int(&c(2, false, Endian::Big), &buf, 1).is_ok());
}

#[test]
fn decode_mid_buffer() {
    let buf = vec![0xaa, 0x12, 0x34, 0xbb];
    let (v, p) = dec_int(&c(2, false, Endian::Big), &buf, 1).unwrap();
    assert_eq!(v, 0x1234);
    assert_eq!(p, 3);
}

#[test]
fn codec_widths_validated() {
    assert!(IntCodec::new(5, false, Endian::Big).is_none());
    assert!(IntCodec::new(0, false, Endian::Big).is_none());
    assert!(IntCodec::new(7, true, Endian::Little).is_none());
    for w in [1u8, 2, 3, 4, 6, 8, 16] {
        assert!(IntCodec::new(w, true, Endian::Little).is_some());
    }
}

#[test]
fn typed_codec_trait() {
    let c16 = IntCodec { width: 2, signed: false, endian: Endian::Big };
    let mut buf = Vec::new();
    Deen::encode(&c16, &0xbeefu128, &mut buf);
    assert_eq!(buf, vec![0xbe, 0xef]);
    let (v, p) = Deen::decode(&c16, &buf, 0).unwrap();
    assert_eq!((v, p), (0xbeef, 2));
}

#[test]
fn one_byte_codec() {
    let mut buf = Vec::new();
    U8.encode(&0x7f, &mut buf);
    assert_eq!(buf, vec![0x7f]);
    let (v, p) = U8.decode(&buf, 0).unwrap();
    assert_eq!(v, 0x7f);
    assert_eq!(p, 1);
    assert_eq!(U8.decode(&buf, 1).unwrap_err(), Error::Truncated);
}
