//! The reference wire scenario: a big-endian magic tag, a version, a
//! skipped byte, a length, and a version-dependent optional enum field.

use deen::env::{Env, FieldVal, Params, Scalar};
use deen::enums::{Conv, EnumTable};
use deen::guards::{CmpOp, Guard, Operand};
use deen::integers::{Endian, IntCodec};
use deen::items::condition::{Arm, Block, ExprIf};
use deen::items::{Field, FieldCodec, Item, ValueItem};
use deen::optional::Optional;
use deen::schema::Deener;
use deen::{Any, Error, Tag};

const MAGIC: u32 = 0;
const VERSION: u32 = 1;
const LENGTH: u32 = 2;
const FOO: u32 = 3;

const HELLO: u64 = 0;

fn u8c() -> IntCodec {
    IntCodec { width: 1, signed: false, endian: Endian::Big }
}

fn u16be() -> IntCodec {
    IntCodec { width: 2, signed: false, endian: Endian::Big }
}

fn u32be() -> IntCodec {
    IntCodec { width: 4, signed: false, endian: Endian::Big }
}

fn u32le() -> IntCodec {
    IntCodec { width: 4, signed: false, endian: Endian::Little }
}

fn foo_table() -> EnumTable {
    EnumTable::new(vec![0xff00, 0x00ff], 2, false).unwrap()
}

fn gt(name: u32, lit: u128) -> Guard {
    Guard::Cmp(CmpOp::Gt, Operand::Name(name), Operand::Lit(lit))
}

fn encoder(magic: u128) -> Deener {
    let mut params = Params::new();
    params.bind(MAGIC, magic);
    let items = vec![
        Item::Value(ValueItem::Tag(Tag::new(u32be(), magic))),
        Item::Field(Field { name: VERSION, init: FieldCodec::Plain { deener: u8c(), conv: Conv::Direct } }),
        Item::Value(ValueItem::Any(Any::new(u8c()))),
        Item::Field(Field { name: LENGTH, init: FieldCodec::Plain { deener: u16be(), conv: Conv::Direct } }),
        Item::If(ExprIf {
            name: Some(FOO),
            arms: vec![
                Arm {
                    cond: gt(VERSION, 2),
                    body: Block {
                        values: vec![ValueItem::Tag(Tag::new(u8c(), 0xff))],
                        tail: Some(FieldCodec::Opt(
                            Optional::wrap(Conv::Table(foo_table()), u32be()).decode_when(gt(LENGTH, 1)),
                        )),
                    },
                },
                Arm {
                    cond: gt(VERSION, 1),
                    body: Block {
                        values: vec![ValueItem::Tag(Tag::new(u8c(), 0x00))],
                        tail: Some(FieldCodec::Opt(
                            Optional::wrap(Conv::Table(foo_table()), u32le()).decode_when(gt(LENGTH, 1)),
                        )),
                    },
                },
            ],
            els: Some(Block {
                values: vec![],
                tail: Some(FieldCodec::Opt(
                    Optional::wrap(Conv::Table(foo_table()), u32le()).decode_when(gt(LENGTH, 0)),
                )),
            }),
        }),
    ];
    Deener::new(params, items).unwrap()
}

fn header(version: u128, length: u128, foo: Option<u64>) -> Env {
    Env {
        pairs: vec![
            (VERSION, FieldVal::Req(Scalar::Int(version))),
            (LENGTH, FieldVal::Req(Scalar::Int(length))),
            (FOO, FieldVal::Opt(foo.map(Scalar::EnumVal))),
        ],
    }
}

#[test]
fn encode() {
    let mut buf = Vec::new();
    encoder(0xcafebabe)
        .encode(&header(3, 0x542, Some(HELLO)), &mut buf)
        .unwrap();
    assert_eq!(
        &buf,
        &[0xca, 0xfe, 0xba, 0xbe, 0x03, 0x00, 0x05, 0x42, 0xff, 0x00, 0x00, 0xff, 0x00]
    );
}

#[test]
fn decode_valid() {
    let buf = vec![
        0xca, 0xfe, 0xba, 0xbe, 0x03, 0x00, 0x05, 0x42, 0xff, 0x00, 0x00, 0xff, 0x00,
    ];
    let t = encoder(0xcafebabe).decode(&buf).unwrap();
    assert_eq!(t.get(VERSION), Some(FieldVal::Req(Scalar::Int(3))));
    assert_eq!(t.get(LENGTH), Some(FieldVal::Req(Scalar::Int(0x542))));
    assert_eq!(t.get(FOO), Some(FieldVal::Opt(Some(Scalar::EnumVal(HELLO)))));
}

#[test]
fn decode_invalid() {
    let buf = vec![
        0xca, 0xfe, 0xba, 0xbe, 0x03, 0x00, 0x05, 0x42, 0x00, 0x00, 0x09, 0x45,
    ];
    let err = encoder(0xcafebabe).decode(&buf).unwrap_err();
    assert_eq!(err, Error::TagMismatch { expected: 0xff, found: 0x00 });
}

#[test]
fn round_trip_middle_version() {
    let enc = encoder(0xcafebabe);
    let v = header(2, 7, Some(1));
    let mut buf = Vec::new();
    enc.encode(&v, &mut buf).unwrap();
    assert_eq!(
        &buf,
        &[0xca, 0xfe, 0xba, 0xbe, 0x02, 0x00, 0x00, 0x07, 0x00, 0xff, 0x00, 0x00, 0x00]
    );
    let t = enc.decode(&buf).unwrap();
    assert_eq!(t.get(VERSION), Some(FieldVal::Req(Scalar::Int(2))));
    assert_eq!(t.get(LENGTH), Some(FieldVal::Req(Scalar::Int(7))));
    assert_eq!(t.get(FOO), Some(FieldVal::Opt(Some(Scalar::EnumVal(1)))));
}

#[test]
fn round_trip_else_branch_absent() {
    let enc = encoder(0xcafebabe);
    let v = header(1, 0, None);
    let mut buf = Vec::new();
    enc.encode(&v, &mut buf).unwrap();
    assert_eq!(&buf, &[0xca, 0xfe, 0xba, 0xbe, 0x01, 0x00, 0x00, 0x00]);
    let t = enc.decode(&buf).unwrap();
    assert_eq!(t.get(VERSION), Some(FieldVal::Req(Scalar::Int(1))));
    assert_eq!(t.get(LENGTH), Some(FieldVal::Req(Scalar::Int(0))));
    assert_eq!(t.get(FOO), Some(FieldVal::Opt(None)));
}

#[test]
fn skip_byte_is_transparent() {
    let enc = encoder(0xcafebabe);
    let b1 = vec![
        0xca, 0xfe, 0xba, 0xbe, 0x03, 0x00, 0x05, 0x42, 0xff, 0x00, 0x00, 0xff, 0x00,
    ];
    let mut b2 = b1.clone();
    b2[5] = 0x77;
    let t1 = enc.decode(&b1).unwrap();
    let t2 = enc.decode(&b2).unwrap();
    assert_eq!(t1.pairs, t2.pairs);
}

#[test]
fn truncated_stream_fails() {
    let enc = encoder(0xcafebabe);
    let buf = vec![0xca, 0xfe, 0xba];
    assert_eq!(enc.decode(&buf).unwrap_err(), Error::Truncated);
}

#[test]
fn unknown_enum_code_fails() {
    let enc = encoder(0xcafebabe);
    // A present optional whose four wire bytes name no variant.
    let buf = vec![
        0xca, 0xfe, 0xba, 0xbe, 0x03, 0x00, 0x05, 0x42, 0xff, 0xde, 0xad, 0xbe, 0xef,
    ];
    let err = enc.decode(&buf).unwrap_err();
    assert_eq!(err, Error::Conversion { name: FOO, value: 0xdeadbeef });
}

#[test]
fn missing_field_fails_encode() {
    let enc = encoder(0xcafebabe);
    let v = Env { pairs: vec![(VERSION, FieldVal::Req(Scalar::Int(3)))] };
    let mut buf = Vec::new();
    let err = enc.encode(&v, &mut buf).unwrap_err();
    assert_eq!(err, Error::MissingField { name: LENGTH });
}
