//! Schema validation: what `Deener::new` accepts and rejects.

use deen::env::Params;
use deen::enums::Conv;
use deen::guards::{CmpOp, Guard, Operand};
use deen::integers::{Endian, IntCodec};
use deen::items::condition::{Arm, Block, ExprIf};
use deen::items::{Field, FieldCodec, Item, ValueItem};
use deen::optional::Optional;
use deen::schema::Deener;
use deen::Tag;

fn u8c() -> IntCodec {
    IntCodec { width: 1, signed: false, endian: Endian::Big }
}

fn u16be() -> IntCodec {
    IntCodec { width: 2, signed: false, endian: Endian::Big }
}

fn plain(name: u32) -> Item {
    Item::Field(Field { name, init: FieldCodec::Plain { deener: u8c(), conv: Conv::Direct } })
}

fn gt(name: u32, lit: u128) -> Guard {
    Guard::Cmp(CmpOp::Gt, Operand::Name(name), Operand::Lit(lit))
}

#[test]
fn accepts_an_empty_schema() {
    let d = Deener::new(Params::new(), vec![]).unwrap();
    let mut out = Vec::new();
    d.encode(&deen::env::Env::new(), &mut out).unwrap();
    assert_eq!(out, Vec::<u8>::new());
    let t = d.decode(&out).unwrap();
    assert_eq!(t.pairs, vec![]);
}

#[test]
fn accepts_a_straight_schema() {
    let items = vec![
        Item::Value(ValueItem::Tag(Tag::new(u16be(), 0xbeef))),
        plain(1),
        plain(2),
    ];
    assert!(Deener::new(Params::new(), items).is_some());
}

#[test]
fn rejects_duplicate_binding_names() {
    let items = vec![plain(1), plain(1)];
    assert!(Deener::new(Params::new(), items).is_none());
}

#[test]
fn rejects_binding_shadowing_a_parameter() {
    let mut ps = Params::new();
    ps.bind(1, 0);
    assert!(Deener::new(ps, vec![plain(1)]).is_none());
}

#[test]
fn rejects_a_tag_constant_too_wide_for_its_codec() {
    let items = vec![Item::Value(ValueItem::Tag(Tag::new(u8c(), 0x100)))];
    assert!(Deener::new(Params::new(), items).is_none());
}

#[test]
fn rejects_a_forward_guard_reference() {
    // The optional at binding 1 consults binding 2, bound only later.
    let items = vec![
        Item::Field(Field {
            name: 1,
            init: FieldCodec::Opt(
                Optional::wrap(Conv::Direct, u16be()).decode_when(gt(2, 0)),
            ),
        }),
        plain(2),
    ];
    assert!(Deener::new(Params::new(), items).is_none());
}

#[test]
fn accepts_a_backward_guard_reference() {
    let items = vec![
        plain(2),
        Item::Field(Field {
            name: 1,
            init: FieldCodec::Opt(
                Optional::wrap(Conv::Direct, u16be()).decode_when(gt(2, 0)),
            ),
        }),
    ];
    assert!(Deener::new(Params::new(), items).is_some());
}

#[test]
fn accepts_a_parameter_guard_reference() {
    let mut ps = Params::new();
    ps.bind(7, 3);
    let items = vec![
        Item::Field(Field {
            name: 1,
            init: FieldCodec::Opt(
                Optional::wrap(Conv::Direct, u16be()).decode_when(gt(7, 0)),
            ),
        }),
    ];
    assert!(Deener::new(ps, items).is_some());
}

#[test]
fn rejects_a_named_conditional_without_else() {
    let items = vec![
        plain(1),
        Item::If(ExprIf {
            name: Some(2),
            arms: vec![Arm {
                cond: gt(1, 0),
                body: Block {
                    values: vec![],
                    tail: Some(FieldCodec::Plain { deener: u8c(), conv: Conv::Direct }),
                },
            }],
            els: None,
        }),
    ];
    assert!(Deener::new(Params::new(), items).is_none());
}

#[test]
fn rejects_a_named_branch_ending_in_a_value() {
    let items = vec![
        plain(1),
        Item::If(ExprIf {
            name: Some(2),
            arms: vec![Arm {
                cond: gt(1, 0),
                body: Block { values: vec![ValueItem::Tag(Tag::new(u8c(), 0))], tail: None },
            }],
            els: Some(Block {
                values: vec![],
                tail: Some(FieldCodec::Plain { deener: u8c(), conv: Conv::Direct }),
            }),
        }),
    ];
    assert!(Deener::new(Params::new(), items).is_none());
}

#[test]
fn accepts_an_unnamed_conditional_of_values() {
    let items = vec![
        plain(1),
        Item::If(ExprIf {
            name: None,
            arms: vec![Arm {
                cond: gt(1, 0),
                body: Block { values: vec![ValueItem::Tag(Tag::new(u8c(), 9))], tail: None },
            }],
            els: None,
        }),
    ];
    assert!(Deener::new(Params::new(), items).is_some());
}

#[test]
fn rejects_a_guard_naming_an_unknown_field() {
    let items = vec![
        plain(1),
        Item::If(ExprIf {
            name: None,
            arms: vec![Arm {
                cond: gt(9, 0),
                body: Block { values: vec![], tail: None },
            }],
            els: None,
        }),
    ];
    assert!(Deener::new(Params::new(), items).is_none());
}
