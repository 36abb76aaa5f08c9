//! The primitive combinators — tags, skips, optionals — and the guard
//! and environment machinery under them.

use deen::env::{Env, FieldVal, Params, Scalar};
use deen::enums::{Conv, EnumTable};
use deen::guards::{eval_guard, CmpOp, Guard, Operand};
use deen::integers::{Endian, IntCodec};
use deen::optional::Optional;
use deen::{invalid_data_error, Any, Error, Tag, Value};

fn u16be() -> IntCodec {
    IntCodec { width: 2, signed: false, endian: Endian::Big }
}

#[test]
fn tag_writes_and_requires_its_constant() {
    let t = Tag::new(u16be(), 0xbeef);
    let mut out = Vec::new();
    t.encode_value(&mut out);
    assert_eq!(out, vec![0xbe, 0xef]);
    assert_eq!(t.compare(&out, 0), Ok(2));

    let wrong = vec![0xbe, 0xee];
    assert_eq!(
        t.compare(&wrong, 0),
        Err(Error::TagMismatch { expected: 0xbeef, found: 0xbeee })
    );
    let short = vec![0xbe];
    assert_eq!(t.compare(&short, 0), Err(Error::Truncated));
}

#[test]
fn any_writes_zero_and_ignores_content() {
    let a = Any::new(u16be());
    let mut out = Vec::new();
    a.encode_value(&mut out);
    assert_eq!(out, vec![0x00, 0x00]);
    assert_eq!(a.compare(&vec![0xde, 0xad], 0), Ok(2));
    assert_eq!(a.compare(&vec![0x00, 0x00], 0), Ok(2));
    assert_eq!(a.compare(&vec![0xde], 0), Err(Error::Truncated));
}

#[test]
fn optional_encodes_only_present_values() {
    let oi = Optional::wrap(Conv::Direct, u16be())
        .decode_when(Guard::Bool(true));
    let mut out = Vec::new();
    oi.encode(7, None, &mut out).unwrap();
    assert_eq!(out, Vec::<u8>::new());
    oi.encode(7, Some(Scalar::Int(0x1234)), &mut out).unwrap();
    assert_eq!(out, vec![0x12, 0x34]);
    // A value too wide for the wire codec is a conversion failure.
    let err = oi.encode(7, Some(Scalar::Int(0x10000)), &mut out).unwrap_err();
    assert_eq!(err, Error::Conversion { name: 7, value: 0x10000 });
}

#[test]
fn optional_decodes_by_its_predicate() {
    let ps = Params::new();
    let env = Env::new();
    let input = vec![0x12, 0x34];

    let present = Optional::wrap(Conv::Direct, u16be()).decode_when(Guard::Bool(true));
    assert_eq!(
        present.decode(7, &ps, &env, &input, 0).unwrap(),
        (Some(Scalar::Int(0x1234)), 2)
    );

    let absent = Optional::wrap(Conv::Direct, u16be()).decode_when(Guard::Bool(false));
    assert_eq!(absent.decode(7, &ps, &env, &input, 0).unwrap(), (None, 0));

    let empty: Vec<u8> = Vec::new();
    assert_eq!(
        present.decode(7, &ps, &env, &empty, 0).unwrap_err(),
        Error::Truncated
    );
    assert_eq!(absent.decode(7, &ps, &env, &empty, 0).unwrap(), (None, 0));
}

#[test]
fn optional_enum_conversion() {
    let table = || EnumTable::new(vec![100, 200], 1, false).unwrap();
    let oi = Optional::wrap(Conv::Table(table()), u16be()).decode_when(Guard::Bool(true));
    let ps = Params::new();
    let env = Env::new();

    let mut out = Vec::new();
    oi.encode(9, Some(Scalar::EnumVal(1)), &mut out).unwrap();
    assert_eq!(out, vec![0x00, 200]);

    assert_eq!(
        oi.decode(9, &ps, &env, &out, 0).unwrap(),
        (Some(Scalar::EnumVal(1)), 2)
    );
    let bad = vec![0x00, 150];
    assert_eq!(
        oi.decode(9, &ps, &env, &bad, 0).unwrap_err(),
        Error::Conversion { name: 9, value: 150 }
    );
}

#[test]
fn guards_read_parameters_and_integer_bindings() {
    let mut ps = Params::new();
    ps.bind(1, 10);
    let mut env = Env::new();
    env.bind(2, FieldVal::Req(Scalar::Int(5)));
    env.bind(3, FieldVal::Opt(Some(Scalar::Int(5))));

    let g = |op, a, b| Guard::Cmp(op, a, b);
    assert!(eval_guard(&g(CmpOp::Gt, Operand::Name(1), Operand::Lit(9)), &ps, &env));
    assert!(eval_guard(&g(CmpOp::Eq, Operand::Name(2), Operand::Lit(5)), &ps, &env));
    assert!(!eval_guard(&g(CmpOp::Lt, Operand::Name(1), Operand::Lit(10)), &ps, &env));
    // An optional binding is not an integer operand: the comparison is false.
    assert!(!eval_guard(&g(CmpOp::Eq, Operand::Name(3), Operand::Lit(5)), &ps, &env));
    // An unbound name likewise.
    assert!(!eval_guard(&g(CmpOp::Eq, Operand::Name(9), Operand::Lit(5)), &ps, &env));

    let both = Guard::And(
        Box::new(g(CmpOp::Ge, Operand::Name(1), Operand::Lit(10))),
        Box::new(Guard::Not(Box::new(g(CmpOp::Ne, Operand::Name(2), Operand::Lit(5))))),
    );
    assert!(eval_guard(&both, &ps, &env));
    let either = Guard::Or(
        Box::new(Guard::Bool(false)),
        Box::new(g(CmpOp::Le, Operand::Name(2), Operand::Lit(4))),
    );
    assert!(!eval_guard(&either, &ps, &env));
}

#[test]
fn presence_mismatch_is_the_callers_contract() {
    // A present value under a false predicate is written on encode but
    // never read back on decode: the predicate is consulted only while
    // decoding, so such a schema does not round-trip.  This mismatch is
    // deliberately not detected.
    let oi = Optional::wrap(Conv::Direct, u16be()).decode_when(Guard::Bool(false));
    let ps = Params::new();
    let env = Env::new();
    let mut out = Vec::new();
    oi.encode(7, Some(Scalar::Int(0x1234)), &mut out).unwrap();
    assert_eq!(out, vec![0x12, 0x34]);
    assert_eq!(oi.decode(7, &ps, &env, &out, 0).unwrap(), (None, 0));
}

#[test]
fn environment_lookup_takes_latest() {
    let mut env = Env::new();
    assert_eq!(env.get(1), None);
    env.bind(1, FieldVal::Req(Scalar::Int(5)));
    env.bind(2, FieldVal::Opt(None));
    assert_eq!(env.get(1), Some(FieldVal::Req(Scalar::Int(5))));
    assert_eq!(env.get(2), Some(FieldVal::Opt(None)));
    env.bind(1, FieldVal::Req(Scalar::Int(6)));
    assert_eq!(env.get(1), Some(FieldVal::Req(Scalar::Int(6))));
}

#[test]
fn invalid_data_error_carries_its_payload() {
    assert_eq!(
        invalid_data_error(4, 0x99),
        Error::Conversion { name: 4, value: 0x99 }
    );
}
