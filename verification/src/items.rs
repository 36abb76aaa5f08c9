//! Schema items.
//!
//! A schema is an ordered list of items.  A value item acts on the
//! stream without binding anything; a field item binds one name through
//! a codec and a conversion; a conditional item selects one of several
//! branches from guards over already-known data.  Encoding and decoding
//! walk the same list independently, in declared order.

use vstd::prelude::*;
use crate::{Any, Error, Tag, Value};
use crate::env::{Env, FieldVal, Params, Scalar, lookup};
use crate::enums::Conv;
use crate::integers::IntCodec;
use crate::optional::OptionalImpl;

pub mod condition;

use condition::ExprIf;

verus! {

/// An untyped codec action: a constant tag or a skipped position.
#[derive(Debug)]
pub enum ValueItem {
    Tag(Tag),
    Any(Any),
}

/// A named field position: a wire codec plus a conversion, required or
/// optional.
#[derive(Debug)]
pub enum FieldCodec {
    Plain { deener: IntCodec, conv: Conv },
    Opt(OptionalImpl),
}

/// A named field item.
#[derive(Debug)]
pub struct Field {
    pub name: u32,
    pub init: FieldCodec,
}

/// One ordered instruction of a schema.
#[derive(Debug)]
pub enum Item {
    Value(ValueItem),
    Field(Field),
    If(ExprIf),
}

/// The value item's configuration is usable.
pub open spec fn spec_value_wf(vi: ValueItem) -> bool {
    match vi {
        ValueItem::Tag(t) => t.val_wf(),
        ValueItem::Any(a) => a.val_wf(),
    }
}

/// The bytes a value item writes.
pub open spec fn spec_value_bytes(vi: ValueItem) -> Seq<u8> {
    match vi {
        ValueItem::Tag(t) => t.enc_bytes(),
        ValueItem::Any(a) => a.enc_bytes(),
    }
}

/// The outcome of decoding a value item at `pos`.
pub open spec fn spec_compare_value(vi: ValueItem, input: Seq<u8>, pos: int) -> Result<
    int,
    Error,
> {
    match vi {
        ValueItem::Tag(t) => t.cmp_at(input, pos),
        ValueItem::Any(a) => a.cmp_at(input, pos),
    }
}

/// The field codec's configuration is usable.
pub open spec fn spec_field_wf(fc: FieldCodec) -> bool {
    match fc {
        FieldCodec::Plain { deener, conv } => deener.wf() && conv.wf(deener),
        FieldCodec::Opt(oi) => oi.wf(),
    }
}

/// What encoding the field named `name` writes, reading the value out
/// of the source structure `v`.
pub open spec fn spec_encode_field(name: u32, fc: FieldCodec, v: Seq<(u32, FieldVal)>) -> Result<
    Seq<u8>,
    Error,
> {
    match lookup(v, name) {
        None => Err(Error::MissingField { name }),
        Some(fv) => match (fc, fv) {
            (FieldCodec::Plain { deener, conv }, FieldVal::Req(s)) => match conv.spec_to_wire(
                deener,
                s,
            ) {
                Some(w) => Ok(deener.spec_enc(w)),
                None => Err(Error::Conversion { name, value: s.raw() }),
            },
            (FieldCodec::Opt(oi), FieldVal::Opt(o)) => oi.spec_encode(name, o),
            _ => Err(Error::MissingField { name }),
        },
    }
}

/// What decoding the field named `name` yields at `pos`, with guards
/// evaluated over the parameters and the bindings made so far.
pub open spec fn spec_decode_field(
    name: u32,
    fc: FieldCodec,
    ps: Seq<(u32, u128)>,
    env: Seq<(u32, FieldVal)>,
    input: Seq<u8>,
    pos: int,
) -> Result<(FieldVal, int), Error> {
    match fc {
        FieldCodec::Plain { deener, conv } => {
            let w = deener.width as int;
            if 0 <= pos && pos + w <= input.len() {
                let raw = deener.spec_dec(input.subrange(pos, pos + w)) as u128;
                match conv.spec_from_wire(raw) {
                    Some(s) => Ok((FieldVal::Req(s), pos + w)),
                    None => Err(Error::Conversion { name, value: raw }),
                }
            } else {
                Err(Error::Truncated)
            }
        },
        FieldCodec::Opt(oi) => match oi.spec_decode(name, ps, env, input, pos) {
            Ok(t) => Ok((FieldVal::Opt(t.0), t.1)),
            Err(e) => Err(e),
        },
    }
}

/// The item's own configuration is usable, branches included.
pub open spec fn spec_item_wf(it: Item) -> bool {
    match it {
        Item::Value(vi) => spec_value_wf(vi),
        Item::Field(f) => spec_field_wf(f.init),
        Item::If(e) => condition::spec_if_wf(e),
    }
}

/// What encoding one item writes, or the error aborting the run.
pub open spec fn spec_encode_item(it: Item, ps: Seq<(u32, u128)>, v: Seq<(u32, FieldVal)>) -> Result<
    Seq<u8>,
    Error,
> {
    match it {
        Item::Value(vi) => Ok(spec_value_bytes(vi)),
        Item::Field(f) => spec_encode_field(f.name, f.init, v),
        Item::If(e) => condition::spec_encode_if(e, ps, v),
    }
}

/// What decoding one item yields: the extended bindings and the next
/// position, or the error aborting the run.
pub open spec fn spec_decode_item(
    it: Item,
    ps: Seq<(u32, u128)>,
    env: Seq<(u32, FieldVal)>,
    input: Seq<u8>,
    pos: int,
) -> Result<(Seq<(u32, FieldVal)>, int), Error> {
    match it {
        Item::Value(vi) => match spec_compare_value(vi, input, pos) {
            Ok(p) => Ok((env, p)),
            Err(e) => Err(e),
        },
        Item::Field(f) => match spec_decode_field(f.name, f.init, ps, env, input, pos) {
            Ok(t) => Ok((env.push((f.name, t.0)), t.1)),
            Err(e) => Err(e),
        },
        Item::If(e) => condition::spec_decode_if(e, ps, env, input, pos),
    }
}

/// Writes one value item.
pub fn encode_value_item(vi: &ValueItem, out: &mut Vec<u8>)
    requires
        spec_value_wf(*vi),
    ensures
        final(out)@ == old(out)@ + spec_value_bytes(*vi),
{
    match vi {
        ValueItem::Tag(t) => t.encode_value(out),
        ValueItem::Any(a) => a.encode_value(out),
    }
}

/// Reads and checks one value item.
pub fn compare_value_item(vi: &ValueItem, input: &Vec<u8>, pos: usize) -> (r: Result<usize, Error>)
    requires
        spec_value_wf(*vi),
    ensures
        match (r, spec_compare_value(*vi, input@, pos as int)) {
            (Ok(p), Ok(q)) => p as int == q && p <= input@.len(),
            (Err(e), Err(f)) => e == f,
            _ => false,
        },
{
    match vi {
        ValueItem::Tag(t) => t.compare(input, pos),
        ValueItem::Any(a) => a.compare(input, pos),
    }
}

/// Writes one field, reading its value out of `v`.
pub fn encode_field(name: u32, fc: &FieldCodec, v: &Env, out: &mut Vec<u8>) -> (r: Result<
    (),
    Error,
>)
    requires
        spec_field_wf(*fc),
    ensures
        match (r, spec_encode_field(name, *fc, v.pairs@)) {
            (Ok(u), Ok(bs)) => final(out)@ == old(out)@ + bs,
            (Err(e), Err(f)) => e == f && final(out)@ == old(out)@,
            _ => false,
        },
{
    match v.get(name) {
        None => Err(Error::MissingField { name }),
        Some(fv) => match (fc, fv) {
            (FieldCodec::Plain { deener, conv }, FieldVal::Req(s)) => match conv.to_wire(
                deener,
                s,
            ) {
                Some(w) => {
                    crate::integers::enc_int(deener, w, out);
                    Ok(())
                },
                None => Err(crate::invalid_data_error(name, s.raw_exec())),
            },
            (FieldCodec::Opt(oi), FieldVal::Opt(o)) => oi.encode(name, o, out),
            _ => Err(Error::MissingField { name }),
        },
    }
}

/// Reads one field, yielding the value to bind.
pub fn decode_field(
    name: u32,
    fc: &FieldCodec,
    ps: &Params,
    env: &Env,
    input: &Vec<u8>,
    pos: usize,
) -> (r: Result<(FieldVal, usize), Error>)
    requires
        spec_field_wf(*fc),
    ensures
        match (r, spec_decode_field(name, *fc, ps.pairs@, env.pairs@, input@, pos as int)) {
            (Ok(t), Ok(q)) => t.0 == q.0 && t.1 as int == q.1,
            (Err(e), Err(f)) => e == f,
            _ => false,
        },
{
    match fc {
        FieldCodec::Plain { deener, conv } => match crate::integers::dec_int(deener, input, pos) {
            Ok((raw, p)) => match conv.from_wire(raw) {
                Some(s) => Ok((FieldVal::Req(s), p)),
                None => Err(crate::invalid_data_error(name, raw)),
            },
            Err(e) => Err(e),
        },
        FieldCodec::Opt(oi) => match oi.decode(name, ps, env, input, pos) {
            Ok((o, p)) => Ok((FieldVal::Opt(o), p)),
            Err(e) => Err(e),
        },
    }
}

/// Executes one item's encode side against the source structure `v`.
pub fn encode_item(item: &Item, ps: &Params, v: &Env, out: &mut Vec<u8>) -> (r: Result<(), Error>)
    requires
        spec_item_wf(*item),
    ensures
        match (r, spec_encode_item(*item, ps.pairs@, v.pairs@)) {
            (Ok(u), Ok(bs)) => final(out)@ == old(out)@ + bs,
            (Err(e), Err(f)) => e == f,
            _ => false,
        },
{
    match item {
        Item::Value(vi) => {
            encode_value_item(vi, out);
            Ok(())
        },
        Item::Field(f) => encode_field(f.name, &f.init, v, out),
        Item::If(e) => condition::encode_if(e, ps, v, out),
    }
}

/// Executes one item's decode side, extending the bindings.
pub fn decode_item(
    item: &Item,
    ps: &Params,
    env: &mut Env,
    input: &Vec<u8>,
    pos: usize,
) -> (r: Result<usize, Error>)
    requires
        spec_item_wf(*item),
    ensures
        match (r, spec_decode_item(*item, ps.pairs@, old(env).pairs@, input@, pos as int)) {
            (Ok(p), Ok(q)) => final(env).pairs@ == q.0 && p as int == q.1,
            (Err(e), Err(f)) => e == f && final(env).pairs@ == old(env).pairs@,
            _ => false,
        },
{
    match item {
        Item::Value(vi) => compare_value_item(vi, input, pos),
        Item::Field(f) => match decode_field(f.name, &f.init, ps, env, input, pos) {
            Ok((fv, p)) => {
                env.bind(f.name, fv);
                Ok(p)
            },
            Err(e) => Err(e),
        },
        Item::If(e) => condition::decode_if(e, ps, env, input, pos),
    }
}

} // verus!
