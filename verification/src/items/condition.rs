//! Conditional items.
//!
//! A conditional is an ordered chain of guarded branches with an
//! optional trailing else, optionally bound to one name.  The first
//! guard that answers true selects its branch; with none true the else
//! branch runs, or nothing at all.  Within a branch every item but the
//! last is an anonymous value; the last is the bound field when the
//! conditional is named, and another anonymous value otherwise.
//! An else-if chain is held flattened: each else-if is one more arm.

use vstd::prelude::*;
use crate::Error;
use crate::env::{Env, FieldVal, Params};
use crate::guards::{Guard, eval_guard, spec_geval};
use crate::items::{
    FieldCodec, ValueItem, compare_value_item, decode_field, encode_field, encode_value_item,
    spec_compare_value, spec_decode_field, spec_encode_field, spec_field_wf, spec_value_bytes,
    spec_value_wf,
};

verus! {

/// One branch body: anonymous values, then the bound field when the
/// conditional carries a name.
#[derive(Debug)]
pub struct Block {
    pub values: Vec<ValueItem>,
    pub tail: Option<FieldCodec>,
}

/// One guarded branch.
#[derive(Debug)]
pub struct Arm {
    pub cond: Guard,
    pub body: Block,
}

/// A conditional item: guarded branches, an optional else, and an
/// optional binding name.
#[derive(Debug)]
pub struct ExprIf {
    pub name: Option<u32>,
    pub arms: Vec<Arm>,
    pub els: Option<Block>,
}

/// The first arm at or after `i` whose guard answers true.
pub open spec fn spec_select(
    arms: Seq<Arm>,
    i: int,
    ps: Seq<(u32, u128)>,
    env: Seq<(u32, FieldVal)>,
) -> Option<int>
    decreases arms.len() - i,
{
    if i < 0 || i >= arms.len() {
        None
    } else if spec_geval(arms[i].cond, ps, env) {
        Some(i)
    } else {
        spec_select(arms, i + 1, ps, env)
    }
}

/// The bytes the value items from `i` on write.
pub open spec fn spec_encode_values(vs: Seq<ValueItem>, i: int) -> Seq<u8>
    decreases vs.len() - i,
{
    if i < 0 || i >= vs.len() {
        Seq::empty()
    } else {
        spec_value_bytes(vs[i]) + spec_encode_values(vs, i + 1)
    }
}

/// The outcome of decoding the value items from `i` on.
pub open spec fn spec_compare_values(vs: Seq<ValueItem>, i: int, input: Seq<u8>, pos: int) -> Result<
    int,
    Error,
>
    decreases vs.len() - i,
{
    if i < 0 || i >= vs.len() {
        Ok(pos)
    } else {
        match spec_compare_value(vs[i], input, pos) {
            Ok(p) => spec_compare_values(vs, i + 1, input, p),
            Err(e) => Err(e),
        }
    }
}

/// The block's configuration is usable and its shape matches the
/// conditional's namedness: a named conditional ends every branch in a
/// field, an unnamed one in values only.
pub open spec fn spec_block_wf(b: Block, named: bool) -> bool {
    &&& forall|j: int| 0 <= j < b.values@.len() ==> spec_value_wf(#[trigger] b.values@[j])
    &&& match b.tail {
        Some(fc) => named && spec_field_wf(fc),
        None => !named,
    }
}

/// The conditional's configuration is usable; a named conditional
/// carries an else branch, so that its binding is made on every path.
pub open spec fn spec_if_wf(e: ExprIf) -> bool {
    &&& forall|j: int|
        0 <= j < e.arms@.len() ==> spec_block_wf((#[trigger] e.arms@[j]).body, e.name is Some)
    &&& match e.els {
        Some(b) => spec_block_wf(b, e.name is Some),
        None => e.name is None,
    }
}

/// What encoding one block writes: the values, then the bound field
/// read out of `v` when the conditional is named.
pub open spec fn spec_encode_block(b: Block, name: Option<u32>, v: Seq<(u32, FieldVal)>) -> Result<
    Seq<u8>,
    Error,
> {
    let pre = spec_encode_values(b.values@, 0);
    match (name, b.tail) {
        (Some(n), Some(fc)) => match spec_encode_field(n, fc, v) {
            Ok(bs) => Ok(pre + bs),
            Err(e) => Err(e),
        },
        _ => Ok(pre),
    }
}

/// What decoding one block yields: values checked in order, then the
/// bound field appended to the bindings when the conditional is named.
pub open spec fn spec_decode_block(
    b: Block,
    name: Option<u32>,
    ps: Seq<(u32, u128)>,
    env: Seq<(u32, FieldVal)>,
    input: Seq<u8>,
    pos: int,
) -> Result<(Seq<(u32, FieldVal)>, int), Error> {
    match spec_compare_values(b.values@, 0, input, pos) {
        Err(e) => Err(e),
        Ok(p) => match (name, b.tail) {
            (Some(n), Some(fc)) => match spec_decode_field(n, fc, ps, env, input, p) {
                Ok(t) => Ok((env.push((n, t.0)), t.1)),
                Err(e) => Err(e),
            },
            _ => Ok((env, p)),
        },
    }
}

/// What encoding a conditional writes: the selected branch's block, the
/// else block, or nothing.  Guards are evaluated against the source
/// structure `v` and the parameters.
pub open spec fn spec_encode_if(e: ExprIf, ps: Seq<(u32, u128)>, v: Seq<(u32, FieldVal)>) -> Result<
    Seq<u8>,
    Error,
> {
    match spec_select(e.arms@, 0, ps, v) {
        Some(i) => spec_encode_block(e.arms@[i].body, e.name, v),
        None => match e.els {
            Some(b) => spec_encode_block(b, e.name, v),
            None => Ok(Seq::empty()),
        },
    }
}

/// What decoding a conditional yields.  Guards are evaluated against
/// the bindings made so far and the parameters.
pub open spec fn spec_decode_if(
    e: ExprIf,
    ps: Seq<(u32, u128)>,
    env: Seq<(u32, FieldVal)>,
    input: Seq<u8>,
    pos: int,
) -> Result<(Seq<(u32, FieldVal)>, int), Error> {
    match spec_select(e.arms@, 0, ps, env) {
        Some(i) => spec_decode_block(e.arms@[i].body, e.name, ps, env, input, pos),
        None => match e.els {
            Some(b) => spec_decode_block(b, e.name, ps, env, input, pos),
            None => Ok((env, pos)),
        },
    }
}

/// A selected arm lies in range and its guard answered true.
pub proof fn lemma_select_found(
    arms: Seq<Arm>,
    i: int,
    ps: Seq<(u32, u128)>,
    env: Seq<(u32, FieldVal)>,
    k: int,
)
    requires
        0 <= i,
        spec_select(arms, i, ps, env) == Some(k),
    ensures
        i <= k < arms.len(),
        spec_geval(arms[k].cond, ps, env),
        forall|j: int| i <= j < k ==> !spec_geval((#[trigger] arms[j]).cond, ps, env),
    decreases arms.len() - i,
{
    if i < arms.len() && !spec_geval(arms[i].cond, ps, env) {
        lemma_select_found(arms, i + 1, ps, env, k);
    }
}

/// Finds the first arm whose guard answers true over `env`.
pub fn select_arm(arms: &Vec<Arm>, ps: &Params, env: &Env) -> (r: Option<usize>)
    ensures
        match r {
            Some(i) => spec_select(arms@, 0, ps.pairs@, env.pairs@) == Some(i as int),
            None => spec_select(arms@, 0, ps.pairs@, env.pairs@) is None,
        },
{
    let mut i: usize = 0;
    while i < arms.len()
        invariant
            i <= arms@.len(),
            spec_select(arms@, 0, ps.pairs@, env.pairs@) == spec_select(
                arms@,
                i as int,
                ps.pairs@,
                env.pairs@,
            ),
        decreases arms@.len() - i,
    {
        if eval_guard(&arms[i].cond, ps, env) {
            return Some(i);
        }
        i = i + 1;
    }
    None
}

/// Writes the value items from `i` on.
fn encode_values(vs: &Vec<ValueItem>, i: usize, out: &mut Vec<u8>)
    requires
        i <= vs@.len(),
        forall|j: int| i <= j < vs@.len() ==> spec_value_wf(#[trigger] vs@[j]),
    ensures
        final(out)@ == old(out)@ + spec_encode_values(vs@, i as int),
    decreases vs@.len() - i,
{
    if i < vs.len() {
        encode_value_item(&vs[i], out);
        encode_values(vs, i + 1, out);
    }
}

/// Reads and checks the value items from `i` on.
fn compare_values(vs: &Vec<ValueItem>, i: usize, input: &Vec<u8>, pos: usize) -> (r: Result<
    usize,
    Error,
>)
    requires
        i <= vs@.len(),
        forall|j: int| i <= j < vs@.len() ==> spec_value_wf(#[trigger] vs@[j]),
    ensures
        match (r, spec_compare_values(vs@, i as int, input@, pos as int)) {
            (Ok(p), Ok(q)) => p as int == q,
            (Err(e), Err(f)) => e == f,
            _ => false,
        },
    decreases vs@.len() - i,
{
    if i < vs.len() {
        match compare_value_item(&vs[i], input, pos) {
            Ok(p) => compare_values(vs, i + 1, input, p),
            Err(e) => Err(e),
        }
    } else {
        Ok(pos)
    }
}

/// Executes a conditional's encode side against the source structure.
pub fn encode_if(e: &ExprIf, ps: &Params, v: &Env, out: &mut Vec<u8>) -> (r: Result<(), Error>)
    requires
        spec_if_wf(*e),
    ensures
        match (r, spec_encode_if(*e, ps.pairs@, v.pairs@)) {
            (Ok(u), Ok(bs)) => final(out)@ == old(out)@ + bs,
            (Err(e2), Err(f)) => e2 == f,
            _ => false,
        },
{
    match select_arm(&e.arms, ps, v) {
        Some(i) => {
            proof {
                lemma_select_found(e.arms@, 0, ps.pairs@, v.pairs@, i as int);
            }
            encode_block(&e.arms[i].body, e.name, v, out)
        },
        None => match &e.els {
            Some(b) => encode_block(b, e.name, v, out),
            None => Ok(()),
        },
    }
}

/// Writes one block: its values, then its bound field when named.
fn encode_block(b: &Block, name: Option<u32>, v: &Env, out: &mut Vec<u8>) -> (r: Result<(), Error>)
    requires
        spec_block_wf(*b, name is Some),
    ensures
        match (r, spec_encode_block(*b, name, v.pairs@)) {
            (Ok(u), Ok(bs)) => final(out)@ == old(out)@ + bs,
            (Err(e), Err(f)) => e == f,
            _ => false,
        },
{
    encode_values(&b.values, 0, out);
    match (name, &b.tail) {
        (Some(n), Some(fc)) => encode_field(n, fc, v, out),
        _ => Ok(()),
    }
}

/// Executes a conditional's decode side, extending the bindings.
pub fn decode_if(
    e: &ExprIf,
    ps: &Params,
    env: &mut Env,
    input: &Vec<u8>,
    pos: usize,
) -> (r: Result<usize, Error>)
    requires
        spec_if_wf(*e),
    ensures
        match (r, spec_decode_if(*e, ps.pairs@, old(env).pairs@, input@, pos as int)) {
            (Ok(p), Ok(q)) => final(env).pairs@ == q.0 && p as int == q.1,
            (Err(e2), Err(f)) => e2 == f && final(env).pairs@ == old(env).pairs@,
            _ => false,
        },
{
    match select_arm(&e.arms, ps, env) {
        Some(i) => {
            proof {
                lemma_select_found(e.arms@, 0, ps.pairs@, env.pairs@, i as int);
            }
            decode_block(&e.arms[i].body, e.name, ps, env, input, pos)
        },
        None => match &e.els {
            Some(b) => decode_block(b, e.name, ps, env, input, pos),
            None => Ok(pos),
        },
    }
}

/// Reads one block: its values, then its bound field when named.
fn decode_block(
    b: &Block,
    name: Option<u32>,
    ps: &Params,
    env: &mut Env,
    input: &Vec<u8>,
    pos: usize,
) -> (r: Result<usize, Error>)
    requires
        spec_block_wf(*b, name is Some),
    ensures
        match (r, spec_decode_block(*b, name, ps.pairs@, old(env).pairs@, input@, pos as int)) {
            (Ok(p), Ok(q)) => final(env).pairs@ == q.0 && p as int == q.1,
            (Err(e), Err(f)) => e == f && final(env).pairs@ == old(env).pairs@,
            _ => false,
        },
{
    match compare_values(&b.values, 0, input, pos) {
        Err(e) => Err(e),
        Ok(p) => match (name, &b.tail) {
            (Some(n), Some(fc)) => match decode_field(n, fc, ps, env, input, p) {
                Ok((fv, p2)) => {
                    env.bind(n, fv);
                    Ok(p2)
                },
                Err(e) => Err(e),
            },
            _ => Ok(p),
        },
    }
}

} // verus!
