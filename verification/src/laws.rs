//! The library's laws.
//!
//! The statements a schema author relies on: a tag position rejects
//! exactly the foreign constants, a skipped position never looks at its
//! bytes, branch selection agrees between the two directions, and a
//! validated schema round-trips every structure whose optional fields
//! agree with their presence predicates.

use vstd::prelude::*;
use crate::{Any, Error, Tag, Value};
use crate::env::{FieldVal, lemma_lookup_push, lookup, plookup};
use crate::enums::lemma_conv_round_trip;
use crate::guards::{Guard, gnames, lemma_geval_agree, spec_geval, spec_names_in};
use crate::integers::{lemma_enc_len, lemma_int_round_trip};
use crate::items::condition::{
    Arm, Block, ExprIf, lemma_select_found, spec_block_wf, spec_compare_values,
    spec_decode_block, spec_decode_if, spec_encode_block, spec_encode_if, spec_encode_values,
    spec_if_wf, spec_select,
};
use crate::items::{
    FieldCodec, Item, ValueItem, spec_compare_value, spec_decode_field, spec_decode_item,
    spec_encode_field, spec_encode_item, spec_field_wf, spec_item_wf, spec_value_bytes,
    spec_value_wf,
};
use crate::schema::{
    Deener, avail_after, block_scope_ok, field_scope_ok, if_scope_ok, item_binding, pnames,
    spec_decode_items, spec_encode_items, spec_item_scope_ok, spec_items_wf, spec_scopes_ok,
};

verus! {

/// Tag rejection: at a well-formed tag position with enough bytes, the
/// decode succeeds exactly when the decoded value equals the expected
/// constant, and otherwise fails with the mismatch error carrying both.
pub proof fn lemma_tag_rejection(t: Tag, input: Seq<u8>, pos: int)
    requires
        t.val_wf(),
        0 <= pos,
        pos + t.deener.width as int <= input.len(),
    ensures
        ({
            let found = t.deener.spec_dec(input.subrange(pos, pos + t.deener.width as int));
            if found == t.value as nat {
                t.cmp_at(input, pos) == Result::<int, Error>::Ok(pos + t.deener.width as int)
            } else {
                t.cmp_at(input, pos) == Result::<int, Error>::Err(
                    Error::TagMismatch { expected: t.value, found: found as u128 },
                )
            }
        }),
{
}

/// Skip transparency: a skipped position reads nothing but a length;
/// its outcome is the same over any two inputs of equal length, whatever
/// bytes occupy the position.
pub proof fn lemma_skip_transparency(a: Any, s1: Seq<u8>, s2: Seq<u8>, pos: int)
    requires
        s1.len() == s2.len(),
    ensures
        a.cmp_at(s1, pos) == a.cmp_at(s2, pos),
{
}

/// A concatenation sitting inside a byte string splits into its parts.
pub proof fn lemma_subrange_concat(input: Seq<u8>, pos: int, a: Seq<u8>, b: Seq<u8>)
    requires
        0 <= pos,
        pos + a.len() + b.len() <= input.len(),
        input.subrange(pos, pos + a.len() + b.len()) == a + b,
    ensures
        input.subrange(pos, pos + a.len() as int) == a,
        input.subrange(pos + a.len() as int, pos + a.len() + b.len()) == b,
{
    let whole = input.subrange(pos, pos + a.len() + b.len());
    assert forall|i: int| 0 <= i < a.len() implies input[pos + i] == a[i] by {
        assert(whole[i] == (a + b)[i]);
    }
    assert forall|i: int| 0 <= i < b.len() implies input[pos + a.len() + i] == b[i] by {
        assert(whole[a.len() + i] == (a + b)[a.len() + i]);
    }
    assert(input.subrange(pos, pos + a.len() as int) =~= a);
    assert(input.subrange(pos + a.len() as int, pos + a.len() + b.len()) =~= b);
}

/// A parameter name always resolves among the parameters.
pub proof fn lemma_pnames_plookup(ps: Seq<(u32, u128)>, n: u32)
    requires
        pnames(ps).contains(n),
    ensures
        plookup(ps, n) is Some,
    decreases ps.len(),
{
    if ps.len() > 0 {
        if ps.last().0 != n {
            assert(pnames(ps.drop_last()).contains(n)) by {
                let i = choose|i: int| 0 <= i < ps.len() && pnames(ps)[i] == n;
                assert(ps[i].0 == n);
                assert(i < ps.len() - 1);
                assert(pnames(ps.drop_last())[i] == ps.drop_last()[i].0);
            }
            lemma_pnames_plookup(ps.drop_last(), n);
        }
    }
}

/// Membership in a pushed sequence: the old members plus the new one.
pub proof fn lemma_push_contains(s: Seq<u32>, x: u32, y: u32)
    ensures
        s.push(x).contains(y) <==> (s.contains(y) || y == x),
{
    if s.push(x).contains(y) {
        let i = choose|i: int| 0 <= i < s.push(x).len() && s.push(x)[i] == y;
        if i < s.len() {
            assert(s[i] == y);
        }
    }
    if s.contains(y) {
        let i = choose|i: int| 0 <= i < s.len() && s[i] == y;
        assert(s.push(x)[i] == y);
    }
    if y == x {
        assert(s.push(x)[s.len() as int] == y);
    }
}

/// The set of names the items from `i` onward bind.
pub open spec fn bound_set(items: Seq<Item>, i: int) -> Set<u32>
    decreases items.len() - i,
{
    if i < 0 || i >= items.len() {
        Set::empty()
    } else {
        let rest = bound_set(items, i + 1);
        match item_binding(items[i]) {
            Some(n) => rest.insert(n),
            None => rest,
        }
    }
}

/// One optional field position is presence-consistent for `v`: its
/// predicate, evaluated against `v` itself, answers true exactly when
/// the field is present in `v`.
pub open spec fn field_presence_ok(
    name: u32,
    fc: FieldCodec,
    ps: Seq<(u32, u128)>,
    v: Seq<(u32, FieldVal)>,
) -> bool {
    match fc {
        FieldCodec::Plain { .. } => true,
        FieldCodec::Opt(oi) => match lookup(v, name) {
            Some(FieldVal::Opt(o)) => spec_geval(oi.pred, ps, v) == (o is Some),
            _ => true,
        },
    }
}

/// A block's bound field, if any, is presence-consistent.
pub open spec fn block_presence_ok(
    b: Block,
    name: Option<u32>,
    ps: Seq<(u32, u128)>,
    v: Seq<(u32, FieldVal)>,
) -> bool {
    match (name, b.tail) {
        (Some(n), Some(fc)) => field_presence_ok(n, fc, ps, v),
        _ => true,
    }
}

/// The optional positions an encode of `v` reaches are
/// presence-consistent.
pub open spec fn item_presence_ok(it: Item, ps: Seq<(u32, u128)>, v: Seq<(u32, FieldVal)>) -> bool {
    match it {
        Item::Value(_) => true,
        Item::Field(f) => field_presence_ok(f.name, f.init, ps, v),
        Item::If(e) => match spec_select(e.arms@, 0, ps, v) {
            Some(i) => block_presence_ok(e.arms@[i].body, e.name, ps, v),
            None => match e.els {
                Some(b) => block_presence_ok(b, e.name, ps, v),
                None => true,
            },
        },
    }
}

/// Presence consistency of the items from `i` onward.
pub open spec fn items_presence_ok(
    items: Seq<Item>,
    i: int,
    ps: Seq<(u32, u128)>,
    v: Seq<(u32, FieldVal)>,
) -> bool
    decreases items.len() - i,
{
    if i < 0 || i >= items.len() {
        true
    } else {
        item_presence_ok(items[i], ps, v) && items_presence_ok(items, i + 1, ps, v)
    }
}

/// The partial decode bindings agree with the source structure on every
/// available name, unless a parameter shadows it.
pub open spec fn env_agrees(
    ps: Seq<(u32, u128)>,
    env: Seq<(u32, FieldVal)>,
    v: Seq<(u32, FieldVal)>,
    avail: Seq<u32>,
) -> bool {
    forall|n: u32|
        avail.contains(n) ==> plookup(ps, n) is Some || lookup(env, n) == lookup(v, n)
}

/// Branch symmetry: when every guard of the chain reads only available
/// names, and the decode-side bindings agree with the source structure
/// on those names, both directions select the same branch.
pub proof fn lemma_branch_symmetry(
    arms: Seq<Arm>,
    i: int,
    ps: Seq<(u32, u128)>,
    env: Seq<(u32, FieldVal)>,
    v: Seq<(u32, FieldVal)>,
    avail: Seq<u32>,
)
    requires
        0 <= i,
        forall|j: int| 0 <= j < arms.len() ==> spec_names_in((#[trigger] arms[j]).cond, avail),
        env_agrees(ps, env, v, avail),
    ensures
        spec_select(arms, i, ps, env) == spec_select(arms, i, ps, v),
    decreases arms.len() - i,
{
    if i < arms.len() {
        assert forall|n: u32| gnames(arms[i].cond).contains(n) implies plookup(ps, n) is Some
            || lookup(env, n) == lookup(v, n) by {
            assert(spec_names_in(arms[i].cond, avail));
            assert(avail.contains(n));
        }
        lemma_geval_agree(arms[i].cond, ps, env, v);
        if !spec_geval(arms[i].cond, ps, env) {
            lemma_branch_symmetry(arms, i + 1, ps, env, v, avail);
        }
    }
}

/// A value item decodes its own encoding, consuming exactly its bytes.
pub proof fn lemma_value_round_trip(vi: ValueItem, input: Seq<u8>, pos: int)
    requires
        spec_value_wf(vi),
        0 <= pos,
        pos + spec_value_bytes(vi).len() <= input.len(),
        input.subrange(pos, pos + spec_value_bytes(vi).len() as int) == spec_value_bytes(vi),
    ensures
        spec_compare_value(vi, input, pos) == Result::<int, Error>::Ok(
            pos + spec_value_bytes(vi).len() as int,
        ),
{
    match vi {
        ValueItem::Tag(t) => {
            lemma_enc_len(t.deener, t.value);
            lemma_int_round_trip(t.deener, t.value);
        },
        ValueItem::Any(a) => {
            lemma_enc_len(a.deener, 0);
        },
    }
}

/// A run of value items decodes its own encoding, consuming exactly its
/// bytes.
pub proof fn lemma_values_round_trip(vs: Seq<ValueItem>, j: int, input: Seq<u8>, pos: int)
    requires
        0 <= j <= vs.len(),
        0 <= pos,
        forall|k: int| j <= k < vs.len() ==> spec_value_wf(#[trigger] vs[k]),
        pos + spec_encode_values(vs, j).len() <= input.len(),
        input.subrange(pos, pos + spec_encode_values(vs, j).len() as int) == spec_encode_values(
            vs,
            j,
        ),
    ensures
        spec_compare_values(vs, j, input, pos) == Result::<int, Error>::Ok(
            pos + spec_encode_values(vs, j).len() as int,
        ),
    decreases vs.len() - j,
{
    if j < vs.len() {
        let a = spec_value_bytes(vs[j]);
        let b = spec_encode_values(vs, j + 1);
        lemma_subrange_concat(input, pos, a, b);
        lemma_value_round_trip(vs[j], input, pos);
        lemma_values_round_trip(vs, j + 1, input, pos + a.len() as int);
    }
}

/// A field position decodes its own encoding back to the very value the
/// source structure holds, consuming exactly its bytes.
pub proof fn lemma_field_round_trip(
    name: u32,
    fc: FieldCodec,
    ps: Seq<(u32, u128)>,
    env: Seq<(u32, FieldVal)>,
    v: Seq<(u32, FieldVal)>,
    input: Seq<u8>,
    pos: int,
    avail: Seq<u32>,
)
    requires
        spec_field_wf(fc),
        field_scope_ok(fc, avail),
        env_agrees(ps, env, v, avail),
        field_presence_ok(name, fc, ps, v),
        spec_encode_field(name, fc, v) is Ok,
        0 <= pos,
        ({
            let bs = spec_encode_field(name, fc, v)->Ok_0;
            &&& pos + bs.len() <= input.len()
            &&& input.subrange(pos, pos + bs.len() as int) == bs
        }),
    ensures
        ({
            let bs = spec_encode_field(name, fc, v)->Ok_0;
            match spec_decode_field(name, fc, ps, env, input, pos) {
                Ok(t) => lookup(v, name) == Some(t.0) && t.1 == pos + bs.len(),
                Err(_) => false,
            }
        }),
{
    let bs = spec_encode_field(name, fc, v)->Ok_0;
    let fv = lookup(v, name)->Some_0;
    match fc {
        FieldCodec::Plain { deener, conv } => {
            let s = fv->Req_0;
            let w = conv.spec_to_wire(deener, s)->Some_0;
            lemma_conv_round_trip(conv, deener, s, w);
            lemma_enc_len(deener, w);
            lemma_int_round_trip(deener, w);
        },
        FieldCodec::Opt(oi) => {
            assert forall|n: u32| gnames(oi.pred).contains(n) implies plookup(ps, n) is Some
                || lookup(env, n) == lookup(v, n) by {
                assert(avail.contains(n));
            }
            lemma_geval_agree(oi.pred, ps, env, v);
            let o = fv->Opt_0;
            match o {
                None => {},
                Some(s) => {
                    let w = oi.conv.spec_to_wire(oi.encoder, s)->Some_0;
                    lemma_conv_round_trip(oi.conv, oi.encoder, s, w);
                    lemma_enc_len(oi.encoder, w);
                    lemma_int_round_trip(oi.encoder, w);
                },
            }
        },
    }
}

/// A block decodes its own encoding: the values pass, the bound field
/// comes back as the source structure holds it.
pub proof fn lemma_block_round_trip(
    b: Block,
    name: Option<u32>,
    ps: Seq<(u32, u128)>,
    env: Seq<(u32, FieldVal)>,
    v: Seq<(u32, FieldVal)>,
    input: Seq<u8>,
    pos: int,
    avail: Seq<u32>,
)
    requires
        spec_block_wf(b, name is Some),
        block_scope_ok(b, avail),
        env_agrees(ps, env, v, avail),
        block_presence_ok(b, name, ps, v),
        spec_encode_block(b, name, v) is Ok,
        0 <= pos,
        ({
            let bs = spec_encode_block(b, name, v)->Ok_0;
            &&& pos + bs.len() <= input.len()
            &&& input.subrange(pos, pos + bs.len() as int) == bs
        }),
    ensures
        ({
            let bs = spec_encode_block(b, name, v)->Ok_0;
            match spec_decode_block(b, name, ps, env, input, pos) {
                Ok(t) => t.1 == pos + bs.len() && (match name {
                    Some(n) => lookup(v, n) is Some && t.0 == env.push((n, lookup(v, n)->Some_0)),
                    None => t.0 == env,
                }),
                Err(_) => false,
            }
        }),
{
    let pre = spec_encode_values(b.values@, 0);
    match (name, b.tail) {
        (Some(n), Some(fc)) => {
            let fbs = spec_encode_field(n, fc, v)->Ok_0;
            lemma_subrange_concat(input, pos, pre, fbs);
            lemma_values_round_trip(b.values@, 0, input, pos);
            lemma_field_round_trip(n, fc, ps, env, v, input, pos + pre.len() as int, avail);
        },
        _ => {
            lemma_values_round_trip(b.values@, 0, input, pos);
        },
    }
}

/// A conditional decodes its own encoding: decode re-selects the branch
/// encode took and the binding, if any, comes back unchanged.
pub proof fn lemma_if_round_trip(
    e: ExprIf,
    ps: Seq<(u32, u128)>,
    env: Seq<(u32, FieldVal)>,
    v: Seq<(u32, FieldVal)>,
    input: Seq<u8>,
    pos: int,
    avail: Seq<u32>,
)
    requires
        spec_if_wf(e),
        if_scope_ok(e, avail),
        env_agrees(ps, env, v, avail),
        item_presence_ok(Item::If(e), ps, v),
        spec_encode_if(e, ps, v) is Ok,
        0 <= pos,
        ({
            let bs = spec_encode_if(e, ps, v)->Ok_0;
            &&& pos + bs.len() <= input.len()
            &&& input.subrange(pos, pos + bs.len() as int) == bs
        }),
    ensures
        ({
            let bs = spec_encode_if(e, ps, v)->Ok_0;
            match spec_decode_if(e, ps, env, input, pos) {
                Ok(t) => t.1 == pos + bs.len() && (match e.name {
                    Some(n) => lookup(v, n) is Some && t.0 == env.push((n, lookup(v, n)->Some_0)),
                    None => t.0 == env,
                }),
                Err(_) => false,
            }
        }),
{
    lemma_branch_symmetry(e.arms@, 0, ps, env, v, avail);
    match spec_select(e.arms@, 0, ps, v) {
        Some(k) => {
            lemma_select_found(e.arms@, 0, ps, v, k);
            lemma_block_round_trip(e.arms@[k].body, e.name, ps, env, v, input, pos, avail);
        },
        None => {
            match e.els {
                Some(b) => {
                    lemma_block_round_trip(b, e.name, ps, env, v, input, pos, avail);
                },
                None => {},
            }
        },
    }
}

/// Decoding one value item never moves backwards.
pub proof fn lemma_compare_value_monotone(vi: ValueItem, input: Seq<u8>, pos: int)
    requires
        spec_compare_value(vi, input, pos) is Ok,
    ensures
        pos <= spec_compare_value(vi, input, pos)->Ok_0,
{
}

/// Decoding a run of value items never moves backwards.
pub proof fn lemma_compare_values_monotone(vs: Seq<ValueItem>, i: int, input: Seq<u8>, pos: int)
    requires
        spec_compare_values(vs, i, input, pos) is Ok,
    ensures
        pos <= spec_compare_values(vs, i, input, pos)->Ok_0,
    decreases vs.len() - i,
{
    if 0 <= i < vs.len() {
        let p = spec_compare_value(vs[i], input, pos)->Ok_0;
        lemma_compare_value_monotone(vs[i], input, pos);
        lemma_compare_values_monotone(vs, i + 1, input, p);
    }
}

/// Decoding one field never moves backwards.
pub proof fn lemma_decode_field_monotone(
    name: u32,
    fc: FieldCodec,
    ps: Seq<(u32, u128)>,
    env: Seq<(u32, FieldVal)>,
    input: Seq<u8>,
    pos: int,
)
    requires
        spec_decode_field(name, fc, ps, env, input, pos) is Ok,
    ensures
        pos <= spec_decode_field(name, fc, ps, env, input, pos)->Ok_0.1,
{
}

/// Decoding one item never moves backwards.
pub proof fn lemma_decode_item_monotone(
    it: Item,
    ps: Seq<(u32, u128)>,
    env: Seq<(u32, FieldVal)>,
    input: Seq<u8>,
    pos: int,
)
    requires
        spec_decode_item(it, ps, env, input, pos) is Ok,
    ensures
        pos <= spec_decode_item(it, ps, env, input, pos)->Ok_0.1,
{
    match it {
        Item::Value(vi) => {
            lemma_compare_value_monotone(vi, input, pos);
        },
        Item::Field(f) => {
            lemma_decode_field_monotone(f.name, f.init, ps, env, input, pos);
        },
        Item::If(e) => {
            lemma_decode_if_monotone(e, ps, env, input, pos);
        },
    }
}

/// Decoding one block never moves backwards.
pub proof fn lemma_decode_block_monotone(
    b: Block,
    name: Option<u32>,
    ps: Seq<(u32, u128)>,
    env: Seq<(u32, FieldVal)>,
    input: Seq<u8>,
    pos: int,
)
    requires
        spec_decode_block(b, name, ps, env, input, pos) is Ok,
    ensures
        pos <= spec_decode_block(b, name, ps, env, input, pos)->Ok_0.1,
{
    let p = spec_compare_values(b.values@, 0, input, pos)->Ok_0;
    lemma_compare_values_monotone(b.values@, 0, input, pos);
    match (name, b.tail) {
        (Some(n), Some(fc)) => {
            lemma_decode_field_monotone(n, fc, ps, env, input, p);
        },
        _ => {},
    }
}

/// Decoding one conditional never moves backwards.
pub proof fn lemma_decode_if_monotone(
    e: ExprIf,
    ps: Seq<(u32, u128)>,
    env: Seq<(u32, FieldVal)>,
    input: Seq<u8>,
    pos: int,
)
    requires
        spec_decode_if(e, ps, env, input, pos) is Ok,
    ensures
        pos <= spec_decode_if(e, ps, env, input, pos)->Ok_0.1,
{
    match spec_select(e.arms@, 0, ps, env) {
        Some(k) => {
            lemma_select_found(e.arms@, 0, ps, env, k);
            lemma_decode_block_monotone(e.arms@[k].body, e.name, ps, env, input, pos);
        },
        None => match e.els {
            Some(b) => {
                lemma_decode_block_monotone(b, e.name, ps, env, input, pos);
            },
            None => {},
        },
    }
}

/// Decoding a run of items never moves backwards.
pub proof fn lemma_decode_items_monotone(
    items: Seq<Item>,
    i: int,
    ps: Seq<(u32, u128)>,
    env: Seq<(u32, FieldVal)>,
    input: Seq<u8>,
    pos: int,
)
    requires
        spec_decode_items(items, i, ps, env, input, pos) is Ok,
    ensures
        pos <= spec_decode_items(items, i, ps, env, input, pos)->Ok_0.1,
    decreases items.len() - i,
{
    if 0 <= i < items.len() {
        let t = spec_decode_item(items[i], ps, env, input, pos)->Ok_0;
        lemma_decode_item_monotone(items[i], ps, env, input, pos);
        lemma_decode_items_monotone(items, i + 1, ps, t.0, input, t.1);
    }
}

/// A value item reads only the bytes it consumes: over a second input
/// of the same length agreeing there, the outcome is unchanged.
pub proof fn lemma_compare_value_frame(vi: ValueItem, s1: Seq<u8>, s2: Seq<u8>, pos: int)
    requires
        s1.len() == s2.len(),
        spec_compare_value(vi, s1, pos) is Ok,
        ({
            let p = spec_compare_value(vi, s1, pos)->Ok_0;
            forall|k: int| pos <= k < p ==> s1[k] == s2[k]
        }),
    ensures
        spec_compare_value(vi, s2, pos) == spec_compare_value(vi, s1, pos),
{
    let p = spec_compare_value(vi, s1, pos)->Ok_0;
    match vi {
        ValueItem::Tag(t) => {
            let w = t.deener.width as int;
            assert(s2.subrange(pos, pos + w) =~= s1.subrange(pos, pos + w));
        },
        ValueItem::Any(_) => {},
    }
}

/// A run of value items reads only the bytes it consumes.
pub proof fn lemma_compare_values_frame(
    vs: Seq<ValueItem>,
    i: int,
    s1: Seq<u8>,
    s2: Seq<u8>,
    pos: int,
)
    requires
        s1.len() == s2.len(),
        spec_compare_values(vs, i, s1, pos) is Ok,
        ({
            let p = spec_compare_values(vs, i, s1, pos)->Ok_0;
            forall|k: int| pos <= k < p ==> s1[k] == s2[k]
        }),
    ensures
        spec_compare_values(vs, i, s2, pos) == spec_compare_values(vs, i, s1, pos),
    decreases vs.len() - i,
{
    if 0 <= i < vs.len() {
        let p1 = spec_compare_value(vs[i], s1, pos)->Ok_0;
        lemma_compare_value_monotone(vs[i], s1, pos);
        lemma_compare_values_monotone(vs, i + 1, s1, p1);
        lemma_compare_value_frame(vs[i], s1, s2, pos);
        lemma_compare_values_frame(vs, i + 1, s1, s2, p1);
    }
}

/// A field reads only the bytes it consumes.
pub proof fn lemma_decode_field_frame(
    name: u32,
    fc: FieldCodec,
    ps: Seq<(u32, u128)>,
    env: Seq<(u32, FieldVal)>,
    s1: Seq<u8>,
    s2: Seq<u8>,
    pos: int,
)
    requires
        s1.len() == s2.len(),
        spec_decode_field(name, fc, ps, env, s1, pos) is Ok,
        ({
            let p = spec_decode_field(name, fc, ps, env, s1, pos)->Ok_0.1;
            forall|k: int| pos <= k < p ==> s1[k] == s2[k]
        }),
    ensures
        spec_decode_field(name, fc, ps, env, s2, pos) == spec_decode_field(
            name,
            fc,
            ps,
            env,
            s1,
            pos,
        ),
{
    match fc {
        FieldCodec::Plain { deener, conv } => {
            let w = deener.width as int;
            assert(s2.subrange(pos, pos + w) =~= s1.subrange(pos, pos + w));
        },
        FieldCodec::Opt(oi) => {
            if spec_geval(oi.pred, ps, env) {
                let w = oi.encoder.width as int;
                assert(s2.subrange(pos, pos + w) =~= s1.subrange(pos, pos + w));
            }
        },
    }
}

/// A block reads only the bytes it consumes.
pub proof fn lemma_decode_block_frame(
    b: Block,
    name: Option<u32>,
    ps: Seq<(u32, u128)>,
    env: Seq<(u32, FieldVal)>,
    s1: Seq<u8>,
    s2: Seq<u8>,
    pos: int,
)
    requires
        s1.len() == s2.len(),
        spec_decode_block(b, name, ps, env, s1, pos) is Ok,
        ({
            let p = spec_decode_block(b, name, ps, env, s1, pos)->Ok_0.1;
            forall|k: int| pos <= k < p ==> s1[k] == s2[k]
        }),
    ensures
        spec_decode_block(b, name, ps, env, s2, pos) == spec_decode_block(
            b,
            name,
            ps,
            env,
            s1,
            pos,
        ),
{
    let p1 = spec_compare_values(b.values@, 0, s1, pos)->Ok_0;
    lemma_compare_values_monotone(b.values@, 0, s1, pos);
    match (name, b.tail) {
        (Some(n), Some(fc)) => {
            lemma_decode_field_monotone(n, fc, ps, env, s1, p1);
            lemma_compare_values_frame(b.values@, 0, s1, s2, pos);
            lemma_decode_field_frame(n, fc, ps, env, s1, s2, p1);
        },
        _ => {
            lemma_compare_values_frame(b.values@, 0, s1, s2, pos);
        },
    }
}

/// A conditional reads only the bytes it consumes.
pub proof fn lemma_decode_if_frame(
    e: ExprIf,
    ps: Seq<(u32, u128)>,
    env: Seq<(u32, FieldVal)>,
    s1: Seq<u8>,
    s2: Seq<u8>,
    pos: int,
)
    requires
        s1.len() == s2.len(),
        spec_decode_if(e, ps, env, s1, pos) is Ok,
        ({
            let p = spec_decode_if(e, ps, env, s1, pos)->Ok_0.1;
            forall|k: int| pos <= k < p ==> s1[k] == s2[k]
        }),
    ensures
        spec_decode_if(e, ps, env, s2, pos) == spec_decode_if(e, ps, env, s1, pos),
{
    match spec_select(e.arms@, 0, ps, env) {
        Some(k) => {
            lemma_select_found(e.arms@, 0, ps, env, k);
            lemma_decode_block_frame(e.arms@[k].body, e.name, ps, env, s1, s2, pos);
        },
        None => match e.els {
            Some(b) => {
                lemma_decode_block_frame(b, e.name, ps, env, s1, s2, pos);
            },
            None => {},
        },
    }
}

/// One item reads only the bytes it consumes.
pub proof fn lemma_decode_item_frame(
    it: Item,
    ps: Seq<(u32, u128)>,
    env: Seq<(u32, FieldVal)>,
    s1: Seq<u8>,
    s2: Seq<u8>,
    pos: int,
)
    requires
        s1.len() == s2.len(),
        spec_decode_item(it, ps, env, s1, pos) is Ok,
        ({
            let p = spec_decode_item(it, ps, env, s1, pos)->Ok_0.1;
            forall|k: int| pos <= k < p ==> s1[k] == s2[k]
        }),
    ensures
        spec_decode_item(it, ps, env, s2, pos) == spec_decode_item(it, ps, env, s1, pos),
{
    match it {
        Item::Value(vi) => {
            lemma_compare_value_frame(vi, s1, s2, pos);
        },
        Item::Field(f) => {
            lemma_decode_field_frame(f.name, f.init, ps, env, s1, s2, pos);
        },
        Item::If(e) => {
            lemma_decode_if_frame(e, ps, env, s1, s2, pos);
        },
    }
}

/// A decode run reads only the bytes it consumes: its whole outcome is
/// a function of the consumed range and the input's length.
pub proof fn lemma_decode_items_frame(
    items: Seq<Item>,
    i: int,
    ps: Seq<(u32, u128)>,
    env: Seq<(u32, FieldVal)>,
    s1: Seq<u8>,
    s2: Seq<u8>,
    pos: int,
)
    requires
        s1.len() == s2.len(),
        spec_decode_items(items, i, ps, env, s1, pos) is Ok,
        ({
            let p = spec_decode_items(items, i, ps, env, s1, pos)->Ok_0.1;
            forall|k: int| pos <= k < p ==> s1[k] == s2[k]
        }),
    ensures
        spec_decode_items(items, i, ps, env, s2, pos) == spec_decode_items(
            items,
            i,
            ps,
            env,
            s1,
            pos,
        ),
    decreases items.len() - i,
{
    if 0 <= i < items.len() {
        let t1 = spec_decode_item(items[i], ps, env, s1, pos)->Ok_0;
        lemma_decode_item_monotone(items[i], ps, env, s1, pos);
        lemma_decode_items_monotone(items, i + 1, ps, t1.0, s1, t1.1);
        lemma_decode_item_frame(items[i], ps, env, s1, s2, pos);
        lemma_decode_items_frame(items, i + 1, ps, t1.0, s1, s2, t1.1);
    }
}

/// Decoding the items from `i` up to, but not through, item `j`: the
/// state — bindings and position — in which item `j` is entered.
pub open spec fn spec_decode_upto(
    items: Seq<Item>,
    i: int,
    j: int,
    ps: Seq<(u32, u128)>,
    env: Seq<(u32, FieldVal)>,
    input: Seq<u8>,
    pos: int,
) -> Result<(Seq<(u32, FieldVal)>, int), Error>
    decreases j - i,
{
    if i < 0 || i >= j {
        Ok((env, pos))
    } else {
        match spec_decode_item(items[i], ps, env, input, pos) {
            Err(e) => Err(e),
            Ok(t) => spec_decode_upto(items, i + 1, j, ps, t.0, input, t.1),
        }
    }
}

/// A decode run splits at any item: run to `j`, then run from `j`.
pub proof fn lemma_decode_split(
    items: Seq<Item>,
    i: int,
    j: int,
    ps: Seq<(u32, u128)>,
    env: Seq<(u32, FieldVal)>,
    input: Seq<u8>,
    pos: int,
)
    requires
        0 <= i <= j <= items.len(),
    ensures
        spec_decode_items(items, i, ps, env, input, pos) == match spec_decode_upto(
            items,
            i,
            j,
            ps,
            env,
            input,
            pos,
        ) {
            Ok(t) => spec_decode_items(items, j, ps, t.0, input, t.1),
            Err(e) => Err(e),
        },
    decreases j - i,
{
    if i < j {
        match spec_decode_item(items[i], ps, env, input, pos) {
            Err(_) => {},
            Ok(t) => {
                lemma_decode_split(items, i + 1, j, ps, t.0, input, t.1);
            },
        }
    }
}

/// Skip transparency, over a whole schema: when item `j` is a skipped
/// position, the decoded structure is unaffected by the bytes occupying
/// that position — any second input of the same length agreeing with
/// the first everywhere outside that position's range decodes to the
/// very same outcome.
pub proof fn lemma_skip_transparency_schema(
    items: Seq<Item>,
    j: int,
    a: Any,
    ps: Seq<(u32, u128)>,
    s1: Seq<u8>,
    s2: Seq<u8>,
)
    requires
        0 <= j < items.len(),
        items[j] == Item::Value(ValueItem::Any(a)),
        s1.len() == s2.len(),
        spec_decode_items(items, 0, ps, Seq::<(u32, FieldVal)>::empty(), s1, 0) is Ok,
        spec_decode_upto(items, 0, j, ps, Seq::<(u32, FieldVal)>::empty(), s1, 0) is Ok,
        ({
            let st = spec_decode_upto(items, 0, j, ps, Seq::<(u32, FieldVal)>::empty(), s1, 0)
                ->Ok_0;
            let t = spec_decode_items(items, 0, ps, Seq::<(u32, FieldVal)>::empty(), s1, 0)
                ->Ok_0;
            forall|k: int|
                0 <= k < t.1 && !(st.1 <= k < st.1 + a.deener.width as int) ==> s1[k] == s2[k]
        }),
    ensures
        spec_decode_items(items, 0, ps, Seq::<(u32, FieldVal)>::empty(), s2, 0)
            == spec_decode_items(items, 0, ps, Seq::<(u32, FieldVal)>::empty(), s1, 0),
{
    let empty_env = Seq::<(u32, FieldVal)>::empty();
    let st = spec_decode_upto(items, 0, j, ps, empty_env, s1, 0)->Ok_0;
    let t = spec_decode_items(items, 0, ps, empty_env, s1, 0)->Ok_0;
    let w = a.deener.width as int;
    lemma_decode_split(items, 0, j, ps, empty_env, s1, 0);
    lemma_decode_split(items, 0, j, ps, empty_env, s2, 0);
    // The tail run from item j over s1: first the skipped position,
    // then the rest; both of its outcomes bound the positions.
    assert(spec_decode_items(items, j, ps, st.0, s1, st.1) == spec_decode_items(
        items,
        0,
        ps,
        empty_env,
        s1,
        0,
    ));
    let t1 = spec_decode_item(items[j], ps, st.0, s1, st.1)->Ok_0;
    assert(t1.0 == st.0 && t1.1 == st.1 + w);
    lemma_decode_items_monotone(items, j + 1, ps, st.0, s1, st.1 + w);
    // The prefix run consumes bytes below the skipped range, where the
    // two inputs agree.
    lemma_decode_upto_frame(items, 0, j, ps, empty_env, s1, s2, 0);
    // The skipped position itself never reads its bytes.
    assert(spec_decode_item(items[j], ps, st.0, s2, st.1) == spec_decode_item(
        items[j],
        ps,
        st.0,
        s1,
        st.1,
    ));
    // The remainder consumes bytes beyond the skipped range, where the
    // two inputs agree again.
    lemma_decode_items_frame(items, j + 1, ps, st.0, s1, s2, st.1 + w);
}

/// The prefix counterpart of [`lemma_decode_items_frame`]: a run up to
/// an item reads only the bytes it consumes.
pub proof fn lemma_decode_upto_frame(
    items: Seq<Item>,
    i: int,
    j: int,
    ps: Seq<(u32, u128)>,
    env: Seq<(u32, FieldVal)>,
    s1: Seq<u8>,
    s2: Seq<u8>,
    pos: int,
)
    requires
        0 <= i <= j <= items.len(),
        s1.len() == s2.len(),
        spec_decode_upto(items, i, j, ps, env, s1, pos) is Ok,
        ({
            let p = spec_decode_upto(items, i, j, ps, env, s1, pos)->Ok_0.1;
            forall|k: int| pos <= k < p ==> s1[k] == s2[k]
        }),
    ensures
        spec_decode_upto(items, i, j, ps, env, s2, pos) == spec_decode_upto(
            items,
            i,
            j,
            ps,
            env,
            s1,
            pos,
        ),
    decreases j - i,
{
    if i < j {
        let t1 = spec_decode_item(items[i], ps, env, s1, pos)->Ok_0;
        lemma_decode_item_monotone(items[i], ps, env, s1, pos);
        lemma_decode_upto_monotone(items, i + 1, j, ps, t1.0, s1, t1.1);
        lemma_decode_item_frame(items[i], ps, env, s1, s2, pos);
        lemma_decode_upto_frame(items, i + 1, j, ps, t1.0, s1, s2, t1.1);
    }
}

/// A run up to an item never moves backwards.
pub proof fn lemma_decode_upto_monotone(
    items: Seq<Item>,
    i: int,
    j: int,
    ps: Seq<(u32, u128)>,
    env: Seq<(u32, FieldVal)>,
    input: Seq<u8>,
    pos: int,
)
    requires
        0 <= i <= j <= items.len(),
        spec_decode_upto(items, i, j, ps, env, input, pos) is Ok,
    ensures
        pos <= spec_decode_upto(items, i, j, ps, env, input, pos)->Ok_0.1,
    decreases j - i,
{
    if i < j {
        let t = spec_decode_item(items[i], ps, env, input, pos)->Ok_0;
        lemma_decode_item_monotone(items[i], ps, env, input, pos);
        lemma_decode_upto_monotone(items, i + 1, j, ps, t.0, input, t.1);
    }
}

/// The induction behind the round trip: decoding the encoding of the
/// items from `i` onward extends the bindings by exactly the bound
/// names, each carrying the source structure's own value.
pub proof fn lemma_items_round_trip(
    items: Seq<Item>,
    i: int,
    ps: Seq<(u32, u128)>,
    env: Seq<(u32, FieldVal)>,
    v: Seq<(u32, FieldVal)>,
    input: Seq<u8>,
    pos: int,
    avail: Seq<u32>,
)
    requires
        0 <= i <= items.len(),
        0 <= pos,
        spec_items_wf(items, i),
        spec_scopes_ok(items, i, avail),
        items_presence_ok(items, i, ps, v),
        env_agrees(ps, env, v, avail),
        spec_encode_items(items, i, ps, v) is Ok,
        ({
            let bs = spec_encode_items(items, i, ps, v)->Ok_0;
            &&& pos + bs.len() <= input.len()
            &&& input.subrange(pos, pos + bs.len() as int) == bs
        }),
    ensures
        ({
            let bs = spec_encode_items(items, i, ps, v)->Ok_0;
            match spec_decode_items(items, i, ps, env, input, pos) {
                Ok(t) => {
                    &&& t.1 == pos + bs.len()
                    &&& forall|n: u32|
                        #[trigger] lookup(t.0, n) == if bound_set(items, i).contains(n) {
                            lookup(v, n)
                        } else {
                            lookup(env, n)
                        }
                    &&& forall|n: u32|
                        bound_set(items, i).contains(n) ==> lookup(v, n) is Some
                },
                Err(_) => false,
            }
        }),
    decreases items.len() - i,
{
    if i < items.len() {
        let it = items[i];
        let bs_i = spec_encode_item(it, ps, v)->Ok_0;
        let bs_r = spec_encode_items(items, i + 1, ps, v)->Ok_0;
        lemma_subrange_concat(input, pos, bs_i, bs_r);
        let pos1 = pos + bs_i.len() as int;
        let bnd = item_binding(it);
        match it {
            Item::Value(vi) => {
                lemma_value_round_trip(vi, input, pos);
            },
            Item::Field(f) => {
                lemma_field_round_trip(f.name, f.init, ps, env, v, input, pos, avail);
            },
            Item::If(e) => {
                lemma_if_round_trip(e, ps, env, v, input, pos, avail);
            },
        }
        let env1 = spec_decode_item(it, ps, env, input, pos)->Ok_0.0;
        assert(spec_decode_item(it, ps, env, input, pos) == Result::<
            (Seq<(u32, FieldVal)>, int),
            Error,
        >::Ok((env1, pos1)));
        assert(match bnd {
            Some(nb) => lookup(v, nb) is Some && env1 == env.push((nb, lookup(v, nb)->Some_0)),
            None => env1 == env,
        });
        let avail1 = avail_after(it, avail);
        assert(env_agrees(ps, env1, v, avail1)) by {
            match bnd {
                Some(nb) => {
                    let fv = lookup(v, nb)->Some_0;
                    assert forall|n: u32| avail1.contains(n) implies plookup(ps, n) is Some
                        || lookup(env1, n) == lookup(v, n) by {
                        lemma_push_contains(avail, nb, n);
                        lemma_lookup_push(env, nb, fv, n);
                    }
                },
                None => {},
            }
        }
        lemma_items_round_trip(items, i + 1, ps, env1, v, input, pos1, avail1);
        assert(spec_decode_items(items, i, ps, env, input, pos) == spec_decode_items(
            items,
            i + 1,
            ps,
            env1,
            input,
            pos1,
        ));
        let t = spec_decode_items(items, i + 1, ps, env1, input, pos1)->Ok_0;
        let bs = spec_encode_items(items, i, ps, v)->Ok_0;
        assert(bs == bs_i + bs_r);
        assert(t.1 == pos + bs.len());
        assert forall|n: u32|
            #[trigger] lookup(t.0, n) == if bound_set(items, i).contains(n) {
                lookup(v, n)
            } else {
                lookup(env, n)
            } by {
            match bnd {
                Some(nb) => {
                    lemma_lookup_push(env, nb, lookup(v, nb)->Some_0, n);
                    assert(bound_set(items, i) == bound_set(items, i + 1).insert(nb));
                },
                None => {},
            }
        }
        assert forall|n: u32| bound_set(items, i).contains(n) implies lookup(v, n) is Some by {
            match bnd {
                Some(nb) => {
                    assert(bound_set(items, i) == bound_set(items, i + 1).insert(nb));
                    if n != nb {
                        assert(bound_set(items, i + 1).contains(n));
                    }
                },
                None => {
                    assert(bound_set(items, i) == bound_set(items, i + 1));
                    assert(bound_set(items, i + 1).contains(n));
                },
            }
        }
    }
}

/// Round trip: a valid schema decodes its own encoding back to the very
/// structure it encoded, wherever the structure binds exactly the
/// schema's names and its optional fields agree with their presence
/// predicates.
pub proof fn lemma_round_trip(
    items: Seq<Item>,
    ps: Seq<(u32, u128)>,
    v: Seq<(u32, FieldVal)>,
    bytes: Seq<u8>,
)
    requires
        spec_items_wf(items, 0),
        spec_scopes_ok(items, 0, pnames(ps)),
        items_presence_ok(items, 0, ps, v),
        spec_encode_items(items, 0, ps, v) == Result::<Seq<u8>, Error>::Ok(bytes),
        forall|n: u32| lookup(v, n) is Some ==> bound_set(items, 0).contains(n),
    ensures
        ({
            match spec_decode_items(items, 0, ps, Seq::<(u32, FieldVal)>::empty(), bytes, 0) {
                Ok(t) => {
                    &&& t.1 == bytes.len()
                    &&& forall|n: u32| #[trigger] lookup(t.0, n) == lookup(v, n)
                },
                Err(_) => false,
            }
        }),
{
    let empty_env = Seq::<(u32, FieldVal)>::empty();
    assert(env_agrees(ps, empty_env, v, pnames(ps))) by {
        assert forall|n: u32| pnames(ps).contains(n) implies plookup(ps, n) is Some || lookup(
            empty_env,
            n,
        ) == lookup(v, n) by {
            lemma_pnames_plookup(ps, n);
        }
    }
    assert(bytes.subrange(0, bytes.len() as int) =~= bytes);
    lemma_items_round_trip(items, 0, ps, empty_env, v, bytes, 0, pnames(ps));
    let t = spec_decode_items(items, 0, ps, empty_env, bytes, 0)->Ok_0;
    assert forall|n: u32| #[trigger] lookup(t.0, n) == lookup(v, n) by {
        if !bound_set(items, 0).contains(n) {
            assert(lookup(t.0, n) == lookup(empty_env, n));
            assert(lookup(empty_env, n) is None);
            assert(!(lookup(v, n) is Some));
        }
    }
}

/// The round trip at the instance level: whatever a validated
/// encoder/decoder pair encodes, it decodes back to the same structure,
/// binding for binding, and consumes exactly the bytes written —
/// provided the structure binds exactly the schema's names and its
/// optional fields agree with their presence predicates.
pub proof fn lemma_deener_round_trip(d: Deener, v: Seq<(u32, FieldVal)>, bytes: Seq<u8>)
    requires
        d.wf(),
        items_presence_ok(d.items@, 0, d.params.pairs@, v),
        spec_encode_items(d.items@, 0, d.params.pairs@, v) == Result::<Seq<u8>, Error>::Ok(bytes),
        forall|n: u32| lookup(v, n) is Some ==> bound_set(d.items@, 0).contains(n),
    ensures
        ({
            match spec_decode_items(
                d.items@,
                0,
                d.params.pairs@,
                Seq::<(u32, FieldVal)>::empty(),
                bytes,
                0,
            ) {
                Ok(t) => {
                    &&& t.1 == bytes.len()
                    &&& forall|n: u32| #[trigger] lookup(t.0, n) == lookup(v, n)
                },
                Err(_) => false,
            }
        }),
{
    lemma_round_trip(d.items@, d.params.pairs@, v, bytes);
}

} // verus!
