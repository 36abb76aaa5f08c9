//! Encoder/decoder assembly.
//!
//! A [`Deener`] binds external parameters and an ordered item list into
//! one encoder/decoder pair over one structure shape.  Construction
//! validates the schema — usable codecs, a name bound at most once,
//! guards reading only parameters and names bound earlier — and rejects
//! ill-formed schemas before first use.  Encode walks the items against
//! the caller's structure; decode walks them against the bytes,
//! accumulating bindings.

use vstd::prelude::*;
use crate::Error;
use crate::env::{Env, FieldVal, Params};
use crate::guards::{check_names, spec_names_in};
use crate::items::{
    Field, FieldCodec, Item, ValueItem, decode_item, encode_item, spec_decode_item,
    spec_encode_item, spec_field_wf, spec_item_wf, spec_value_wf,
};
use crate::items::condition::{Arm, Block, ExprIf, spec_block_wf, spec_if_wf};

verus! {

/// The bytes encoding items `i` onward writes, or the aborting error.
pub open spec fn spec_encode_items(
    items: Seq<Item>,
    i: int,
    ps: Seq<(u32, u128)>,
    v: Seq<(u32, FieldVal)>,
) -> Result<Seq<u8>, Error>
    decreases items.len() - i,
{
    if i < 0 || i >= items.len() {
        Ok(Seq::empty())
    } else {
        match spec_encode_item(items[i], ps, v) {
            Err(e) => Err(e),
            Ok(bs) => match spec_encode_items(items, i + 1, ps, v) {
                Err(e) => Err(e),
                Ok(rest) => Ok(bs + rest),
            },
        }
    }
}

/// The bindings and final position decoding items `i` onward yields,
/// or the aborting error.
pub open spec fn spec_decode_items(
    items: Seq<Item>,
    i: int,
    ps: Seq<(u32, u128)>,
    env: Seq<(u32, FieldVal)>,
    input: Seq<u8>,
    pos: int,
) -> Result<(Seq<(u32, FieldVal)>, int), Error>
    decreases items.len() - i,
{
    if i < 0 || i >= items.len() {
        Ok((env, pos))
    } else {
        match spec_decode_item(items[i], ps, env, input, pos) {
            Err(e) => Err(e),
            Ok(t) => spec_decode_items(items, i + 1, ps, t.0, input, t.1),
        }
    }
}

/// Every item from `i` onward has a usable configuration.
pub open spec fn spec_items_wf(items: Seq<Item>, i: int) -> bool
    decreases items.len() - i,
{
    if i < 0 || i >= items.len() {
        true
    } else {
        spec_item_wf(items[i]) && spec_items_wf(items, i + 1)
    }
}

/// The name an item binds, if it binds one.
pub open spec fn item_binding(it: Item) -> Option<u32> {
    match it {
        Item::Value(_) => None,
        Item::Field(f) => Some(f.name),
        Item::If(e) => e.name,
    }
}

/// The names available after an item: the previous ones plus its own
/// binding.
pub open spec fn avail_after(it: Item, avail: Seq<u32>) -> Seq<u32> {
    match item_binding(it) {
        Some(n) => avail.push(n),
        None => avail,
    }
}

/// The names bound by items `i` onward, in order.
pub open spec fn bound_names(items: Seq<Item>, i: int) -> Seq<u32>
    decreases items.len() - i,
{
    if i < 0 || i >= items.len() {
        Seq::empty()
    } else {
        (match item_binding(items[i]) {
            Some(n) => seq![n],
            None => Seq::empty(),
        }) + bound_names(items, i + 1)
    }
}

/// No name occurs twice.
pub open spec fn distinct_names(s: Seq<u32>) -> bool {
    forall|i: int, j: int| 0 <= i < j < s.len() ==> s[i] != s[j]
}

/// A field position's guard reads only available names.
pub open spec fn field_scope_ok(fc: FieldCodec, avail: Seq<u32>) -> bool {
    match fc {
        FieldCodec::Plain { .. } => true,
        FieldCodec::Opt(oi) => spec_names_in(oi.pred, avail),
    }
}

/// A block's guards read only available names.
pub open spec fn block_scope_ok(b: Block, avail: Seq<u32>) -> bool {
    match b.tail {
        Some(fc) => field_scope_ok(fc, avail),
        None => true,
    }
}

/// A conditional's guards and presence predicates read only available
/// names.
pub open spec fn if_scope_ok(e: ExprIf, avail: Seq<u32>) -> bool {
    &&& forall|j: int|
        0 <= j < e.arms@.len() ==> spec_names_in((#[trigger] e.arms@[j]).cond, avail)
            && block_scope_ok(e.arms@[j].body, avail)
    &&& match e.els {
        Some(b) => block_scope_ok(b, avail),
        None => true,
    }
}

/// An item's guards — branch guards and presence predicates — read only
/// parameters and names bound strictly earlier.
pub open spec fn spec_item_scope_ok(it: Item, avail: Seq<u32>) -> bool {
    match it {
        Item::Value(_) => true,
        Item::Field(f) => field_scope_ok(f.init, avail),
        Item::If(e) => if_scope_ok(e, avail),
    }
}

/// Every guard from item `i` onward reads only names available at its
/// own position.
pub open spec fn spec_scopes_ok(items: Seq<Item>, i: int, avail: Seq<u32>) -> bool
    decreases items.len() - i,
{
    if i < 0 || i >= items.len() {
        true
    } else {
        spec_item_scope_ok(items[i], avail) && spec_scopes_ok(
            items,
            i + 1,
            avail_after(items[i], avail),
        )
    }
}

/// The parameter names, in order.
pub open spec fn pnames(ps: Seq<(u32, u128)>) -> Seq<u32> {
    ps.map_values(|p: (u32, u128)| p.0)
}

/// One encoder/decoder instance: external parameters bound once, and a
/// validated ordered item list.
#[derive(Debug)]
pub struct Deener {
    pub params: Params,
    pub items: Vec<Item>,
}

impl Deener {
    /// The schema is valid: usable codecs throughout, parameter and
    /// binding names pairwise distinct, and every guard reading only
    /// parameters and bindings established earlier.
    pub open spec fn wf(self) -> bool {
        &&& spec_items_wf(self.items@, 0)
        &&& spec_scopes_ok(self.items@, 0, pnames(self.params.pairs@))
        &&& distinct_names(pnames(self.params.pairs@) + bound_names(self.items@, 0))
    }

    /// Validates and builds an instance; rejects exactly the ill-formed
    /// schemas.
    pub fn new(params: Params, items: Vec<Item>) -> (r: Option<Deener>)
        ensures
            match r {
                Some(d) => d == (Deener { params, items }) && d.wf(),
                None => !(Deener { params, items }).wf(),
            },
    {
        let d = Deener { params, items };
        if d.check_wf() {
            Some(d)
        } else {
            None
        }
    }

    /// Executable form of [`Deener::wf`].
    pub fn check_wf(&self) -> (r: bool)
        ensures
            r == self.wf(),
    {
        let mut avail: Vec<u32> = Vec::new();
        let mut i: usize = 0;
        while i < self.params.pairs.len()
            invariant
                i <= self.params.pairs@.len(),
                avail@ == pnames(self.params.pairs@.subrange(0, i as int)),
            decreases self.params.pairs@.len() - i,
        {
            proof {
                assert(self.params.pairs@.subrange(0, (i + 1) as int).map_values(
                    |p: (u32, u128)| p.0,
                ) =~= self.params.pairs@.subrange(0, i as int).map_values(|p: (u32, u128)| p.0)
                    .push(self.params.pairs@[i as int].0));
            }
            let pair = self.params.pairs[i];
            avail.push(pair.0);
            i = i + 1;
        }
        proof {
            assert(self.params.pairs@.subrange(0, self.params.pairs@.len() as int)
                =~= self.params.pairs@);
        }
        let wf_ok = check_items_wf(&self.items, 0);
        let scope_ok = check_scopes(&self.items, 0, &mut avail);
        let names = collect_names(&self.params, &self.items);
        let dist_ok = check_distinct(&names);
        wf_ok && scope_ok && dist_ok
    }

    /// Encodes `value` against the bound parameters, appending to
    /// `out`.  On an error, bytes already appended remain.
    pub fn encode(&self, value: &Env, out: &mut Vec<u8>) -> (r: Result<(), Error>)
        requires
            self.wf(),
        ensures
            match (r, spec_encode_items(self.items@, 0, self.params.pairs@, value.pairs@)) {
                (Ok(u), Ok(bs)) => final(out)@ == old(out)@ + bs,
                (Err(e), Err(f)) => e == f,
                _ => false,
            },
    {
        encode_from(&self.items, 0, &self.params, value, out)
    }

    /// Decodes a structure from the front of `input`, halting at the
    /// first error and yielding no partial structure.
    pub fn decode(&self, input: &Vec<u8>) -> (r: Result<Env, Error>)
        requires
            self.wf(),
        ensures
            match (
                r,
                spec_decode_items(
                    self.items@,
                    0,
                    self.params.pairs@,
                    Seq::<(u32, FieldVal)>::empty(),
                    input@,
                    0,
                ),
            ) {
                (Ok(env), Ok(q)) => env.pairs@ == q.0,
                (Err(e), Err(f)) => e == f,
                _ => false,
            },
    {
        let mut env = Env::new();
        match decode_from(&self.items, 0, &self.params, &mut env, input, 0) {
            Ok(_) => Ok(env),
            Err(e) => Err(e),
        }
    }
}

/// Encodes the items from `i` onward.
fn encode_from(items: &Vec<Item>, i: usize, ps: &Params, v: &Env, out: &mut Vec<u8>) -> (r: Result<
    (),
    Error,
>)
    requires
        spec_items_wf(items@, i as int),
    ensures
        match (r, spec_encode_items(items@, i as int, ps.pairs@, v.pairs@)) {
            (Ok(u), Ok(bs)) => final(out)@ == old(out)@ + bs,
            (Err(e), Err(f)) => e == f,
            _ => false,
        },
    decreases items@.len() - i,
{
    if i < items.len() {
        match encode_item(&items[i], ps, v, out) {
            Ok(u) => encode_from(items, i + 1, ps, v, out),
            Err(e) => Err(e),
        }
    } else {
        Ok(())
    }
}

/// Decodes the items from `i` onward, extending the bindings.
fn decode_from(
    items: &Vec<Item>,
    i: usize,
    ps: &Params,
    env: &mut Env,
    input: &Vec<u8>,
    pos: usize,
) -> (r: Result<usize, Error>)
    requires
        spec_items_wf(items@, i as int),
    ensures
        match (
            r,
            spec_decode_items(items@, i as int, ps.pairs@, old(env).pairs@, input@, pos as int),
        ) {
            (Ok(p), Ok(q)) => final(env).pairs@ == q.0 && p as int == q.1,
            (Err(e), Err(f)) => e == f,
            _ => false,
        },
    decreases items@.len() - i,
{
    if i < items.len() {
        match decode_item(&items[i], ps, env, input, pos) {
            Ok(p) => decode_from(items, i + 1, ps, env, input, p),
            Err(e) => Err(e),
        }
    } else {
        Ok(pos)
    }
}

/// Checks one value item's configuration.
fn check_value_wf(vi: &ValueItem) -> (r: bool)
    ensures
        r == spec_value_wf(*vi),
{
    match vi {
        ValueItem::Tag(t) => t.deener.check_wf() && crate::enums::in_range_exec(
            &t.deener,
            t.value,
        ),
        ValueItem::Any(a) => a.deener.check_wf(),
    }
}

/// Checks one field codec's configuration.
fn check_field_wf(fc: &FieldCodec) -> (r: bool)
    ensures
        r == spec_field_wf(*fc),
{
    match fc {
        FieldCodec::Plain { deener, conv } => deener.check_wf() && conv.check_wf(deener),
        FieldCodec::Opt(oi) => oi.encoder.check_wf() && oi.conv.check_wf(&oi.encoder),
    }
}

/// Checks one block's configuration and shape.
fn check_block_wf(b: &Block, named: bool) -> (r: bool)
    ensures
        r == spec_block_wf(*b, named),
{
    let mut i: usize = 0;
    while i < b.values.len()
        invariant
            i <= b.values@.len(),
            forall|j: int| 0 <= j < i ==> spec_value_wf(#[trigger] b.values@[j]),
        decreases b.values@.len() - i,
    {
        if !check_value_wf(&b.values[i]) {
            return false;
        }
        i = i + 1;
    }
    match &b.tail {
        Some(fc) => named && check_field_wf(fc),
        None => !named,
    }
}

/// Checks one conditional's configuration.
fn check_if_wf(e: &ExprIf) -> (r: bool)
    ensures
        r == spec_if_wf(*e),
{
    let named = e.name.is_some();
    let mut i: usize = 0;
    while i < e.arms.len()
        invariant
            named == e.name is Some,
            i <= e.arms@.len(),
            forall|j: int| 0 <= j < i ==> spec_block_wf((#[trigger] e.arms@[j]).body, e.name is Some),
        decreases e.arms@.len() - i,
    {
        if !check_block_wf(&e.arms[i].body, named) {
            return false;
        }
        i = i + 1;
    }
    match &e.els {
        Some(b) => check_block_wf(b, named),
        None => !named,
    }
}

/// Checks one item's configuration.
fn check_item_wf(it: &Item) -> (r: bool)
    ensures
        r == spec_item_wf(*it),
{
    match it {
        Item::Value(vi) => check_value_wf(vi),
        Item::Field(f) => check_field_wf(&f.init),
        Item::If(e) => check_if_wf(e),
    }
}

/// Checks the configuration of the items from `i` onward.
fn check_items_wf(items: &Vec<Item>, i: usize) -> (r: bool)
    ensures
        r == spec_items_wf(items@, i as int),
    decreases items@.len() - i,
{
    if i < items.len() {
        check_item_wf(&items[i]) && check_items_wf(items, i + 1)
    } else {
        true
    }
}

/// Checks one field position's guard scope.
fn check_field_scope(fc: &FieldCodec, avail: &Vec<u32>) -> (r: bool)
    ensures
        r == field_scope_ok(*fc, avail@),
{
    match fc {
        FieldCodec::Plain { .. } => true,
        FieldCodec::Opt(oi) => check_names(&oi.pred, avail),
    }
}

/// Checks one block's guard scopes.
fn check_block_scope(b: &Block, avail: &Vec<u32>) -> (r: bool)
    ensures
        r == block_scope_ok(*b, avail@),
{
    match &b.tail {
        Some(fc) => check_field_scope(fc, avail),
        None => true,
    }
}

/// Checks one conditional's guard scopes.
fn check_if_scope(e: &ExprIf, avail: &Vec<u32>) -> (r: bool)
    ensures
        r == if_scope_ok(*e, avail@),
{
    let mut i: usize = 0;
    while i < e.arms.len()
        invariant
            i <= e.arms@.len(),
            forall|j: int|
                0 <= j < i ==> spec_names_in((#[trigger] e.arms@[j]).cond, avail@)
                    && block_scope_ok(e.arms@[j].body, avail@),
        decreases e.arms@.len() - i,
    {
        if !check_names(&e.arms[i].cond, avail) {
            proof {
                assert(!(spec_names_in((e.arms@[i as int]).cond, avail@) && block_scope_ok(
                    e.arms@[i as int].body,
                    avail@,
                )));
            }
            return false;
        }
        if !check_block_scope(&e.arms[i].body, avail) {
            proof {
                assert(!(spec_names_in((e.arms@[i as int]).cond, avail@) && block_scope_ok(
                    e.arms@[i as int].body,
                    avail@,
                )));
            }
            return false;
        }
        i = i + 1;
    }
    match &e.els {
        Some(b) => check_block_scope(b, avail),
        None => true,
    }
}

/// Checks one item's guard scopes.
fn check_item_scope(it: &Item, avail: &Vec<u32>) -> (r: bool)
    ensures
        r == spec_item_scope_ok(*it, avail@),
{
    match it {
        Item::Value(_) => true,
        Item::Field(f) => check_field_scope(&f.init, avail),
        Item::If(e) => check_if_scope(e, avail),
    }
}

/// Checks the guard scopes of the items from `i` onward, growing the
/// available names with each binding passed.
fn check_scopes(items: &Vec<Item>, i: usize, avail: &mut Vec<u32>) -> (r: bool)
    ensures
        r == spec_scopes_ok(items@, i as int, old(avail)@),
    decreases items@.len() - i,
{
    if i < items.len() {
        if !check_item_scope(&items[i], avail) {
            return false;
        }
        match &items[i] {
            Item::Value(_) => {},
            Item::Field(f) => avail.push(f.name),
            Item::If(e) => match e.name {
                Some(n) => avail.push(n),
                None => {},
            },
        }
        proof {
            assert(avail@ == avail_after(items@[i as int], old(avail)@));
        }
        check_scopes(items, i + 1, avail)
    } else {
        true
    }
}

/// Collects the parameter names and every bound name, in order.
fn collect_names(params: &Params, items: &Vec<Item>) -> (r: Vec<u32>)
    ensures
        r@ == pnames(params.pairs@) + bound_names(items@, 0),
{
    let mut names: Vec<u32> = Vec::new();
    let mut i: usize = 0;
    while i < params.pairs.len()
        invariant
            i <= params.pairs@.len(),
            names@ == pnames(params.pairs@.subrange(0, i as int)),
        decreases params.pairs@.len() - i,
    {
        proof {
            assert(params.pairs@.subrange(0, (i + 1) as int).map_values(|p: (u32, u128)| p.0)
                =~= params.pairs@.subrange(0, i as int).map_values(|p: (u32, u128)| p.0).push(
                params.pairs@[i as int].0));
        }
        let pair = params.pairs[i];
        names.push(pair.0);
        i = i + 1;
    }
    proof {
        assert(params.pairs@.subrange(0, params.pairs@.len() as int) =~= params.pairs@);
    }
    proof {
        assert(names@ + bound_names(items@, 0) =~= pnames(params.pairs@) + bound_names(items@, 0));
    }
    let mut j: usize = 0;
    while j < items.len()
        invariant
            j <= items@.len(),
            names@ + bound_names(items@, j as int) == pnames(params.pairs@) + bound_names(
                items@,
                0,
            ),
        decreases items@.len() - j,
    {
        let ghost before = names@;
        match &items[j] {
            Item::Value(_) => {},
            Item::Field(f) => names.push(f.name),
            Item::If(e) => match e.name {
                Some(n) => names.push(n),
                None => {},
            },
        }
        proof {
            assert(names@ + bound_names(items@, (j + 1) as int) =~= before + bound_names(
                items@,
                j as int,
            ));
        }
        j = j + 1;
    }
    proof {
        assert(names@ + bound_names(items@, items@.len() as int) =~= names@);
    }
    names
}

/// Whether the collected names are pairwise distinct.
fn check_distinct(names: &Vec<u32>) -> (r: bool)
    ensures
        r == distinct_names(names@),
{
    let mut i: usize = 0;
    while i < names.len()
        invariant
            i <= names@.len(),
            forall|a: int, b: int| 0 <= a < b < i ==> names@[a] != names@[b],
        decreases names@.len() - i,
    {
        let mut j: usize = 0;
        while j < i
            invariant
                j <= i,
                i < names@.len(),
                forall|a: int| 0 <= a < j ==> names@[a] != names@[i as int],
            decreases i - j,
        {
            if names[j] == names[i] {
                proof {
                    assert(names@[j as int] == names@[i as int]);
                    assert(0 <= j < i < names@.len());
                }
                return false;
            }
            j = j + 1;
        }
        i = i + 1;
    }
    true
}

} // verus!
