//! Binding environments.
//!
//! A decode run accumulates bindings — name to value — in declaration
//! order; an encode run reads the same names out of a caller-built
//! environment.  Names are interned identifiers chosen by the schema
//! author.  Lookup takes the latest entry for a name, so appending a
//! binding overwrites an earlier one; validated schemas never bind a
//! name twice.

use vstd::prelude::*;

verus! {

/// One semantic value: a raw integer pattern, or a variant index into
/// an enum's discriminant table.
#[derive(Clone, Copy, Debug, PartialEq, Eq, Structural)]
pub enum Scalar {
    Int(u128),
    EnumVal(u64),
}

impl Scalar {
    /// The raw integer behind a scalar, for error payloads.
    pub open spec fn raw(self) -> u128 {
        match self {
            Scalar::Int(v) => v,
            Scalar::EnumVal(i) => i as u128,
        }
    }

    /// Executable form of [`Scalar::raw`].
    pub fn raw_exec(&self) -> (r: u128)
        ensures
            r == self.raw(),
    {
        match self {
            Scalar::Int(v) => *v,
            Scalar::EnumVal(i) => *i as u128,
        }
    }
}

/// The value bound to one name: a required scalar, or an optional one.
#[derive(Clone, Copy, Debug, PartialEq, Eq, Structural)]
pub enum FieldVal {
    Req(Scalar),
    Opt(Option<Scalar>),
}

/// The latest value for `n` among the pairs, if any.
pub open spec fn lookup(s: Seq<(u32, FieldVal)>, n: u32) -> Option<FieldVal>
    decreases s.len(),
{
    if s.len() == 0 {
        None
    } else if s.last().0 == n {
        Some(s.last().1)
    } else {
        lookup(s.drop_last(), n)
    }
}

/// The latest parameter value for `n`, if any.
pub open spec fn plookup(s: Seq<(u32, u128)>, n: u32) -> Option<u128>
    decreases s.len(),
{
    if s.len() == 0 {
        None
    } else if s.last().0 == n {
        Some(s.last().1)
    } else {
        plookup(s.drop_last(), n)
    }
}

/// Appending a pair changes lookup only at that name.
pub proof fn lemma_lookup_push(s: Seq<(u32, FieldVal)>, n: u32, v: FieldVal, m: u32)
    ensures
        lookup(s.push((n, v)), m) == if m == n {
            Some(v)
        } else {
            lookup(s, m)
        },
{
    let t = s.push((n, v));
    assert(t.last() == (n, v));
    assert(t.drop_last() =~= s);
}

/// An ordered set of bindings, the structure a schema encodes from and
/// decodes into.
#[derive(Debug)]
pub struct Env {
    pub pairs: Vec<(u32, FieldVal)>,
}

impl Env {
    /// The bindings as a finite map, ignoring order.
    pub open spec fn as_map(self) -> Map<u32, FieldVal> {
        Map::new(
            |n: u32| lookup(self.pairs@, n) is Some,
            |n: u32| lookup(self.pairs@, n)->Some_0,
        )
    }

    /// An empty environment.
    pub fn new() -> (r: Env)
        ensures
            r.pairs@ == Seq::<(u32, FieldVal)>::empty(),
    {
        Env { pairs: Vec::new() }
    }

    /// The latest value bound to `n`, if any.
    pub fn get(&self, n: u32) -> (r: Option<FieldVal>)
        ensures
            r == lookup(self.pairs@, n),
    {
        let mut i: usize = self.pairs.len();
        proof {
            assert(self.pairs@.subrange(0, self.pairs@.len() as int) =~= self.pairs@);
        }
        while i > 0
            invariant
                i <= self.pairs@.len(),
                lookup(self.pairs@, n) == lookup(self.pairs@.subrange(0, i as int), n),
            decreases i,
        {
            proof {
                let t = self.pairs@.subrange(0, i as int);
                assert(t.drop_last() =~= self.pairs@.subrange(0, (i - 1) as int));
            }
            i = i - 1;
            let pair = self.pairs[i];
            if pair.0 == n {
                return Some(pair.1);
            }
        }
        proof {
            assert(self.pairs@.subrange(0, 0) =~= Seq::<(u32, FieldVal)>::empty());
        }
        None
    }

    /// Appends a binding.
    pub fn bind(&mut self, n: u32, v: FieldVal)
        ensures
            final(self).pairs@ == old(self).pairs@.push((n, v)),
    {
        self.pairs.push((n, v));
    }
}

/// The external parameters of one encoder/decoder instance, bound once
/// at construction.
#[derive(Debug)]
pub struct Params {
    pub pairs: Vec<(u32, u128)>,
}

impl Params {
    /// An empty parameter set.
    pub fn new() -> (r: Params)
        ensures
            r.pairs@ == Seq::<(u32, u128)>::empty(),
    {
        Params { pairs: Vec::new() }
    }

    /// The latest value bound to `n`, if any.
    pub fn get(&self, n: u32) -> (r: Option<u128>)
        ensures
            r == plookup(self.pairs@, n),
    {
        let mut i: usize = self.pairs.len();
        proof {
            assert(self.pairs@.subrange(0, self.pairs@.len() as int) =~= self.pairs@);
        }
        while i > 0
            invariant
                i <= self.pairs@.len(),
                plookup(self.pairs@, n) == plookup(self.pairs@.subrange(0, i as int), n),
            decreases i,
        {
            proof {
                let t = self.pairs@.subrange(0, i as int);
                assert(t.drop_last() =~= self.pairs@.subrange(0, (i - 1) as int));
            }
            i = i - 1;
            let pair = self.pairs[i];
            if pair.0 == n {
                return Some(pair.1);
            }
        }
        proof {
            assert(self.pairs@.subrange(0, 0) =~= Seq::<(u32, u128)>::empty());
        }
        None
    }

    /// Appends a parameter.
    pub fn bind(&mut self, n: u32, v: u128)
        ensures
            final(self).pairs@ == old(self).pairs@.push((n, v)),
    {
        self.pairs.push((n, v));
    }
}

} // verus!
