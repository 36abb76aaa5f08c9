//! Enum conversions.
//!
//! A discriminant table maps a closed, ordered set of variants to
//! integer codes: variant `i` carries `discs[i]`.  Declared with a
//! minimum representation width and signedness, a table converts both
//! ways at any wire width the codes fit: variant to code always, code
//! to variant exactly when the code names some variant.

use vstd::prelude::*;
use crate::env::Scalar;
use crate::integers::{
    IntCodec, Endian, lemma_pow256_mono, lemma_pow256_pos, pow256,
};

verus! {

/// A discriminant table: the codes of a closed enum, one per variant,
/// with the declared minimum width in bytes and signedness.
#[derive(Debug)]
pub struct EnumTable {
    pub discs: Vec<u128>,
    pub width: u8,
    pub signed: bool,
}

/// The first index at or after `i` holding `v`, if any.
pub open spec fn spec_find_from(s: Seq<u128>, v: u128, i: int) -> Option<int>
    decreases s.len() - i,
{
    if i < 0 || i >= s.len() {
        None
    } else if s[i] == v {
        Some(i)
    } else {
        spec_find_from(s, v, i + 1)
    }
}

impl EnumTable {
    /// The declared minimum-width codec shape the codes must fit.
    pub open spec fn min_codec(self) -> IntCodec {
        IntCodec { width: self.width, signed: self.signed, endian: Endian::Little }
    }

    /// Codes are pairwise distinct and each fits the declared width.
    pub open spec fn wf(self) -> bool {
        &&& self.min_codec().wf()
        &&& forall|i: int, j: int|
            0 <= i < j < self.discs@.len() ==> self.discs@[i] != self.discs@[j]
        &&& forall|i: int|
            0 <= i < self.discs@.len() ==> self.min_codec().in_range(#[trigger] self.discs@[i])
    }

    /// Every code is representable at the wire codec's width.
    pub open spec fn supports(self, c: IntCodec) -> bool {
        forall|i: int| 0 <= i < self.discs@.len() ==> c.in_range(#[trigger] self.discs@[i])
    }

    /// Re-validates a table: the declared width is supported, the
    /// codes are pairwise distinct, and each fits that width.
    pub fn check_wf(&self) -> (r: bool)
        ensures
            r == self.wf(),
    {
        let c = IntCodec { width: self.width, signed: self.signed, endian: Endian::Little };
        let codec_ok = self.width == 1 || self.width == 2 || self.width == 3 || self.width == 4
            || self.width == 6 || self.width == 8 || self.width == 16;
        if !codec_ok {
            return false;
        }
        let mut i: usize = 0;
        while i < self.discs.len()
            invariant
                i <= self.discs@.len(),
                c == self.min_codec(),
                c.wf(),
                forall|a: int, b: int| 0 <= a < b < i ==> self.discs@[a] != self.discs@[b],
                forall|a: int| 0 <= a < i ==> c.in_range(#[trigger] self.discs@[a]),
            decreases self.discs@.len() - i,
        {
            if !in_range_exec(&c, self.discs[i]) {
                proof {
                    assert(!self.min_codec().in_range(self.discs@[i as int]));
                }
                return false;
            }
            let mut j: usize = 0;
            while j < i
                invariant
                    j <= i,
                    i < self.discs@.len(),
                    forall|a: int| 0 <= a < j ==> self.discs@[a] != self.discs@[i as int],
                decreases i - j,
            {
                if self.discs[j] == self.discs[i] {
                    proof {
                        assert(self.discs@[j as int] == self.discs@[i as int]);
                        assert(0 <= j < i < self.discs@.len());
                    }
                    return false;
                }
                j = j + 1;
            }
            i = i + 1;
        }
        true
    }

    /// Builds a table from explicit codes, validating width and
    /// distinctness; rejects exactly the ill-formed declarations.
    pub fn new(discs: Vec<u128>, width: u8, signed: bool) -> (r: Option<EnumTable>)
        ensures
            match r {
                Some(t) => t == (EnumTable { discs, width, signed }) && t.wf(),
                None => !(EnumTable { discs, width, signed }).wf(),
            },
    {
        let t = EnumTable { discs, width, signed };
        if t.check_wf() {
            Some(t)
        } else {
            None
        }
    }

    /// Whether every code fits the wire codec `c`.
    pub fn check_supports(&self, c: &IntCodec) -> (r: bool)
        requires
            c.wf(),
        ensures
            r == self.supports(*c),
    {
        let mut i: usize = 0;
        while i < self.discs.len()
            invariant
                i <= self.discs@.len(),
                c.wf(),
                forall|a: int| 0 <= a < i ==> c.in_range(#[trigger] self.discs@[a]),
            decreases self.discs@.len() - i,
        {
            if !in_range_exec(c, self.discs[i]) {
                return false;
            }
            i = i + 1;
        }
        true
    }

    /// Builds a table whose codes are the positions themselves:
    /// variant `i` carries code `i`.
    pub fn positional(n: u64, width: u8, signed: bool) -> (r: Option<EnumTable>)
        ensures
            match r {
                Some(t) => t.wf() && t.width == width && t.signed == signed && t.discs@.len() == n
                    && forall|i: int| 0 <= i < n ==> t.discs@[i] == i as u128,
                None => true,
            },
    {
        let mut discs: Vec<u128> = Vec::new();
        let mut i: u64 = 0;
        while i < n
            invariant
                i <= n,
                discs@.len() == i,
                forall|j: int| 0 <= j < i ==> discs@[j] == j as u128,
            decreases n - i,
        {
            discs.push(i as u128);
            i = i + 1;
        }
        EnumTable::new(discs, width, signed)
    }

    /// The code of variant `idx`: defined for every declared variant.
    pub fn to_int(&self, idx: u64) -> (r: Option<u128>)
        ensures
            match r {
                Some(v) => idx < self.discs@.len() && v == self.discs@[idx as int],
                None => idx >= self.discs@.len(),
            },
    {
        if idx < self.discs.len() as u64 {
            Some(self.discs[idx as usize])
        } else {
            None
        }
    }

    /// The variant a code names: the first index holding the code, or
    /// nothing when no variant carries it.
    pub fn from_int(&self, v: u128) -> (r: Option<u64>)
        ensures
            match r {
                Some(i) => spec_find_from(self.discs@, v, 0) == Some(i as int),
                None => spec_find_from(self.discs@, v, 0) is None,
            },
    {
        let mut i: usize = 0;
        while i < self.discs.len()
            invariant
                i <= self.discs@.len(),
                spec_find_from(self.discs@, v, 0) == spec_find_from(self.discs@, v, i as int),
            decreases self.discs@.len() - i,
        {
            if self.discs[i] == v {
                return Some(i as u64);
            }
            i = i + 1;
        }
        None
    }
}

/// A found index holds the code, indices before it do not.
pub proof fn lemma_find_from_found(s: Seq<u128>, v: u128, i: int, k: int)
    requires
        0 <= i,
        spec_find_from(s, v, i) == Some(k),
    ensures
        i <= k < s.len(),
        s[k] == v,
        forall|j: int| i <= j < k ==> s[j] != v,
    decreases s.len() - i,
{
    if i < s.len() && s[i] != v {
        lemma_find_from_found(s, v, i + 1, k);
    }
}

/// When no index at or after `i` holds the code, the search fails, and
/// conversely.
pub proof fn lemma_find_from_none(s: Seq<u128>, v: u128, i: int)
    requires
        0 <= i,
        spec_find_from(s, v, i) is None,
    ensures
        forall|j: int| i <= j < s.len() ==> s[j] != v,
    decreases s.len() - i,
{
    if i < s.len() {
        lemma_find_from_none(s, v, i + 1);
    }
}

/// Searching for the code of variant `k` in a distinct table finds `k`.
pub proof fn lemma_find_own_disc(t: EnumTable, k: int, i: int)
    requires
        t.wf(),
        0 <= i <= k < t.discs@.len(),
    ensures
        spec_find_from(t.discs@, t.discs@[k], i) == Some(k),
    decreases k - i,
{
    if i < k {
        assert(t.discs@[i] != t.discs@[k]);
        lemma_find_own_disc(t, k, i + 1);
    }
}

/// Integer-to-variant conversion succeeds exactly on the code set:
/// the coverage half of the enum conversion contract.
pub proof fn lemma_enum_coverage(t: EnumTable, v: u128)
    requires
        t.wf(),
    ensures
        (spec_find_from(t.discs@, v, 0) is Some) <==> exists|j: int|
            0 <= j < t.discs@.len() && t.discs@[j] == v,
{
    match spec_find_from(t.discs@, v, 0) {
        Some(k) => {
            lemma_find_from_found(t.discs@, v, 0, k);
        },
        None => {
            lemma_find_from_none(t.discs@, v, 0);
        },
    }
}

/// A table fits every wider wire codec: the same signedness at the
/// declared width or beyond, an unsigned table also at any strictly
/// wider signed codec.
pub proof fn lemma_wider_supports(t: EnumTable, c: IntCodec)
    requires
        t.wf(),
        c.wf(),
        if t.signed {
            c.signed && c.width >= t.width
        } else {
            (!c.signed && c.width >= t.width) || (c.signed && c.width > t.width)
        },
    ensures
        t.supports(c),
{
    let wt = t.width as nat;
    let wc = c.width as nat;
    lemma_pow256_mono(wt, wc);
    assert forall|i: int| 0 <= i < t.discs@.len() implies c.in_range(#[trigger] t.discs@[i]) by {
        let d = t.discs@[i] as nat;
        if t.signed {
            assert(pow256(wt) / 2 <= pow256(wc) / 2);
        } else {
            if c.signed {
                lemma_pow256_mono(wt, (wc - 1) as nat);
                lemma_pow256_pos((wc - 1) as nat);
                assert(pow256(wc) == 256 * pow256((wc - 1) as nat));
                assert(pow256(wc) / 2 == 128 * pow256((wc - 1) as nat));
                assert(d < pow256(wt) <= pow256(wc) / 2);
            }
        }
    }
}

/// Executable form of [`IntCodec::in_range`].
pub fn in_range_exec(c: &IntCodec, v: u128) -> (r: bool)
    requires
        c.wf(),
    ensures
        r == c.in_range(v),
{
    if c.width == 16 {
        proof {
            crate::integers::lemma_pow256_16();
        }
        true
    } else {
        let p = pow256_small(c.width);
        if c.signed {
            let half = p / 2;
            proof {
                crate::integers::lemma_pow256_16();
            }
            v < half || v >= u128::MAX - (half - 1)
        } else {
            v < p
        }
    }
}

/// Executable 256^w for widths below 16 bytes.
fn pow256_small(w: u8) -> (r: u128)
    requires
        w < 16,
    ensures
        r as nat == pow256(w as nat),
        r >= 2 || w == 0,
        r >= 1,
{
    let mut r: u128 = 1;
    let mut i: u8 = 0;
    while i < w
        invariant
            i <= w,
            w < 16,
            r as nat == pow256(i as nat),
        decreases w - i,
    {
        proof {
            lemma_pow256_mono((i + 1) as nat, 15);
            crate::integers::lemma_pow256_16();
            assert(256 * pow256(15) == pow256(16));
            lemma_pow256_pos(15);
        }
        r = r * 256;
        i = i + 1;
    }
    proof {
        lemma_pow256_pos(w as nat);
        if w > 0 {
            lemma_pow256_mono(1, w as nat);
        }
    }
    r
}

/// The fallible two-way conversion at a field position: the identity
/// on raw integers, or an enum table between codes and variants.
#[derive(Debug)]
pub enum Conv {
    Direct,
    Table(EnumTable),
}

impl Conv {
    /// The conversion fits the wire codec: a table is well formed and
    /// every code is representable at the codec's width.
    pub open spec fn wf(self, c: IntCodec) -> bool {
        match self {
            Conv::Direct => true,
            Conv::Table(t) => t.wf() && t.supports(c),
        }
    }

    /// Semantic scalar to wire pattern.  Fails on a scalar of the wrong
    /// kind, a variant index outside the table, or a raw integer not
    /// representable at the codec's width.
    pub open spec fn spec_to_wire(self, c: IntCodec, s: Scalar) -> Option<u128> {
        match (self, s) {
            (Conv::Direct, Scalar::Int(v)) => if c.in_range(v) {
                Some(v)
            } else {
                None
            },
            (Conv::Table(t), Scalar::EnumVal(i)) => if (i as int) < t.discs@.len() {
                Some(t.discs@[i as int])
            } else {
                None
            },
            _ => None,
        }
    }

    /// Wire pattern to semantic scalar.  The identity always succeeds;
    /// a table succeeds exactly when the pattern is some variant's code.
    pub open spec fn spec_from_wire(self, v: u128) -> Option<Scalar> {
        match self {
            Conv::Direct => Some(Scalar::Int(v)),
            Conv::Table(t) => match spec_find_from(t.discs@, v, 0) {
                Some(i) => Some(Scalar::EnumVal(i as u64)),
                None => None,
            },
        }
    }

    /// Executable form of [`Conv::spec_to_wire`].
    pub fn to_wire(&self, c: &IntCodec, s: Scalar) -> (r: Option<u128>)
        requires
            c.wf(),
        ensures
            r == self.spec_to_wire(*c, s),
    {
        match (self, s) {
            (Conv::Direct, Scalar::Int(v)) => if in_range_exec(c, v) {
                Some(v)
            } else {
                None
            },
            (Conv::Table(t), Scalar::EnumVal(i)) => t.to_int(i),
            _ => None,
        }
    }

    /// Executable form of [`Conv::spec_from_wire`].
    pub fn from_wire(&self, v: u128) -> (r: Option<Scalar>)
        ensures
            r == self.spec_from_wire(v),
    {
        match self {
            Conv::Direct => Some(Scalar::Int(v)),
            Conv::Table(t) => match t.from_int(v) {
                Some(i) => Some(Scalar::EnumVal(i)),
                None => None,
            },
        }
    }

    /// Executable form of [`Conv::wf`].
    pub fn check_wf(&self, c: &IntCodec) -> (r: bool)
        requires
            c.wf(),
        ensures
            r == self.wf(*c),
    {
        match self {
            Conv::Direct => true,
            Conv::Table(t) => t.check_wf() && t.check_supports(c),
        }
    }
}

/// A successful semantic-to-wire conversion is inverted exactly by the
/// wire-to-semantic direction, and its pattern fits the codec.
pub proof fn lemma_conv_round_trip(conv: Conv, c: IntCodec, s: Scalar, w: u128)
    requires
        c.wf(),
        conv.wf(c),
        conv.spec_to_wire(c, s) == Some(w),
    ensures
        c.in_range(w),
        conv.spec_from_wire(w) == Some(s),
{
    match (conv, s) {
        (Conv::Direct, Scalar::Int(v)) => {},
        (Conv::Table(t), Scalar::EnumVal(i)) => {
            assert(t.supports(c));
            assert(c.in_range(t.discs@[i as int]));
            lemma_find_own_disc(t, i as int, 0);
        },
        _ => {
            assert(false);
        },
    }
}

} // verus!
