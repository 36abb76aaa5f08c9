//! A binary wire-format codec library.
//!
//! A schema is an ordered list of items — constant tags, skipped
//! positions, named fields, and conditional groups — that is compiled
//! once into a pair of mirrored operations: encode a structure to
//! bytes and decode bytes back into that structure.

use vstd::prelude::*;

pub mod env;
pub mod enums;
pub mod guards;
pub mod integers;
pub mod items;
pub mod laws;
pub mod optional;
pub mod schema;

verus! {

/// An error produced while encoding or decoding.
#[derive(Clone, Copy, Debug, PartialEq, Eq, Structural)]
pub enum Error {
    /// The byte source ran out before a required read completed.
    Truncated,
    /// A tag position decoded a value unequal to its expected constant.
    TagMismatch { expected: u128, found: u128 },
    /// A wire-to-semantic or semantic-to-wire conversion failed at the
    /// named binding; carries the offending raw value.
    Conversion { name: u32, value: u128 },
    /// The structure handed to encode lacks the named binding, or holds
    /// it with the wrong shape.
    MissingField { name: u32 },
}

/// Builds the error used for data that cannot be converted at a binding.
pub fn invalid_data_error(name: u32, value: u128) -> (r: Error)
    ensures
        r == (Error::Conversion { name, value }),
{
    Error::Conversion { name, value }
}

/// A typed, stateless, fixed-width codec: the base abstraction every
/// combinator builds on.  Encoding a representable value writes exactly
/// `wlen` bytes; decoding reads exactly `wlen` bytes, failing only on
/// truncation; and every implementation proves that decode inverts
/// encode.
pub trait Deen {
    type Item;

    /// The codec's configuration is usable.
    spec fn valid(&self) -> bool;

    /// The value is representable at this codec's width.
    spec fn ok(&self, v: Self::Item) -> bool;

    /// The number of bytes every encode writes and every decode reads.
    spec fn wlen(&self) -> nat;

    /// The bytes written for `v`.
    spec fn enc(&self, v: Self::Item) -> Seq<u8>;

    /// The value reconstructed from exactly `wlen` bytes.
    spec fn dec(&self, s: Seq<u8>) -> Self::Item;

    /// Appends the encoding of `value`.
    fn encode(&self, value: &Self::Item, buf: &mut Vec<u8>)
        requires
            self.valid(),
            self.ok(*value),
        ensures
            final(buf)@ == old(buf)@ + self.enc(*value),
            self.enc(*value).len() == self.wlen(),
    ;

    /// Reads one value at `pos`, failing only on truncation.
    fn decode(&self, buf: &Vec<u8>, pos: usize) -> (r: Result<(Self::Item, usize), Error>)
        requires
            self.valid(),
        ensures
            match r {
                Ok(t) => pos + self.wlen() <= buf@.len() && t.1 == pos + self.wlen() && t.0
                    == self.dec(buf@.subrange(pos as int, t.1 as int)) && self.ok(t.0),
                Err(e) => e == Error::Truncated && pos + self.wlen() > buf@.len(),
            },
    ;

    /// Decode inverts encode on every representable value.
    proof fn round_trip(&self, v: Self::Item)
        requires
            self.valid(),
            self.ok(v),
        ensures
            self.dec(self.enc(v)) == v,
    ;
}

/// An untyped codec action at an unnamed schema position: it writes a
/// fixed contribution and, on decode, reads and checks a position
/// without binding anything.
pub trait Value {
    /// The configuration is usable: codec well formed, constant
    /// representable.
    spec fn val_wf(&self) -> bool;

    /// The bytes one encode of this position writes.
    spec fn enc_bytes(&self) -> Seq<u8>;

    /// The outcome of decoding this position at `pos`: the next
    /// position, or the error.
    spec fn cmp_at(&self, input: Seq<u8>, pos: int) -> Result<int, Error>;

    /// Writes this position's fixed contribution.
    fn encode_value(&self, out: &mut Vec<u8>)
        requires
            self.val_wf(),
        ensures
            final(out)@ == old(out)@ + self.enc_bytes(),
    ;

    /// Reads this position, validating it as the combinator demands.
    fn compare(&self, input: &Vec<u8>, pos: usize) -> (r: Result<usize, Error>)
        requires
            self.val_wf(),
        ensures
            match (r, self.cmp_at(input@, pos as int)) {
                (Ok(p), Ok(q)) => p as int == q && p <= input@.len(),
                (Err(e), Err(f)) => e == f,
                _ => false,
            },
    ;
}

/// A constant-tag position: encode writes the expected constant, decode
/// requires it back.
#[derive(Debug)]
pub struct Tag {
    pub deener: crate::integers::IntCodec,
    pub value: u128,
}

impl Tag {
    pub fn new(deener: crate::integers::IntCodec, value: u128) -> (r: Tag)
        ensures
            r == (Tag { deener, value }),
    {
        Tag { deener, value }
    }
}

impl Value for Tag {
    open spec fn val_wf(&self) -> bool {
        self.deener.wf() && self.deener.in_range(self.value)
    }

    open spec fn enc_bytes(&self) -> Seq<u8> {
        self.deener.spec_enc(self.value)
    }

    /// Decode the constant's width and require equality; a mismatch
    /// carries the expected and the found value.
    open spec fn cmp_at(&self, input: Seq<u8>, pos: int) -> Result<int, Error> {
        let w = self.deener.width as int;
        if 0 <= pos && pos + w <= input.len() {
            let found = self.deener.spec_dec(input.subrange(pos, pos + w));
            if found == self.value as nat {
                Ok(pos + w)
            } else {
                Err(Error::TagMismatch { expected: self.value, found: found as u128 })
            }
        } else {
            Err(Error::Truncated)
        }
    }

    fn encode_value(&self, out: &mut Vec<u8>) {
        crate::integers::enc_int(&self.deener, self.value, out);
    }

    fn compare(&self, input: &Vec<u8>, pos: usize) -> (r: Result<usize, Error>) {
        match crate::integers::dec_int(&self.deener, input, pos) {
            Ok((found, p)) => {
                if found == self.value {
                    Ok(p)
                } else {
                    Err(Error::TagMismatch { expected: self.value, found })
                }
            },
            Err(e) => Err(e),
        }
    }
}

/// A skipped position: encode writes the codec's default (zero), decode
/// reads and discards the value, failing only on truncation.
#[derive(Debug)]
pub struct Any {
    pub deener: crate::integers::IntCodec,
}

impl Any {
    pub fn new(deener: crate::integers::IntCodec) -> (r: Any)
        ensures
            r == (Any { deener }),
    {
        Any { deener }
    }
}

impl Value for Any {
    open spec fn val_wf(&self) -> bool {
        self.deener.wf()
    }

    open spec fn enc_bytes(&self) -> Seq<u8> {
        self.deener.spec_enc(0)
    }

    /// Skip the codec's width; the content never matters.
    open spec fn cmp_at(&self, input: Seq<u8>, pos: int) -> Result<int, Error> {
        let w = self.deener.width as int;
        if 0 <= pos && pos + w <= input.len() {
            Ok(pos + w)
        } else {
            Err(Error::Truncated)
        }
    }

    fn encode_value(&self, out: &mut Vec<u8>) {
        crate::integers::enc_int(&self.deener, 0, out);
    }

    fn compare(&self, input: &Vec<u8>, pos: usize) -> (r: Result<usize, Error>) {
        match crate::integers::dec_int(&self.deener, input, pos) {
            Ok((_, p)) => Ok(p),
            Err(e) => Err(e),
        }
    }
}

/// The one-byte unsigned codec in its typed form.
#[derive(Clone, Copy, Debug, PartialEq, Eq, Structural)]
pub struct U8;

impl Deen for U8 {
    type Item = u8;

    open spec fn valid(&self) -> bool {
        true
    }

    open spec fn ok(&self, v: u8) -> bool {
        true
    }

    open spec fn wlen(&self) -> nat {
        1
    }

    open spec fn enc(&self, v: u8) -> Seq<u8> {
        seq![v]
    }

    open spec fn dec(&self, s: Seq<u8>) -> u8 {
        s[0]
    }

    fn encode(&self, value: &u8, buf: &mut Vec<u8>) {
        buf.push(*value);
    }

    fn decode(&self, buf: &Vec<u8>, pos: usize) -> (r: Result<(u8, usize), Error>) {
        if pos < buf.len() {
            Ok((buf[pos], pos + 1))
        } else {
            Err(Error::Truncated)
        }
    }

    proof fn round_trip(&self, v: u8) {
    }
}

} // verus!
