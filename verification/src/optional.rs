//! The optional-field combinator.
//!
//! An optional field pairs a wire codec with a fallible two-way
//! conversion and a presence predicate.  Encode writes the converted
//! value when one is present and nothing otherwise; decode consults the
//! predicate against the parameters and the bindings made so far, and
//! reads a value exactly when it answers true.  Whether the predicate
//! agrees with the encoder's presence is the schema author's contract,
//! not checked here.

use vstd::prelude::*;
use crate::Error;
use crate::env::{Env, FieldVal, Params, Scalar};
use crate::enums::Conv;
use crate::guards::{Guard, eval_guard, spec_geval};
use crate::integers::{IntCodec, dec_int, enc_int};

verus! {

/// The builder's entry point.
#[derive(Debug)]
pub struct Optional;

/// An optional field with its wire codec and conversion chosen, still
/// awaiting its presence predicate.
#[derive(Debug)]
pub struct OptionalWithEncoder {
    pub encoder: IntCodec,
    pub conv: Conv,
}

/// A complete optional-field codec.
#[derive(Debug)]
pub struct OptionalImpl {
    pub encoder: IntCodec,
    pub conv: Conv,
    pub pred: Guard,
}

impl Optional {
    /// Chooses the wire codec and the wire/semantic conversion.
    pub fn wrap(conv: Conv, encoder: IntCodec) -> (r: OptionalWithEncoder)
        ensures
            r == (OptionalWithEncoder { encoder, conv }),
    {
        OptionalWithEncoder { encoder, conv }
    }
}

impl OptionalWithEncoder {
    /// Chooses the presence predicate, completing the codec.
    pub fn decode_when(self, pred: Guard) -> (r: OptionalImpl)
        ensures
            r == (OptionalImpl { encoder: self.encoder, conv: self.conv, pred }),
    {
        OptionalImpl { encoder: self.encoder, conv: self.conv, pred }
    }
}

impl OptionalImpl {
    /// The wire codec is well formed and the conversion fits it.
    pub open spec fn wf(self) -> bool {
        self.encoder.wf() && self.conv.wf(self.encoder)
    }

    /// What encode writes for `value` at binding `name`: nothing when
    /// absent, the converted pattern when present, the conversion error
    /// when the value cannot be represented.
    pub open spec fn spec_encode(self, name: u32, value: Option<Scalar>) -> Result<
        Seq<u8>,
        Error,
    > {
        match value {
            None => Ok(Seq::empty()),
            Some(s) => match self.conv.spec_to_wire(self.encoder, s) {
                Some(w) => Ok(self.encoder.spec_enc(w)),
                None => Err(Error::Conversion { name, value: s.raw() }),
            },
        }
    }

    /// What decode yields at binding `name` and position `pos`: when
    /// the predicate answers false, an absent value consuming nothing;
    /// otherwise one decoded wire value run through the conversion.
    pub open spec fn spec_decode(
        self,
        name: u32,
        ps: Seq<(u32, u128)>,
        env: Seq<(u32, FieldVal)>,
        input: Seq<u8>,
        pos: int,
    ) -> Result<(Option<Scalar>, int), Error> {
        if !spec_geval(self.pred, ps, env) {
            Ok((None, pos))
        } else {
            let w = self.encoder.width as int;
            if 0 <= pos && pos + w <= input.len() {
                let raw = self.encoder.spec_dec(input.subrange(pos, pos + w)) as u128;
                match self.conv.spec_from_wire(raw) {
                    Some(s) => Ok((Some(s), pos + w)),
                    None => Err(Error::Conversion { name, value: raw }),
                }
            } else {
                Err(Error::Truncated)
            }
        }
    }

    /// Writes `value` if present, converting it first.
    pub fn encode(&self, name: u32, value: Option<Scalar>, out: &mut Vec<u8>) -> (r: Result<
        (),
        Error,
    >)
        requires
            self.wf(),
        ensures
            match (r, self.spec_encode(name, value)) {
                (Ok(u), Ok(bs)) => final(out)@ == old(out)@ + bs,
                (Err(e), Err(f)) => e == f && final(out)@ == old(out)@,
                _ => false,
            },
    {
        match value {
            None => Ok(()),
            Some(s) => match self.conv.to_wire(&self.encoder, s) {
                Some(w) => {
                    enc_int(&self.encoder, w, out);
                    Ok(())
                },
                None => Err(crate::invalid_data_error(name, s.raw_exec())),
            },
        }
    }

    /// Consults the predicate, then reads and converts a value when it
    /// answers true.
    pub fn decode(
        &self,
        name: u32,
        ps: &Params,
        env: &Env,
        input: &Vec<u8>,
        pos: usize,
    ) -> (r: Result<(Option<Scalar>, usize), Error>)
        requires
            self.wf(),
        ensures
            match (r, self.spec_decode(name, ps.pairs@, env.pairs@, input@, pos as int)) {
                (Ok(t), Ok(q)) => t.0 == q.0 && t.1 as int == q.1,
                (Err(e), Err(f)) => e == f,
                _ => false,
            },
    {
        if !eval_guard(&self.pred, ps, env) {
            Ok((None, pos))
        } else {
            match dec_int(&self.encoder, input, pos) {
                Ok((raw, p)) => match self.conv.from_wire(raw) {
                    Some(s) => Ok((Some(s), p)),
                    None => Err(crate::invalid_data_error(name, raw)),
                },
                Err(e) => Err(e),
            }
        }
    }
}

} // verus!
