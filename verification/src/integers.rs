//! Fixed-width integer codecs.
//!
//! An [`IntCodec`] describes one wire integer: a width in bytes (1, 2,
//! 3, 4, 6, 8 or 16), a signedness, and a byte order.  Encoding writes
//! exactly `width` bytes; decoding reads exactly `width` bytes, failing
//! only on truncation, and zero- or sign-extends the result into a
//! 128-bit pattern.  Signed values are carried as the two's-complement
//! bit pattern of the corresponding `i128`, held in a `u128`.

use vstd::prelude::*;
use vstd::arithmetic::div_mod::{
    lemma_breakdown, lemma_div_basics, lemma_div_denominator, lemma_mod_multiples_vanish,
    lemma_small_mod,
};
use vstd::arithmetic::mul::{lemma_mul_is_associative, lemma_mul_is_commutative};
use crate::Error;

verus! {

/// Byte order of a multi-byte wire integer.
#[derive(Clone, Copy, Debug, PartialEq, Eq, Structural)]
pub enum Endian {
    Big,
    Little,
}

/// One fixed-width integer codec: width in bytes, signedness, byte order.
#[derive(Clone, Copy, Debug, PartialEq, Eq, Structural)]
pub struct IntCodec {
    pub width: u8,
    pub signed: bool,
    pub endian: Endian,
}

/// 256 raised to `w`: the number of distinct values of a `w`-byte field.
pub open spec fn pow256(w: nat) -> nat
    decreases w,
{
    if w == 0 {
        1
    } else {
        256 * pow256((w - 1) as nat)
    }
}

/// The `w` least-significant bytes of `v`, least significant first.
pub open spec fn le_bytes_of(v: nat, w: nat) -> Seq<u8>
    decreases w,
{
    if w == 0 {
        Seq::empty()
    } else {
        seq![(v % 256) as u8] + le_bytes_of(v / 256, (w - 1) as nat)
    }
}

/// The value of a little-endian byte string.
pub open spec fn le_val(s: Seq<u8>) -> nat
    decreases s.len(),
{
    if s.len() == 0 {
        0nat
    } else {
        s[0] as nat + 256 * le_val(s.subrange(1, s.len() as int))
    }
}

/// Sign-extension of a `w`-byte value into the 128-bit pattern space.
pub open spec fn sign_extend(low: nat, w: nat) -> nat {
    if low < pow256(w) / 2 {
        low
    } else {
        (low + pow256(16) - pow256(w)) as nat
    }
}

impl IntCodec {
    /// The codec describes one of the supported widths.
    pub open spec fn wf(self) -> bool {
        self.width == 1 || self.width == 2 || self.width == 3 || self.width == 4
            || self.width == 6 || self.width == 8 || self.width == 16
    }

    /// A 128-bit pattern is representable at this width: for unsigned
    /// codecs it fits in `width` bytes, for signed codecs it is the
    /// sign-extension of a `width`-byte two's-complement value.
    pub open spec fn in_range(self, v: u128) -> bool {
        if self.signed {
            (v as nat) < pow256(self.width as nat) / 2
                || pow256(16) - pow256(self.width as nat) / 2 <= v as nat
        } else {
            (v as nat) < pow256(self.width as nat)
        }
    }

    /// The bytes this codec writes for the pattern `v`.
    pub open spec fn spec_enc(self, v: u128) -> Seq<u8> {
        match self.endian {
            Endian::Little => le_bytes_of(v as nat, self.width as nat),
            Endian::Big => le_bytes_of(v as nat, self.width as nat).reverse(),
        }
    }

    /// The pattern this codec reconstructs from exactly `width` bytes.
    pub open spec fn spec_dec(self, s: Seq<u8>) -> nat {
        let low = match self.endian {
            Endian::Little => le_val(s),
            Endian::Big => le_val(s.reverse()),
        };
        if self.signed {
            sign_extend(low, self.width as nat)
        } else {
            low
        }
    }

    /// Executable form of [`IntCodec::wf`].
    pub fn check_wf(&self) -> (r: bool)
        ensures
            r == self.wf(),
    {
        self.width == 1 || self.width == 2 || self.width == 3 || self.width == 4
            || self.width == 6 || self.width == 8 || self.width == 16
    }

    /// Builds a codec, accepting exactly the supported widths.
    pub fn new(width: u8, signed: bool, endian: Endian) -> (r: Option<IntCodec>)
        ensures
            match r {
                Some(c) => c == (IntCodec { width, signed, endian }) && c.wf(),
                None => !(IntCodec { width, signed, endian }).wf(),
            },
    {
        if width == 1 || width == 2 || width == 3 || width == 4 || width == 6 || width == 8
            || width == 16 {
            Some(IntCodec { width, signed, endian })
        } else {
            None
        }
    }
}

impl crate::Deen for IntCodec {
    type Item = u128;

    open spec fn valid(&self) -> bool {
        self.wf()
    }

    open spec fn ok(&self, v: u128) -> bool {
        self.in_range(v)
    }

    open spec fn wlen(&self) -> nat {
        self.width as nat
    }

    open spec fn enc(&self, v: u128) -> Seq<u8> {
        self.spec_enc(v)
    }

    open spec fn dec(&self, s: Seq<u8>) -> u128 {
        self.spec_dec(s) as u128
    }

    fn encode(&self, value: &u128, buf: &mut Vec<u8>) {
        enc_int(self, *value, buf);
        proof {
            lemma_enc_len(*self, *value);
        }
    }

    fn decode(&self, buf: &Vec<u8>, pos: usize) -> (r: Result<(u128, usize), Error>) {
        dec_int(self, buf, pos)
    }

    proof fn round_trip(&self, v: u128) {
        lemma_int_round_trip(*self, v);
    }
}

pub proof fn lemma_pow256_pos(w: nat)
    ensures
        pow256(w) >= 1,
    decreases w,
{
    if w > 0 {
        lemma_pow256_pos((w - 1) as nat);
    }
}

pub proof fn lemma_pow256_mono(i: nat, j: nat)
    requires
        i <= j,
    ensures
        pow256(i) <= pow256(j),
    decreases j,
{
    if i < j {
        lemma_pow256_mono(i, (j - 1) as nat);
        lemma_pow256_pos((j - 1) as nat);
    }
}

pub proof fn lemma_pow256_add(a: nat, b: nat)
    ensures
        pow256(a + b) == pow256(a) * pow256(b),
    decreases a,
{
    if a == 0 {
        assert(pow256(b) == 1 * pow256(b));
    } else {
        lemma_pow256_add((a - 1) as nat, b);
        lemma_mul_is_associative(256, pow256((a - 1) as nat) as int, pow256(b) as int);
        assert((a + b - 1) as nat == (a - 1) as nat + b);
    }
}

pub proof fn lemma_pow256_16()
    ensures
        pow256(16) == 0x1_0000_0000_0000_0000_0000_0000_0000_0000,
{
    reveal_with_fuel(pow256, 17);
}

pub proof fn lemma_le_bytes_len(v: nat, w: nat)
    ensures
        le_bytes_of(v, w).len() == w,
    decreases w,
{
    if w > 0 {
        lemma_le_bytes_len(v / 256, (w - 1) as nat);
    }
}

/// Extending the byte string by one appends the next byte at the end.
pub proof fn lemma_le_bytes_snoc(v: nat, w: nat)
    ensures
        le_bytes_of(v, w + 1) == le_bytes_of(v, w).push(((v / pow256(w)) % 256) as u8),
    decreases w,
{
    lemma_le_bytes_len(v, w);
    if w == 0 {
        lemma_div_basics(v as int);
        assert(pow256(0) == 1);
        assert(v / pow256(0) == v);
        assert(le_bytes_of(v / 256, 0) =~= Seq::<u8>::empty());
        assert(le_bytes_of(v, 1) =~= le_bytes_of(v, 0).push(((v / pow256(0)) % 256) as u8));
    } else {
        lemma_le_bytes_snoc(v / 256, (w - 1) as nat);
        lemma_pow256_pos((w - 1) as nat);
        lemma_div_denominator(v as int, 256, pow256((w - 1) as nat) as int);
        assert(256 * pow256((w - 1) as nat) == pow256(w));
        assert((v / 256) / pow256((w - 1) as nat) == v / pow256(w));
        assert(le_bytes_of(v, w + 1) =~= le_bytes_of(v, w).push(((v / pow256(w)) % 256) as u8));
    }
}

/// The value carried by the first `w` bytes of `v` is `v` reduced mod 256^w.
pub proof fn lemma_le_val_of_bytes(v: nat, w: nat)
    ensures
        le_val(le_bytes_of(v, w)) == v % pow256(w),
    decreases w,
{
    lemma_pow256_pos(w);
    if w == 0 {
        lemma_small_mod(0, 1);
        assert(v % 1 == 0) by {
            lemma_mod_multiples_vanish(v as int, 0, 1);
        }
    } else {
        lemma_le_val_of_bytes(v / 256, (w - 1) as nat);
        lemma_le_bytes_len(v / 256, (w - 1) as nat);
        let s = le_bytes_of(v, w);
        assert(s.subrange(1, s.len() as int) =~= le_bytes_of(v / 256, (w - 1) as nat));
        lemma_pow256_pos((w - 1) as nat);
        lemma_breakdown(v as int, 256, pow256((w - 1) as nat) as int);
        assert(256 * pow256((w - 1) as nat) == pow256(w));
    }
}

/// A `w`-byte string always carries a value below 256^w.
pub proof fn lemma_le_val_bound(s: Seq<u8>)
    ensures
        le_val(s) < pow256(s.len()),
    decreases s.len(),
{
    if s.len() == 0 {
    } else {
        lemma_le_val_bound(s.subrange(1, s.len() as int));
    }
}

/// The encoded form always holds exactly `width` bytes.
pub proof fn lemma_enc_len(c: IntCodec, v: u128)
    ensures
        c.spec_enc(v).len() == c.width as nat,
{
    lemma_le_bytes_len(v as nat, c.width as nat);
}

/// Decoding what was encoded restores any representable pattern.
pub proof fn lemma_int_round_trip(c: IntCodec, v: u128)
    requires
        c.wf(),
        c.in_range(v),
    ensures
        c.spec_dec(c.spec_enc(v)) == v as nat,
{
    let w = c.width as nat;
    let n = v as nat;
    let p = pow256(w);
    lemma_pow256_pos(w);
    lemma_le_val_of_bytes(n, w);
    lemma_le_bytes_len(n, w);
    let le = le_bytes_of(n, w);
    if c.endian is Big {
        assert(le.reverse().reverse() =~= le);
    }
    assert(le_val(le) == n % p);
    lemma_pow256_16();
    lemma_pow256_mono(w, 16);
    if !c.signed {
        lemma_small_mod(n, p);
    } else {
        if n < p / 2 {
            lemma_small_mod(n, p);
        } else {
            // The pattern sits in the top half of the 128-bit space;
            // its low w bytes are n - (2^128 - 256^w).
            lemma_pow256_add(w, (16 - w) as nat);
            assert(pow256(16) == p * pow256((16 - w) as nat));
            let q = (pow256((16 - w) as nat) - 1) as nat;
            assert(p * (q + 1) == p * q + p) by {
                lemma_mul_is_associative(0, 0, 0);
                assert(p * (q + 1) == p * q + p * 1) by (nonlinear_arith);
            }
            let r = (n + p - pow256(16)) as nat;
            assert(n == p * q + r);
            lemma_mod_multiples_vanish(q as int, r as int, p as int);
            assert(r < p);
            lemma_small_mod(r, p);
            assert(n % p == r);
            assert(p / 2 <= r);
            assert(sign_extend(r, w) == n);
        }
    }
}

/// Executable 256^w for the widths a codec can carry short of 16 bytes.
fn pow256_exec(w: usize) -> (r: u128)
    requires
        w <= 15,
    ensures
        r as nat == pow256(w as nat),
        r >= 1,
{
    let mut r: u128 = 1;
    let mut i: usize = 0;
    while i < w
        invariant
            i <= w,
            w <= 15,
            r as nat == pow256(i as nat),
        decreases w - i,
    {
        proof {
            lemma_pow256_mono((i + 1) as nat, 15);
            lemma_pow256_16();
            assert(256 * pow256(15) == pow256(16));
            lemma_pow256_pos(15);
        }
        r = r * 256;
        i = i + 1;
    }
    proof {
        lemma_pow256_pos(w as nat);
    }
    r
}

/// Appends the encoding of `v` at this codec's width and byte order.
pub fn enc_int(c: &IntCodec, v: u128, out: &mut Vec<u8>)
    requires
        c.wf(),
    ensures
        final(out)@ == old(out)@ + c.spec_enc(v),
{
    let w = c.width as usize;
    let mut le: Vec<u8> = Vec::new();
    let mut cur: u128 = v;
    let mut i: usize = 0;
    proof {
        lemma_div_basics(v as int);
        assert(pow256(0) == 1);
        assert((v as nat) / pow256(0) == v as nat);
    }
    while i < w
        invariant
            i <= w,
            w == c.width as usize,
            le@ == le_bytes_of(v as nat, i as nat),
            le@.len() == i,
            cur as nat == (v as nat) / pow256(i as nat),
        decreases w - i,
    {
        proof {
            lemma_le_bytes_snoc(v as nat, i as nat);
            lemma_le_bytes_len(v as nat, i as nat);
            lemma_pow256_pos(i as nat);
            lemma_div_denominator(v as int, pow256(i as nat) as int, 256);
            assert(pow256(i as nat) * 256 == pow256((i + 1) as nat)) by {
                lemma_mul_is_commutative(pow256(i as nat) as int, 256);
            }
        }
        le.push((cur % 256) as u8);
        cur = cur / 256;
        i = i + 1;
    }
    proof {
        lemma_le_bytes_len(v as nat, w as nat);
    }
    match c.endian {
        Endian::Little => {
            let mut j: usize = 0;
            while j < w
                invariant
                    j <= w,
                    le@ == le_bytes_of(v as nat, w as nat),
                    le@.len() == w,
                    out@ == old(out)@ + le@.subrange(0, j as int),
                decreases w - j,
            {
                let b = le[j];
                out.push(b);
                proof {
                    assert(le@.subrange(0, (j + 1) as int) =~= le@.subrange(0, j as int).push(
                        le@[j as int]));
                }
                j = j + 1;
            }
            proof {
                assert(le@.subrange(0, w as int) =~= le@);
            }
        },
        Endian::Big => {
            let mut j: usize = 0;
            while j < w
                invariant
                    j <= w,
                    le@ == le_bytes_of(v as nat, w as nat),
                    le@.len() == w,
                    out@ == old(out)@ + le@.reverse().subrange(0, j as int),
                decreases w - j,
            {
                let b = le[w - 1 - j];
                out.push(b);
                proof {
                    assert(le@.reverse()[j as int] == le@[(w - 1 - j) as int]);
                    assert(le@.reverse().subrange(0, (j + 1) as int) =~= le@.reverse().subrange(
                        0, j as int).push(le@.reverse()[j as int]));
                }
                j = j + 1;
            }
            proof {
                assert(le@.reverse().subrange(0, w as int) =~= le@.reverse());
            }
        },
    }
}

/// Reads `w` little-endian bytes at `pos` into a value.
fn read_le(input: &Vec<u8>, pos: usize, w: usize) -> (low: u128)
    requires
        pos + w <= input@.len(),
        w <= 16,
    ensures
        low as nat == le_val(input@.subrange(pos as int, (pos + w) as int)),
        (low as nat) < pow256(w as nat),
{
    let n: usize = input.len();
    let n: usize = input.len();
    let ghost s = input@.subrange(pos as int, (pos + w) as int);
    proof {
        lemma_pow256_16();
        lemma_pow256_mono(w as nat, 16);
    }
    let mut low: u128 = 0;
    let mut i: usize = w;
    while i > 0
        invariant
            i <= w,
            n == input@.len(),
            pos + w <= n,
            s == input@.subrange(pos as int, (pos + w) as int),
            s.len() == w,
            low as nat == le_val(s.subrange(i as int, w as int)),
            (low as nat) < pow256((w - i) as nat),
            pow256(w as nat) <= pow256(16),
            pow256(16) == 0x1_0000_0000_0000_0000_0000_0000_0000_0000,
        decreases i,
    {
        proof {
            lemma_pow256_mono((w - i + 1) as nat, w as nat);
            let t = s.subrange((i - 1) as int, w as int);
            assert(t.subrange(1, t.len() as int) =~= s.subrange(i as int, w as int));
        }
        i = i - 1;
        low = low * 256 + input[pos + i] as u128;
    }
    proof {
        assert(s.subrange(0, w as int) =~= s);
    }
    low
}

/// Reads `w` big-endian bytes at `pos` into a value.
fn read_be(input: &Vec<u8>, pos: usize, w: usize) -> (low: u128)
    requires
        pos + w <= input@.len(),
        w <= 16,
    ensures
        low as nat == le_val(input@.subrange(pos as int, (pos + w) as int).reverse()),
        (low as nat) < pow256(w as nat),
{
    let n: usize = input.len();
    let ghost s = input@.subrange(pos as int, (pos + w) as int);
    proof {
        lemma_pow256_16();
        lemma_pow256_mono(w as nat, 16);
    }
    let mut low: u128 = 0;
    let mut i: usize = 0;
    while i < w
        invariant
            i <= w,
            n == input@.len(),
            pos + w <= n,
            s == input@.subrange(pos as int, (pos + w) as int),
            s.len() == w,
            low as nat == le_val(s.subrange(0, i as int).reverse()),
            (low as nat) < pow256(i as nat),
            pow256(w as nat) <= pow256(16),
            pow256(16) == 0x1_0000_0000_0000_0000_0000_0000_0000_0000,
        decreases w - i,
    {
        proof {
            lemma_pow256_mono((i + 1) as nat, w as nat);
            let t = s.subrange(0, (i + 1) as int).reverse();
            assert(t.subrange(1, t.len() as int) =~= s.subrange(0, i as int).reverse());
            assert(t[0] == s[i as int]);
        }
        low = low * 256 + input[pos + i] as u128;
        i = i + 1;
    }
    proof {
        assert(s.subrange(0, w as int) =~= s);
    }
    low
}

/// Extends a `width`-byte value into the 128-bit pattern space,
/// following the codec's signedness.
fn extend_to_pattern(c: &IntCodec, low: u128) -> (v: u128)
    requires
        c.wf(),
        (low as nat) < pow256(c.width as nat),
    ensures
        v as nat == if c.signed {
            sign_extend(low as nat, c.width as nat)
        } else {
            low as nat
        },
        c.in_range(v),
{
    let w = c.width as usize;
    proof {
        lemma_pow256_16();
    }
    if c.signed && w < 16 {
        let p = pow256_exec(w);
        let half = p / 2;
        if low >= half {
            low + (u128::MAX - p + 1)
        } else {
            low
        }
    } else {
        proof {
            if c.signed && w == 16 {
                assert(pow256(16) / 2 == 0x8000_0000_0000_0000_0000_0000_0000_0000);
                assert(sign_extend(low as nat, 16) == low as nat);
            }
        }
        low
    }
}

/// Reads exactly `width` bytes at `pos`, failing only on truncation;
/// on success returns the extended pattern and the next position.
pub fn dec_int(c: &IntCodec, input: &Vec<u8>, pos: usize) -> (r: Result<(u128, usize), Error>)
    requires
        c.wf(),
    ensures
        match r {
            Ok(t) => pos + c.width as usize <= input@.len() && t.1 == pos + c.width as usize
                && t.0 as nat == c.spec_dec(input@.subrange(pos as int, t.1 as int))
                && c.in_range(t.0),
            Err(e) => e == Error::Truncated && pos + c.width as nat > input@.len(),
        },
{
    let w = c.width as usize;
    if pos > input.len() || input.len() - pos < w {
        return Err(Error::Truncated);
    }
    let end = pos + w;
    let low: u128 = match c.endian {
        Endian::Little => read_le(input, pos, w),
        Endian::Big => read_be(input, pos, w),
    };
    let v = extend_to_pattern(c, low);
    Ok((v, end))
}

} // verus!
