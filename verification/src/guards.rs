//! Guard expressions.
//!
//! A guard is a boolean expression over external parameters and
//! already-bound integer fields.  The same guard text is evaluated on
//! both sides of the wire: during encode against the caller's full
//! structure, during decode against the bindings reconstructed so far.
//! Branch symmetry rests on the two evaluations agreeing, which in turn
//! rests on a guard naming only bindings established earlier.

use vstd::prelude::*;
use crate::env::{FieldVal, Scalar, lookup, plookup};

verus! {

/// A leaf of a comparison: a bound name or a literal.
#[derive(Clone, Copy, Debug, PartialEq, Eq, Structural)]
pub enum Operand {
    Name(u32),
    Lit(u128),
}

/// A comparison operator over 128-bit patterns.
#[derive(Clone, Copy, Debug, PartialEq, Eq, Structural)]
pub enum CmpOp {
    Eq,
    Ne,
    Lt,
    Le,
    Gt,
    Ge,
}

/// A guard: comparisons composed with boolean connectives.
#[derive(Debug)]
pub enum Guard {
    Bool(bool),
    Cmp(CmpOp, Operand, Operand),
    And(Box<Guard>, Box<Guard>),
    Or(Box<Guard>, Box<Guard>),
    Not(Box<Guard>),
}

/// The names an operand reads.
pub open spec fn opnames(o: Operand) -> Set<u32> {
    match o {
        Operand::Name(n) => set![n],
        Operand::Lit(_) => Set::empty(),
    }
}

/// The names a guard reads.
pub open spec fn gnames(g: Guard) -> Set<u32>
    decreases g,
{
    match g {
        Guard::Bool(_) => Set::empty(),
        Guard::Cmp(_, a, b) => opnames(a).union(opnames(b)),
        Guard::And(x, y) => gnames(*x).union(gnames(*y)),
        Guard::Or(x, y) => gnames(*x).union(gnames(*y)),
        Guard::Not(x) => gnames(*x),
    }
}

/// The integer an operand denotes: a literal, a parameter, or an
/// already-bound required integer field.  Anything else denotes nothing.
pub open spec fn spec_opval(o: Operand, ps: Seq<(u32, u128)>, env: Seq<(u32, FieldVal)>) -> Option<
    u128,
> {
    match o {
        Operand::Lit(k) => Some(k),
        Operand::Name(n) => match plookup(ps, n) {
            Some(v) => Some(v),
            None => match lookup(env, n) {
                Some(FieldVal::Req(Scalar::Int(v))) => Some(v),
                _ => None,
            },
        },
    }
}

/// The meaning of a comparison operator.
pub open spec fn spec_cmp(op: CmpOp, a: u128, b: u128) -> bool {
    match op {
        CmpOp::Eq => a == b,
        CmpOp::Ne => a != b,
        CmpOp::Lt => a < b,
        CmpOp::Le => a <= b,
        CmpOp::Gt => a > b,
        CmpOp::Ge => a >= b,
    }
}

/// Guard evaluation.  A comparison whose operand denotes nothing is
/// false; validated schemas never reach that case.
pub open spec fn spec_geval(g: Guard, ps: Seq<(u32, u128)>, env: Seq<(u32, FieldVal)>) -> bool
    decreases g,
{
    match g {
        Guard::Bool(b) => b,
        Guard::Cmp(op, x, y) => match (spec_opval(x, ps, env), spec_opval(y, ps, env)) {
            (Some(a), Some(b)) => spec_cmp(op, a, b),
            _ => false,
        },
        Guard::And(x, y) => spec_geval(*x, ps, env) && spec_geval(*y, ps, env),
        Guard::Or(x, y) => spec_geval(*x, ps, env) || spec_geval(*y, ps, env),
        Guard::Not(x) => !spec_geval(*x, ps, env),
    }
}

/// Guard evaluation reads only the names the guard mentions: two
/// environments that agree on those names — or are shadowed there by a
/// parameter — give the same answer.
pub proof fn lemma_geval_agree(
    g: Guard,
    ps: Seq<(u32, u128)>,
    e1: Seq<(u32, FieldVal)>,
    e2: Seq<(u32, FieldVal)>,
)
    requires
        forall|n: u32|
            gnames(g).contains(n) ==> plookup(ps, n) is Some || lookup(e1, n) == lookup(e2, n),
    ensures
        spec_geval(g, ps, e1) == spec_geval(g, ps, e2),
    decreases g,
{
    match g {
        Guard::Bool(_) => {},
        Guard::Cmp(op, x, y) => {
            match x {
                Operand::Name(n) => {
                    assert(gnames(g).contains(n));
                },
                Operand::Lit(_) => {},
            }
            match y {
                Operand::Name(n) => {
                    assert(gnames(g).contains(n));
                },
                Operand::Lit(_) => {},
            }
        },
        Guard::And(x, y) => {
            assert(forall|n: u32| gnames(*x).contains(n) ==> gnames(g).contains(n));
            assert(forall|n: u32| gnames(*y).contains(n) ==> gnames(g).contains(n));
            lemma_geval_agree(*x, ps, e1, e2);
            lemma_geval_agree(*y, ps, e1, e2);
        },
        Guard::Or(x, y) => {
            assert(forall|n: u32| gnames(*x).contains(n) ==> gnames(g).contains(n));
            assert(forall|n: u32| gnames(*y).contains(n) ==> gnames(g).contains(n));
            lemma_geval_agree(*x, ps, e1, e2);
            lemma_geval_agree(*y, ps, e1, e2);
        },
        Guard::Not(x) => {
            assert(forall|n: u32| gnames(*x).contains(n) ==> gnames(g).contains(n));
            lemma_geval_agree(*x, ps, e1, e2);
        },
    }
}

/// Evaluates an operand against parameters and bindings.
pub fn eval_operand(o: &Operand, ps: &crate::env::Params, env: &crate::env::Env) -> (r: Option<
    u128,
>)
    ensures
        r == spec_opval(*o, ps.pairs@, env.pairs@),
{
    match o {
        Operand::Lit(k) => Some(*k),
        Operand::Name(n) => match ps.get(*n) {
            Some(v) => Some(v),
            None => match env.get(*n) {
                Some(FieldVal::Req(Scalar::Int(v))) => Some(v),
                _ => None,
            },
        },
    }
}

/// Evaluates a guard against parameters and bindings.
pub fn eval_guard(g: &Guard, ps: &crate::env::Params, env: &crate::env::Env) -> (r: bool)
    ensures
        r == spec_geval(*g, ps.pairs@, env.pairs@),
    decreases *g,
{
    match g {
        Guard::Bool(b) => *b,
        Guard::Cmp(op, x, y) => match (eval_operand(x, ps, env), eval_operand(y, ps, env)) {
            (Some(a), Some(b)) => match op {
                CmpOp::Eq => a == b,
                CmpOp::Ne => a != b,
                CmpOp::Lt => a < b,
                CmpOp::Le => a <= b,
                CmpOp::Gt => a > b,
                CmpOp::Ge => a >= b,
            },
            _ => false,
        },
        Guard::And(x, y) => eval_guard(x, ps, env) && eval_guard(y, ps, env),
        Guard::Or(x, y) => eval_guard(x, ps, env) || eval_guard(y, ps, env),
        Guard::Not(x) => !eval_guard(x, ps, env),
    }
}

/// Whether every name a guard reads occurs in `avail`.
pub open spec fn spec_names_in(g: Guard, avail: Seq<u32>) -> bool {
    forall|n: u32| gnames(g).contains(n) ==> avail.contains(n)
}

/// Whether a sequence of names contains `n`.
pub fn names_contain(avail: &Vec<u32>, n: u32) -> (r: bool)
    ensures
        r == avail@.contains(n),
{
    let mut i: usize = 0;
    while i < avail.len()
        invariant
            i <= avail@.len(),
            forall|j: int| 0 <= j < i ==> avail@[j] != n,
        decreases avail@.len() - i,
    {
        if avail[i] == n {
            return true;
        }
        i = i + 1;
    }
    false
}

/// Checks that a guard reads only names in `avail`.
pub fn check_names(g: &Guard, avail: &Vec<u32>) -> (r: bool)
    ensures
        r == spec_names_in(*g, avail@),
    decreases *g,
{
    match g {
        Guard::Bool(_) => true,
        Guard::Cmp(_, x, y) => {
            let xo = match x {
                Operand::Name(n) => names_contain(avail, *n),
                Operand::Lit(_) => true,
            };
            let yo = match y {
                Operand::Name(n) => names_contain(avail, *n),
                Operand::Lit(_) => true,
            };
            proof {
                if xo && yo {
                    assert forall|n: u32| gnames(*g).contains(n) implies avail@.contains(
                        n,
                    ) by {
                        assert(opnames(match *g {
                            Guard::Cmp(_, a, _) => a,
                            _ => arbitrary(),
                        }).contains(n) || opnames(match *g {
                            Guard::Cmp(_, _, b) => b,
                            _ => arbitrary(),
                        }).contains(n));
                    }
                }
            }
            xo && yo
        },
        Guard::And(x, y) => {
            let rx = check_names(x, avail);
            let ry = check_names(y, avail);
            proof {
                assert(forall|n: u32| gnames(**x).contains(n) ==> gnames(*g).contains(n));
                assert(forall|n: u32| gnames(**y).contains(n) ==> gnames(*g).contains(n));
                assert(forall|n: u32|
                    gnames(*g).contains(n) ==> gnames(**x).contains(n) || gnames(**y).contains(n));
            }
            rx && ry
        },
        Guard::Or(x, y) => {
            let rx = check_names(x, avail);
            let ry = check_names(y, avail);
            proof {
                assert(forall|n: u32| gnames(**x).contains(n) ==> gnames(*g).contains(n));
                assert(forall|n: u32| gnames(**y).contains(n) ==> gnames(*g).contains(n));
                assert(forall|n: u32|
                    gnames(*g).contains(n) ==> gnames(**x).contains(n) || gnames(**y).contains(n));
            }
            rx && ry
        },
        Guard::Not(x) => check_names(x, avail),
    }
}

} // verus!
