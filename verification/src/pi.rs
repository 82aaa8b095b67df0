//! Detecting that an expression is an integer multiple of pi.

use crate::expr::{ConstKind, Expr, VarOpKind};
use crate::node::{models, Node};
use vstd::prelude::*;

verus! {

/// Whether an integer is representable in 64 signed bits.
pub open spec fn fits_i64(x: int) -> bool {
    i64::MIN <= x <= i64::MAX
}

/// Where the walk over the factors of a product stands.
pub enum PiWalk {
    /// All factors so far multiply to `multiplier`, times pi if `has_pi`.
    Going { multiplier: int, has_pi: bool },
    /// The walk has ended with this answer.
    Stopped(Option<int>),
}

/// The walk after one more factor.  A literal must be an integer and is
/// multiplied in; any other factor must itself be a multiple of pi, and only
/// one such factor may occur, unless it is zero, which settles the product.
/// A product that leaves 64 signed bits ends the walk without an answer.
pub open spec fn pi_step(multiplier: int, has_pi: bool, child: Expr) -> PiWalk
    decreases child, 1nat,
{
    match child {
        Expr::Num { val, .. } => {
            if val.den != 1 || !fits_i64(val.num) || !fits_i64(multiplier * val.num) {
                PiWalk::Stopped(None)
            } else {
                PiWalk::Going { multiplier: multiplier * val.num, has_pi }
            }
        },
        _ => match pi_multiplier(child) {
            None => PiWalk::Stopped(None),
            Some(m) => {
                if m == 0 {
                    PiWalk::Stopped(Some(0))
                } else if has_pi || !fits_i64(multiplier * m) {
                    PiWalk::Stopped(None)
                } else {
                    PiWalk::Going { multiplier: multiplier * m, has_pi: true }
                }
            },
        },
    }
}

/// The walk over the factors `s` from the left, starting at the multiplier
/// one without pi.
pub open spec fn pi_walk(s: Seq<Expr>) -> PiWalk
    decreases s, 1nat,
{
    if s.len() == 0 {
        PiWalk::Going { multiplier: 1, has_pi: false }
    } else {
        match pi_walk(s.drop_last()) {
            PiWalk::Stopped(r) => PiWalk::Stopped(r),
            PiWalk::Going { multiplier, has_pi } => pi_step(multiplier, has_pi, s.last()),
        }
    }
}

/// The integer `k` for which the expression is recognised as `k` times pi:
/// `pi` itself, `tau`, a literal zero, or a product of integer literals
/// with exactly one such factor.
pub open spec fn pi_multiplier(e: Expr) -> Option<int>
    decreases e, 0nat,
{
    match e {
        Expr::Const(ConstKind::Pi) => Some(1),
        Expr::Const(ConstKind::Tau) => Some(2),
        Expr::Num { val, .. } => if val.num == 0 {
            Some(0)
        } else {
            None
        },
        Expr::VarOp { kind: VarOpKind::Mul, children } => match pi_walk(children) {
            PiWalk::Stopped(r) => r,
            PiWalk::Going { multiplier, has_pi } => if has_pi {
                Some(multiplier)
            } else {
                None
            },
        },
        _ => None,
    }
}

/// Every recognised multiplier is representable in 64 signed bits.
pub proof fn lemma_pi_multiplier_fits(e: Expr)
    ensures
        pi_multiplier(e) matches Some(k) ==> fits_i64(k),
    decreases e, 0nat,
{
    match e {
        Expr::VarOp { kind: VarOpKind::Mul, children } => {
            lemma_pi_walk_fits(children);
        },
        _ => {},
    }
}

/// Every multiplier met on a walk is representable in 64 signed bits.
pub proof fn lemma_pi_walk_fits(s: Seq<Expr>)
    ensures
        pi_walk(s) matches PiWalk::Going { multiplier, .. } ==> fits_i64(multiplier),
        pi_walk(s) matches PiWalk::Stopped(Some(k)) ==> fits_i64(k),
    decreases s, 1nat,
{
    if s.len() > 0 {
        lemma_pi_walk_fits(s.drop_last());
        lemma_pi_walk_last(s);
    }
}

/// A walk over a non-empty sequence is the walk over all but the last
/// factor, followed by the step for the last.
pub proof fn lemma_pi_walk_last(s: Seq<Expr>)
    requires
        s.len() > 0,
    ensures
        pi_walk(s) == match pi_walk(s.drop_last()) {
            PiWalk::Stopped(r) => PiWalk::Stopped(r),
            PiWalk::Going { multiplier, has_pi } => {
                match s.last() {
                    Expr::Num { val, .. } => {
                        if val.den != 1 || !fits_i64(val.num) || !fits_i64(multiplier * val.num) {
                            PiWalk::Stopped(None)
                        } else {
                            PiWalk::Going { multiplier: multiplier * val.num, has_pi }
                        }
                    },
                    _ => match pi_multiplier(s.last()) {
                        None => PiWalk::Stopped(None),
                        Some(m) => {
                            if m == 0 {
                                PiWalk::Stopped(Some(0))
                            } else if has_pi || !fits_i64(multiplier * m) {
                                PiWalk::Stopped(None)
                            } else {
                                PiWalk::Going { multiplier: multiplier * m, has_pi: true }
                            }
                        },
                    },
                }
            },
        },
{
    reveal_with_fuel(pi_walk, 2);
    reveal_with_fuel(pi_step, 2);
}

impl Node {
    /// The integer `k` for which the tree is recognised as `k` times pi,
    /// if there is one.
    #[verifier::loop_isolation(false)]
    pub fn get_pi_multiplier(&self) -> (r: Option<i64>)
        ensures
            match r {
                Some(k) => pi_multiplier(self@) == Some(k as int),
                None => pi_multiplier(self@) is None,
            },
        decreases self,
    {
        match self {
            Node::Const(ConstKind::Pi) => Some(1),
            Node::Const(ConstKind::Tau) => Some(2),
            Node::Num { val, .. } => {
                if val.is_zero() {
                    Some(0)
                } else {
                    None
                }
            },
            Node::VarOp { children, kind: VarOpKind::Mul } => {
                proof {
                    Node::lemma_model_children(VarOpKind::Mul, *children);
                }
                let ghost all = models(children@);
                let mut multiplier: i64 = 1;
                let mut has_pi = false;
                let mut i: usize = 0;
                while i < children.len()
                    invariant
                        i <= children.len(),
                        pi_walk(all.take(i as int)) == (PiWalk::Going {
                            multiplier: multiplier as int,
                            has_pi,
                        }),
                    decreases children.len() - i,
                {
                    proof {
                        assert(all.take(i + 1).drop_last() =~= all.take(i as int));
                        assert(all.take(i + 1).last() == children@[i as int]@);
                        lemma_pi_walk_last(all.take(i + 1));
                    }
                    let c = &children[i];
                    if let Node::Num { val, .. } = c {
                        if !val.is_integer() {
                            proof {
                                lemma_pi_walk_stopped(all, i + 1);
                            }
                            return None;
                        }
                        let new = match val.numer_to_i64() {
                            Some(x) => multiplier.checked_mul(x),
                            None => None,
                        };
                        match new {
                            Some(x) => multiplier = x,
                            None => {
                                proof {
                                    lemma_pi_walk_stopped(all, i + 1);
                                }
                                return None;
                            },
                        }
                    } else if let Some(m) = c.get_pi_multiplier() {
                        if m == 0 {
                            proof {
                                lemma_pi_walk_stopped(all, i + 1);
                            }
                            return Some(0);
                        }
                        if has_pi {
                            proof {
                                lemma_pi_walk_stopped(all, i + 1);
                            }
                            return None;
                        }
                        let new = multiplier.checked_mul(m);
                        match new {
                            Some(x) => {
                                multiplier = x;
                                has_pi = true;
                            },
                            None => {
                                proof {
                                    lemma_pi_walk_stopped(all, i + 1);
                                }
                                return None;
                            },
                        }
                    } else {
                        proof {
                            lemma_pi_walk_stopped(all, i + 1);
                        }
                        return None;
                    }
                    i += 1;
                }
                proof {
                    assert(all.take(children.len() as int) =~= all);
                }
                if has_pi {
                    Some(multiplier)
                } else {
                    None
                }
            },
            _ => None,
        }
    }
}

/// Once a walk has stopped, further factors do not change its answer.
pub proof fn lemma_pi_walk_stopped(s: Seq<Expr>, n: int)
    requires
        0 <= n <= s.len(),
        pi_walk(s.take(n)) is Stopped,
    ensures
        pi_walk(s) == pi_walk(s.take(n)),
    decreases s.len() - n,
{
    if n < s.len() {
        assert(s.take(n + 1).drop_last() =~= s.take(n));
        lemma_pi_walk_stopped(s, n + 1);
    } else {
        assert(s.take(n) =~= s);
    }
}

} // verus!
