//! The mathematical model of an expression tree.
//!
//! [`Expr`] is what a [`crate::node::Node`] denotes: the same tree with
//! sequences for child lists and fractions for literals.  Every contract of
//! the library is stated over it.

use crate::rational::Fraction;
use vstd::prelude::*;

verus! {

/// A named mathematical constant.
#[derive(Debug, PartialEq, Eq, Structural, Hash, Clone, Copy)]
pub enum ConstKind {
    Pi,
    Tau,
    E,
}

/// An associative operator that takes any number of operands.
#[derive(Debug, PartialEq, Eq, Structural, Hash, Clone, Copy)]
pub enum VarOpKind {
    Add,
    Mul,
}

/// A trigonometric function of one argument.
#[derive(Debug, PartialEq, Eq, Structural, Hash, Clone, Copy)]
pub enum TrigKind {
    Sin,
    Cos,
    Tan,
}

/// An expression tree as a mathematical value.
pub enum Expr {
    Const(ConstKind),
    Num { val: Fraction, input_base: Option<u32> },
    Inverse(Box<Expr>),
    VarOp { kind: VarOpKind, children: Seq<Expr> },
    Exp(Box<Expr>, Box<Expr>),
    Trig(TrigKind, Box<Expr>),
}

impl Expr {
    /// The literal `0` without a base hint.
    pub open spec fn zero() -> Expr {
        Expr::Num { val: Fraction::zero(), input_base: None }
    }

    /// The literal `1` without a base hint.
    pub open spec fn one() -> Expr {
        Expr::Num { val: Fraction::one(), input_base: None }
    }

    /// The literal `-1` without a base hint.
    pub open spec fn minus_one() -> Expr {
        Expr::Num { val: Fraction::minus_one(), input_base: None }
    }

    /// The operator `kind` applied to exactly two operands.
    pub open spec fn op(kind: VarOpKind, a: Expr, b: Expr) -> Expr {
        Expr::VarOp { kind, children: seq![a, b] }
    }

    /// `a + b`.
    pub open spec fn sum(a: Expr, b: Expr) -> Expr {
        Expr::op(VarOpKind::Add, a, b)
    }

    /// `a * b`.
    pub open spec fn product(a: Expr, b: Expr) -> Expr {
        Expr::op(VarOpKind::Mul, a, b)
    }

    /// `-1 * inner`.
    pub open spec fn opposite(inner: Expr) -> Expr {
        Expr::product(Expr::minus_one(), inner)
    }

    /// `a + -1 * b`.
    pub open spec fn difference(a: Expr, b: Expr) -> Expr {
        Expr::sum(a, Expr::opposite(b))
    }

    /// `a * 1/b`.
    pub open spec fn quotient(a: Expr, b: Expr) -> Expr {
        Expr::product(a, Expr::Inverse(Box::new(b)))
    }

    /// Whether the expression is an operator node of the given kind.
    pub open spec fn is_var_op_of(self, kind: VarOpKind) -> bool {
        self matches Expr::VarOp { kind: k, .. } && k == kind
    }

    /// Number of nodes of the tree.
    pub open spec fn size(self) -> nat
        decreases self,
    {
        match self {
            Expr::Const(_) => 1,
            Expr::Num { .. } => 1,
            Expr::Inverse(a) => 1 + a.size(),
            Expr::VarOp { children, .. } => 1 + total_size(children),
            Expr::Exp(a, b) => 1 + a.size() + b.size(),
            Expr::Trig(_, a) => 1 + a.size(),
        }
    }
}

/// Number of nodes of all the trees of a sequence together.
pub open spec fn total_size(s: Seq<Expr>) -> nat
    decreases s,
{
    if s.len() == 0 {
        0
    } else {
        total_size(s.drop_last()) + s.last().size()
    }
}

/// Every tree has at least one node.
pub proof fn lemma_size_positive(e: Expr)
    ensures
        e.size() >= 1,
{
}

impl VarOpKind {
    /// The operator's neutral element: `0` for `Add`, `1` for `Mul`.
    pub open spec fn identity(self) -> Fraction {
        match self {
            VarOpKind::Add => Fraction::zero(),
            VarOpKind::Mul => Fraction::one(),
        }
    }

    /// The operator applied to two fractions.
    pub open spec fn combine(self, x: Fraction, y: Fraction) -> Fraction {
        match self {
            VarOpKind::Add => x.plus(y),
            VarOpKind::Mul => x.times(y),
        }
    }

    /// `count` occurrences of `term` under the operator, as one expression:
    /// `term * count` for `Add`, `term ^ count` for `Mul`.
    pub open spec fn compressed(self, term: Expr, count: Expr) -> Expr {
        match self {
            VarOpKind::Add => Expr::product(term, count),
            VarOpKind::Mul => Expr::Exp(Box::new(term), Box::new(count)),
        }
    }
}

} // verus!
