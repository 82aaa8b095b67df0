//! Rendering an expression as text, with parentheses only where the
//! priority of the operators asks for them.

use crate::expr::{ConstKind, Expr, TrigKind, VarOpKind};
use crate::node::{models, Node};
use crate::rational::fraction_text;
use vstd::prelude::*;
use vstd::string::StringExecFns;

verus! {

/// How tightly a node binds, from loosest to tightest.
#[derive(Debug, PartialEq, Eq, Structural, Hash, Clone, Copy)]
pub enum NodePriority {
    Add,
    Mul,
    Exp,
    Value,
}

impl NodePriority {
    /// The place of the priority in the order `Add < Mul < Exp < Value`.
    pub open spec fn level(self) -> nat {
        match self {
            NodePriority::Add => 0,
            NodePriority::Mul => 1,
            NodePriority::Exp => 2,
            NodePriority::Value => 3,
        }
    }

    /// The place of the priority in the order `Add < Mul < Exp < Value`.
    pub fn rank(self) -> (r: u8)
        ensures
            r == self.level(),
    {
        match self {
            NodePriority::Add => 0,
            NodePriority::Mul => 1,
            NodePriority::Exp => 2,
            NodePriority::Value => 3,
        }
    }
}

/// The priority of an operator kind.
pub open spec fn kind_priority(kind: VarOpKind) -> NodePriority {
    match kind {
        VarOpKind::Add => NodePriority::Add,
        VarOpKind::Mul => NodePriority::Mul,
    }
}

/// The priority of an expression.  Integers, constants and function
/// applications are values; a fraction binds like the division it is
/// written with.
pub open spec fn priority(e: Expr) -> NodePriority {
    match e {
        Expr::Const(_) => NodePriority::Value,
        Expr::Num { val, .. } => if val.den == 1 {
            NodePriority::Value
        } else {
            NodePriority::Mul
        },
        Expr::Inverse(_) => NodePriority::Mul,
        Expr::VarOp { kind, .. } => kind_priority(kind),
        Expr::Exp(_, _) => NodePriority::Exp,
        Expr::Trig(_, _) => NodePriority::Value,
    }
}

/// Whether `e` is put in parentheses under an operator of priority
/// `context`: when it binds more loosely, or, as an operand of a
/// right-associative operator, no more tightly.
pub open spec fn needs_paren(e: Expr, context: NodePriority, right_assoc: bool) -> bool {
    if right_assoc {
        priority(e).level() <= context.level()
    } else {
        priority(e).level() < context.level()
    }
}

/// The name of a constant.
pub open spec fn const_name(kind: ConstKind) -> Seq<char> {
    match kind {
        ConstKind::Pi => "pi"@,
        ConstKind::Tau => "tau"@,
        ConstKind::E => "e"@,
    }
}

/// The name of a trigonometric function.
pub open spec fn trig_name(kind: TrigKind) -> Seq<char> {
    match kind {
        TrigKind::Sin => "sin"@,
        TrigKind::Cos => "cos"@,
        TrigKind::Tan => "tan"@,
    }
}

/// The sign between two operands, with its spaces.
pub open spec fn separator(kind: VarOpKind) -> Seq<char> {
    match kind {
        VarOpKind::Add => " + "@,
        VarOpKind::Mul => " * "@,
    }
}

/// The text of an expression.
pub open spec fn render(e: Expr) -> Seq<char>
    decreases e, 0nat,
{
    match e {
        Expr::Const(kind) => const_name(kind),
        Expr::Num { val, .. } => fraction_text(val),
        Expr::Inverse(a) => "1/"@ + wrapped(*a, NodePriority::Mul, false, false),
        Expr::VarOp { kind, children } => render_operands(kind, children),
        Expr::Exp(a, b) => wrapped(*a, NodePriority::Exp, true, false) + "^"@ + wrapped(
            *b,
            NodePriority::Exp,
            true,
            false,
        ),
        Expr::Trig(kind, a) => trig_name(kind) + wrapped(*a, NodePriority::Value, false, true),
    }
}

/// The text of `e` as an operand: in parentheses where `needs_paren` says
/// so, otherwise bare, after a space if `needs_separation`.
pub open spec fn wrapped(
    e: Expr,
    context: NodePriority,
    right_assoc: bool,
    needs_separation: bool,
) -> Seq<char>
    decreases e, 1nat,
{
    if needs_paren(e, context, right_assoc) {
        "("@ + render(e) + ")"@
    } else if needs_separation {
        " "@ + render(e)
    } else {
        render(e)
    }
}

/// The text of an operand that is not the first: a division where a
/// product is multiplied by an inverse, otherwise the sign and the operand.
pub open spec fn later_operand(kind: VarOpKind, child: Expr) -> Seq<char>
    decreases child, 2nat,
{
    match child {
        Expr::Inverse(x) if kind == VarOpKind::Mul => " / "@ + wrapped(
            *x,
            NodePriority::Mul,
            false,
            false,
        ),
        _ => separator(kind) + wrapped(child, kind_priority(kind), false, false),
    }
}

/// The text of the operands of an operator, joined.
pub open spec fn render_operands(kind: VarOpKind, s: Seq<Expr>) -> Seq<char>
    decreases s, 2nat,
{
    if s.len() == 0 {
        Seq::empty()
    } else if s.len() == 1 {
        wrapped(s[0], kind_priority(kind), false, false)
    } else {
        render_operands(kind, s.drop_last()) + later_operand(kind, s.last())
    }
}

/// The priority of a tree.
pub fn get_node_priority(node: &Node) -> (r: NodePriority)
    ensures
        r == priority(node@),
{
    match node {
        Node::Const(_) => NodePriority::Value,
        Node::Num { val, .. } => {
            if val.is_integer() {
                NodePriority::Value
            } else {
                NodePriority::Mul
            }
        },
        Node::Inverse(_) => NodePriority::Mul,
        Node::VarOp { kind, .. } => match kind {
            VarOpKind::Add => NodePriority::Add,
            VarOpKind::Mul => NodePriority::Mul,
        },
        Node::Exp(_, _) => NodePriority::Exp,
        Node::Sin(_) | Node::Cos(_) | Node::Tan(_) => NodePriority::Value,
    }
}

/// Appends the text of `node` as an operand under priority `curr_prio`.
pub fn write_with_paren(
    f: &mut String,
    node: &Node,
    curr_prio: NodePriority,
    right_assoc: bool,
    needs_separation: bool,
)
    ensures
        final(f)@ == old(f)@ + wrapped(node@, curr_prio, right_assoc, needs_separation),
    decreases node, 1nat,
{
    let ghost start = f@;
    let needs_paren = if right_assoc {
        get_node_priority(node).rank() <= curr_prio.rank()
    } else {
        get_node_priority(node).rank() < curr_prio.rank()
    };
    if needs_paren {
        f.append("(");
    } else if needs_separation {
        f.append(" ");
    }
    node.fmt(f);
    if needs_paren {
        f.append(")");
    }
    proof {
        if needs_paren {
            assert(f@ =~= start + ("("@ + render(node@) + ")"@));
        } else if needs_separation {
            assert(f@ =~= start + (" "@ + render(node@)));
        }
    }
}

/// Appends the name of a function and its argument.
pub fn write_func(f: &mut String, name: &str, inner: &Node)
    ensures
        final(f)@ == old(f)@ + (name@ + wrapped(inner@, NodePriority::Value, false, true)),
    decreases inner, 2nat,
{
    let ghost start = f@;
    f.append(name);
    write_with_paren(f, inner, NodePriority::Value, false, true);
    assert(f@ =~= start + (name@ + wrapped(inner@, NodePriority::Value, false, true)));
}

impl Node {
    /// Appends the text of the tree to `f`.
    #[verifier::loop_isolation(false)]
    pub fn fmt(&self, f: &mut String)
        ensures
            final(f)@ == old(f)@ + render(self@),
        decreases self, 0nat,
    {
        let ghost start = f@;
        match self {
            Node::Const(kind) => match kind {
                ConstKind::Pi => f.append("pi"),
                ConstKind::Tau => f.append("tau"),
                ConstKind::E => f.append("e"),
            },
            Node::Num { val, input_base: _ } => {
                let text = val.to_text();
                f.append(text.as_str());
            },
            Node::Inverse(inner) => {
                f.append("1/");
                write_with_paren(f, inner, get_node_priority(self), false, false);
                assert(f@ =~= start + ("1/"@ + wrapped(inner@, NodePriority::Mul, false, false)));
            },
            Node::VarOp { kind, children } => {
                proof {
                    Node::lemma_model_children(*kind, *children);
                }
                let ghost all = models(children@);
                let mut i: usize = 0;
                assert(f@ =~= start + render_operands(*kind, all.take(0)));
                while i < children.len()
                    invariant
                        i <= children.len(),
                        f@ == start + render_operands(*kind, all.take(i as int)),
                    decreases children.len() - i,
                {
                    let child = &children[i];
                    let ghost before = f@;
                    proof {
                        assert(all.take(i + 1).drop_last() =~= all.take(i as int));
                        assert(all.take(i + 1).last() == child@);
                    }
                    if i > 0 {
                        let mut done = false;
                        if *kind == VarOpKind::Mul {
                            if let Node::Inverse(x) = child {
                                f.append(" / ");
                                write_with_paren(f, x, NodePriority::Mul, false, false);
                                done = true;
                                assert(f@ =~= before + later_operand(*kind, child@));
                            }
                        }
                        if !done {
                            match kind {
                                VarOpKind::Add => f.append(" + "),
                                VarOpKind::Mul => f.append(" * "),
                            }
                            write_with_paren(f, child, get_node_priority(self), false, false);
                            assert(f@ =~= before + later_operand(*kind, child@));
                        }
                        assert(f@ =~= start + render_operands(*kind, all.take(i + 1)));
                    } else {
                        write_with_paren(f, child, get_node_priority(self), false, false);
                        assert(all.take(1)[0] == child@);
                        assert(before =~= start);
                    }
                    i += 1;
                }
                assert(all.take(children.len() as int) =~= all);
            },
            Node::Exp(a, b) => {
                write_with_paren(f, a, NodePriority::Exp, true, false);
                f.append("^");
                write_with_paren(f, b, NodePriority::Exp, true, false);
                assert(f@ =~= start + (wrapped(a@, NodePriority::Exp, true, false) + "^"@ + wrapped(
                    b@,
                    NodePriority::Exp,
                    true,
                    false,
                )));
            },
            Node::Sin(inner) => write_func(f, "sin", inner),
            Node::Cos(inner) => write_func(f, "cos", inner),
            Node::Tan(inner) => write_func(f, "tan", inner),
        }
    }

    /// The text of the tree.
    pub fn render(&self) -> (r: String)
        ensures
            r@ == render(self@),
    {
        let mut out = String::new();
        self.fmt(&mut out);
        assert(out@ =~= render(self@));
        out
    }
}

} // verus!
