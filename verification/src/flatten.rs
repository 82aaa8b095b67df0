//! Associative flattening: the operands of an operator with every nested
//! operator of the same kind expanded, level by level.

use crate::expr::{total_size, Expr, VarOpKind};
use crate::node::{lemma_models_push, lemma_ref_models_push, models, ref_models, Node};
use vstd::prelude::*;

verus! {

/// The members of `s` that are not operators of kind `kind`, in order.
pub open spec fn terminals(s: Seq<Expr>, kind: VarOpKind) -> Seq<Expr>
    decreases s.len(),
{
    if s.len() == 0 {
        Seq::empty()
    } else if s.last().is_var_op_of(kind) {
        terminals(s.drop_last(), kind)
    } else {
        terminals(s.drop_last(), kind).push(s.last())
    }
}

/// The operands of the members of `s` that are operators of kind `kind`,
/// in order.
pub open spec fn expansions(s: Seq<Expr>, kind: VarOpKind) -> Seq<Expr>
    decreases s.len(),
{
    if s.len() == 0 {
        Seq::empty()
    } else if s.last().is_var_op_of(kind) {
        expansions(s.drop_last(), kind) + s.last()->VarOp_children
    } else {
        expansions(s.drop_last(), kind)
    }
}

/// `s` with every operator of kind `kind` replaced by its operands, to any
/// depth.  The result lists the terminals of `s` first, then those one level
/// down, and so on.
pub open spec fn flatten(s: Seq<Expr>, kind: VarOpKind) -> Seq<Expr>
    decreases total_size(s),
{
    if s.len() == 0 {
        Seq::empty()
    } else {
        proof {
            lemma_partition_size(s, kind);
        }
        terminals(s, kind) + flatten(expansions(s, kind), kind)
    }
}

/// The size of a concatenation is the sum of the sizes.
pub proof fn lemma_total_size_concat(a: Seq<Expr>, b: Seq<Expr>)
    ensures
        total_size(a + b) == total_size(a) + total_size(b),
    decreases b.len(),
{
    if b.len() == 0 {
        assert(a + b =~= a);
    } else {
        assert((a + b).drop_last() =~= a + b.drop_last());
        assert((a + b).last() == b.last());
        lemma_total_size_concat(a, b.drop_last());
    }
}

/// Appending one expression adds its size.
pub proof fn lemma_total_size_push(s: Seq<Expr>, x: Expr)
    ensures
        total_size(s.push(x)) == total_size(s) + x.size(),
{
    assert(s.push(x).drop_last() =~= s);
}

/// No member of a sequence is larger than the sequence.
pub proof fn lemma_member_size(s: Seq<Expr>, i: int)
    requires
        0 <= i < s.len(),
    ensures
        s[i].size() <= total_size(s),
    decreases s.len(),
{
    if i < s.len() - 1 {
        lemma_member_size(s.drop_last(), i);
    }
}

/// Splitting into terminals and expansions loses no node but the expanded
/// operators themselves, so a non-empty sequence shrinks when expanded.
pub proof fn lemma_partition_size(s: Seq<Expr>, kind: VarOpKind)
    ensures
        total_size(terminals(s, kind)) + total_size(expansions(s, kind)) <= total_size(s),
        s.len() > 0 ==> total_size(expansions(s, kind)) < total_size(s),
    decreases s.len(),
{
    if s.len() > 0 {
        let p = s.drop_last();
        let x = s.last();
        lemma_partition_size(p, kind);
        if x.is_var_op_of(kind) {
            lemma_total_size_concat(expansions(p, kind), x->VarOp_children);
            assert(x.size() == 1 + total_size(x->VarOp_children));
        } else {
            lemma_total_size_push(terminals(p, kind), x);
            assert(x.size() >= 1);
        }
    }
}

/// Flattening adds no node.
pub proof fn lemma_flatten_size(s: Seq<Expr>, kind: VarOpKind)
    ensures
        total_size(flatten(s, kind)) <= total_size(s),
    decreases total_size(s),
{
    if s.len() > 0 {
        lemma_partition_size(s, kind);
        lemma_flatten_size(expansions(s, kind), kind);
        lemma_total_size_concat(terminals(s, kind), flatten(expansions(s, kind), kind));
    }
}

/// No terminal is an operator of the kind.
pub proof fn lemma_terminals_flat(s: Seq<Expr>, kind: VarOpKind)
    ensures
        forall|i: int|
            0 <= i < terminals(s, kind).len() ==> !(#[trigger] terminals(s, kind)[i]).is_var_op_of(
                kind,
            ),
    decreases s.len(),
{
    if s.len() > 0 {
        let p = s.drop_last();
        lemma_terminals_flat(p, kind);
        assert forall|i: int| 0 <= i < terminals(s, kind).len() implies !(#[trigger] terminals(
            s,
            kind,
        )[i]).is_var_op_of(kind) by {
            if i < terminals(p, kind).len() {
                assert(terminals(s, kind)[i] == terminals(p, kind)[i]);
            }
        }
    }
}

/// A flattened sequence holds no operator of the kind.
pub proof fn lemma_flatten_flat(s: Seq<Expr>, kind: VarOpKind)
    ensures
        forall|i: int|
            0 <= i < flatten(s, kind).len() ==> !(#[trigger] flatten(s, kind)[i]).is_var_op_of(kind),
    decreases total_size(s),
{
    if s.len() > 0 {
        lemma_partition_size(s, kind);
        lemma_terminals_flat(s, kind);
        let rest = flatten(expansions(s, kind), kind);
        lemma_flatten_flat(expansions(s, kind), kind);
        assert forall|i: int| 0 <= i < flatten(s, kind).len() implies !(#[trigger] flatten(
            s,
            kind,
        )[i]).is_var_op_of(kind) by {
            if i < terminals(s, kind).len() {
                assert(flatten(s, kind)[i] == terminals(s, kind)[i]);
            } else {
                assert(flatten(s, kind)[i] == rest[i - terminals(s, kind).len()]);
            }
        }
    }
}

/// Whatever holds of every member of `s`, and of the operands of every
/// operator of the kind of which it holds, holds of every member of the
/// flattened sequence.
pub proof fn lemma_flatten_preserves(s: Seq<Expr>, kind: VarOpKind, p: spec_fn(Expr) -> bool)
    requires
        forall|i: int| 0 <= i < s.len() ==> p(#[trigger] s[i]),
        forall|e: Expr, i: int|
            p(e) && e.is_var_op_of(kind) && 0 <= i < e->VarOp_children.len() ==> p(
                #[trigger] e->VarOp_children[i],
            ),
    ensures
        forall|i: int| 0 <= i < flatten(s, kind).len() ==> p(#[trigger] flatten(s, kind)[i]),
    decreases total_size(s),
{
    if s.len() > 0 {
        lemma_partition_size(s, kind);
        lemma_partition_preserves(s, kind, p);
        lemma_flatten_preserves(expansions(s, kind), kind, p);
        let out = flatten(s, kind);
        let front = terminals(s, kind);
        let back = flatten(expansions(s, kind), kind);
        assert forall|i: int| 0 <= i < out.len() implies p(#[trigger] out[i]) by {
            if i < front.len() {
                assert(out[i] == front[i]);
            } else {
                assert(out[i] == back[i - front.len()]);
            }
        }
    }
}

/// The same for one level: the terminals and the expansions.
pub proof fn lemma_partition_preserves(s: Seq<Expr>, kind: VarOpKind, p: spec_fn(Expr) -> bool)
    requires
        forall|i: int| 0 <= i < s.len() ==> p(#[trigger] s[i]),
        forall|e: Expr, i: int|
            p(e) && e.is_var_op_of(kind) && 0 <= i < e->VarOp_children.len() ==> p(
                #[trigger] e->VarOp_children[i],
            ),
    ensures
        forall|i: int| 0 <= i < terminals(s, kind).len() ==> p(#[trigger] terminals(s, kind)[i]),
        forall|i: int| 0 <= i < expansions(s, kind).len() ==> p(#[trigger] expansions(s, kind)[i]),
    decreases s.len(),
{
    if s.len() > 0 {
        let front = s.drop_last();
        let x = s.last();
        assert forall|i: int| 0 <= i < front.len() implies p(#[trigger] front[i]) by {
            assert(front[i] == s[i]);
        }
        assert(x == s[s.len() - 1]);
        lemma_partition_preserves(front, kind, p);
        let kept = terminals(s, kind);
        let opened = expansions(s, kind);
        if x.is_var_op_of(kind) {
            let before = expansions(front, kind);
            assert(kept == terminals(front, kind));
            assert forall|i: int| 0 <= i < opened.len() implies p(#[trigger] opened[i]) by {
                if i < before.len() {
                    assert(opened[i] == before[i]);
                } else {
                    assert(opened[i] == x->VarOp_children[i - before.len()]);
                }
            }
        } else {
            let before = terminals(front, kind);
            assert(opened == expansions(front, kind));
            assert forall|i: int| 0 <= i < kept.len() implies p(#[trigger] kept[i]) by {
                if i < before.len() {
                    assert(kept[i] == before[i]);
                }
            }
        }
        assert forall|i: int| 0 <= i < kept.len() implies p(#[trigger] kept[i]) by {}
        assert forall|i: int| 0 <= i < opened.len() implies p(#[trigger] opened[i]) by {}
    }
}

/// A sequence without operators of the kind is its own flattening.
pub proof fn lemma_flatten_of_flat(s: Seq<Expr>, kind: VarOpKind)
    requires
        forall|i: int| 0 <= i < s.len() ==> !(#[trigger] s[i]).is_var_op_of(kind),
    ensures
        terminals(s, kind) == s,
        expansions(s, kind) == Seq::<Expr>::empty(),
        flatten(s, kind) == s,
    decreases s.len(),
{
    if s.len() > 0 {
        let p = s.drop_last();
        lemma_flatten_of_flat(p, kind);
        assert(p.push(s.last()) =~= s);
        assert(flatten(expansions(s, kind), kind) =~= Seq::<Expr>::empty());
        assert(terminals(s, kind) + Seq::<Expr>::empty() =~= s);
    }
}

/// Borrows of the operands of an operator, flattened.
pub(crate) fn flatten_refs<'a>(children: &'a Vec<Node>, op_kind: VarOpKind) -> (result: Vec<&'a Node>)
    ensures
        ref_models(result@) == flatten(models(children@), op_kind),
{
    let mut result: Vec<&'a Node> = Vec::new();
    let mut remaining: Vec<&'a Node> = Vec::new();
    let mut i: usize = 0;
    while i < children.len()
        invariant
            i <= children.len(),
            ref_models(remaining@) == models(children@).take(i as int),
        decreases children.len() - i,
    {
        proof {
            lemma_ref_models_push(remaining@, &children[i as int]);
            assert(models(children@).take(i + 1) =~= models(children@).take(i as int).push(
                children[i as int]@,
            ));
        }
        remaining.push(&children[i]);
        i += 1;
    }
    assert(models(children@).take(children.len() as int) =~= models(children@));
    assert(ref_models(result@) =~= Seq::<Expr>::empty());
    assert(ref_models(result@) + flatten(ref_models(remaining@), op_kind) =~= flatten(
        models(children@),
        op_kind,
    ));
    while remaining.len() > 0
        invariant
            ref_models(result@) + flatten(ref_models(remaining@), op_kind) == flatten(
                models(children@),
                op_kind,
            ),
        decreases total_size(ref_models(remaining@)),
    {
        let ghost round = ref_models(remaining@);
        let ghost before = ref_models(result@);
        let mut next: Vec<&'a Node> = Vec::new();
        let mut j: usize = 0;
        assert(round.take(0) =~= Seq::<Expr>::empty());
        assert(ref_models(next@) =~= Seq::<Expr>::empty());
        assert(before + Seq::<Expr>::empty() =~= before);
        while j < remaining.len()
            invariant
                j <= remaining.len(),
                round == ref_models(remaining@),
                ref_models(result@) == before + terminals(round.take(j as int), op_kind),
                ref_models(next@) == expansions(round.take(j as int), op_kind),
            decreases remaining.len() - j,
        {
            let child: &'a Node = remaining[j];
            let ghost head = round.take(j as int);
            assert(round.take(j + 1).drop_last() =~= head);
            assert(round.take(j + 1).last() == child@);
            match child {
                Node::VarOp { kind, children: sub_children } if *kind == op_kind => {
                    proof {
                        Node::lemma_model_children(*kind, *sub_children);
                    }
                    let ghost subs = models(sub_children@);
                    let ghost start = ref_models(next@);
                    let mut k: usize = 0;
                    assert(start + subs.take(0) =~= start);
                    while k < sub_children.len()
                        invariant
                            k <= sub_children.len(),
                            subs == models(sub_children@),
                            ref_models(next@) == start + subs.take(k as int),
                        decreases sub_children.len() - k,
                    {
                        proof {
                            lemma_ref_models_push(next@, &sub_children[k as int]);
                            assert(start + subs.take(k + 1) =~= (start + subs.take(k as int)).push(
                                sub_children[k as int]@,
                            ));
                        }
                        next.push(&sub_children[k]);
                        k += 1;
                    }
                    assert(subs.take(sub_children.len() as int) =~= subs);
                },
                _ => {
                    proof {
                        lemma_ref_models_push(result@, child);
                    }
                    result.push(child);
                    assert((before + terminals(head, op_kind)).push(child@) =~= before
                        + terminals(head, op_kind).push(child@));
                },
            }
            j += 1;
        }
        proof {
            assert(round.take(remaining.len() as int) =~= round);
            lemma_partition_size(round, op_kind);
            assert(before + terminals(round, op_kind) + flatten(expansions(round, op_kind), op_kind)
                =~= before + (terminals(round, op_kind) + flatten(
                expansions(round, op_kind),
                op_kind,
            )));
        }
        remaining = next;
    }
    assert(ref_models(result@) + Seq::<Expr>::empty() =~= ref_models(result@));
    result
}

impl Node {
    /// The operands of an operator of kind `op_kind`, with every nested
    /// operator of the same kind replaced by its own operands: `(1 + (2 +
    /// 3)) + 4` has the operands `4, 1, 2, 3`.
    pub fn deep_flatten_children(children: &Vec<Node>, op_kind: VarOpKind) -> (result: Vec<Node>)
        ensures
            models(result@) == flatten(models(children@), op_kind),
    {
        let flat = flatten_refs(children, op_kind);
        let mut result: Vec<Node> = Vec::new();
        let mut i: usize = 0;
        while i < flat.len()
            invariant
                i <= flat.len(),
                models(result@) == ref_models(flat@).take(i as int),
            decreases flat.len() - i,
        {
            let copy = flat[i].duplicate();
            proof {
                lemma_models_push(result@, copy);
                assert(ref_models(flat@).take(i + 1) =~= ref_models(flat@).take(i as int).push(
                    copy@,
                ));
            }
            result.push(copy);
            i += 1;
        }
        assert(ref_models(flat@).take(flat.len() as int) =~= ref_models(flat@));
        result
    }
}

} // verus!
