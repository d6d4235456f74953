//! Laws of AST construction, proved against the model in [`crate::ast`]:
//! leaf passthrough, binary composition, tier ordering, unary prefix
//! wrapping, and left-associativity within a tier.

use vstd::prelude::*;
use crate::ast::{spec_build, spec_bucket, spec_climb, spec_reduce_tier, spec_reduced, same_shape};
use crate::ast::{spec_consume, spec_reduce_at, spec_set_left, AstError};
use crate::nodes::{is_leaf_classification, Classification, Node};
use crate::table::{spec_fixity, takes_left};

verus! {

/// The initial flat doubly linked chain a grouping front end produces for
/// one expression segment: node `i` points at `i - 1` and `i + 1`, and no
/// parent is set.
pub open spec fn is_flat_chain(nodes: Seq<Node>) -> bool {
    forall|i: int|
        0 <= i < nodes.len() ==> {
            &&& (#[trigger] nodes[i]).left == (if i == 0 {
                None::<usize>
            } else {
                Some((i - 1) as usize)
            })
            &&& nodes[i].right == (if i == nodes.len() - 1 {
                None::<usize>
            } else {
                Some((i + 1) as usize)
            })
            &&& nodes[i].parent is None
        }
}

/// Leaf passthrough: a single node of any leaf classification is returned
/// unchanged, and is its own root, whatever its token holds.
pub proof fn lemma_leaf_passthrough(nodes: Seq<Node>, subs: Seq<usize>)
    requires
        nodes.len() == 1,
        is_flat_chain(nodes),
        is_leaf_classification(nodes[0].classification),
        subs.len() > 0,
        subs[0] < 1,
    ensures
        spec_build(nodes, subs) == Ok::<(Seq<Node>, int), AstError>((nodes, 0int)),
{
    lemma_bucket_all_leaves(nodes, 0);
    lemma_bucket_all_leaves(nodes, 1);
    lemma_bucket_all_leaves(nodes, 2);
    assert(spec_reduce_tier(nodes, Seq::<usize>::empty(), spec_fixity(0)) == Some(nodes));
    assert(spec_reduce_tier(nodes, Seq::<usize>::empty(), spec_fixity(1)) == Some(nodes));
    assert(spec_reduce_tier(nodes, Seq::<usize>::empty(), spec_fixity(2)) == Some(nodes));
    assert(spec_reduced(nodes) == Some(nodes));
    assert(spec_climb(nodes, 0, 1nat) == Some(0int));
}

/// With a single operator at `op` of tier `t`, tier `t`'s bucket is exactly
/// that index and every other tier's bucket is empty.
proof fn lemma_buckets_single_op(nodes: Seq<Node>, op: int, t: int)
    requires
        0 <= op < nodes.len(),
        0 <= t < 3,
        forall|i: int|
            0 <= i < nodes.len() && i != op ==> is_leaf_classification(
                (#[trigger] nodes[i]).classification,
            ),
        crate::table::spec_tier(nodes[op].classification) == Some(t),
    ensures
        spec_bucket(nodes, t) == seq![op as usize],
        forall|u: int| 0 <= u < 3 && u != t ==> spec_bucket(nodes, u) =~= Seq::<usize>::empty(),
{
    assert forall|u: int| 0 <= u < 3 implies spec_bucket(nodes, u) =~= (if u == t {
        seq![op as usize]
    } else {
        Seq::<usize>::empty()
    }) by {
        lemma_bucket_single_op_one(nodes, op, t, u);
    }
    assert(spec_bucket(nodes, t) =~= seq![op as usize]);
}

/// Helper for one tier: with a single operator at `op`, its tier's bucket is
/// exactly that index and every other tier's bucket is empty.
proof fn lemma_bucket_single_op_one(nodes: Seq<Node>, op: int, t: int, u: int)
    requires
        0 <= op < nodes.len(),
        forall|i: int|
            0 <= i < nodes.len() && i != op ==> is_leaf_classification(
                (#[trigger] nodes[i]).classification,
            ),
        crate::table::spec_tier(nodes[op].classification) == Some(t),
    ensures
        spec_bucket(nodes, u) =~= (if u == t {
            seq![op as usize]
        } else {
            Seq::<usize>::empty()
        }),
    decreases nodes.len(),
{
    if nodes.len() == 0 {
    } else {
        let last = nodes.len() - 1;
        if op < last {
            lemma_bucket_single_op_one(nodes.drop_last(), op, t, u);
            assert(is_leaf_classification(nodes[last].classification));
        } else {
            lemma_bucket_all_leaves(nodes.drop_last(), u);
        }
    }
}

/// A run of leaves contributes nothing to any bucket.
proof fn lemma_bucket_all_leaves(nodes: Seq<Node>, u: int)
    requires
        forall|i: int|
            0 <= i < nodes.len() ==> is_leaf_classification(
                (#[trigger] nodes[i]).classification,
            ),
    ensures
        spec_bucket(nodes, u) =~= Seq::<usize>::empty(),
    decreases nodes.len(),
{
    if nodes.len() > 0 {
        lemma_bucket_all_leaves(nodes.drop_last(), u);
    }
}

/// With exactly two operators at `op1 < op2`, of tiers `t1` and `t2`, tier
/// `u`'s bucket holds their indices in left-to-right order, each if and only
/// if it belongs to `u`.
proof fn lemma_bucket_two_ops_one(nodes: Seq<Node>, op1: int, op2: int, t1: int, t2: int, u: int)
    requires
        0 <= op1 < op2 < nodes.len(),
        forall|i: int|
            0 <= i < nodes.len() && i != op1 && i != op2 ==> is_leaf_classification(
                (#[trigger] nodes[i]).classification,
            ),
        crate::table::spec_tier(nodes[op1].classification) == Some(t1),
        crate::table::spec_tier(nodes[op2].classification) == Some(t2),
    ensures
        spec_bucket(nodes, u) =~= (if t1 == u && t2 == u {
            seq![op1 as usize, op2 as usize]
        } else if t1 == u {
            seq![op1 as usize]
        } else if t2 == u {
            seq![op2 as usize]
        } else {
            Seq::<usize>::empty()
        }),
    decreases nodes.len(),
{
    let last = nodes.len() - 1;
    if op2 == last {
        lemma_bucket_single_op_one(nodes.drop_last(), op1, t1, u);
    } else {
        lemma_bucket_two_ops_one(nodes.drop_last(), op1, op2, t1, t2, u);
    }
}

/// Binary composition: for `A op B` with one binary operator (`Decimal` or
/// `Access`) between two literals, the operator becomes the root, keeps `A`
/// and `B` as left and right children, and both operands report it as their
/// parent with their own chain links cleared.
pub proof fn lemma_binary_composition(nodes: Seq<Node>, subs: Seq<usize>)
    requires
        nodes.len() == 3,
        is_flat_chain(nodes),
        nodes[0].classification == Classification::Literal,
        nodes[2].classification == Classification::Literal,
        nodes[1].classification == Classification::Decimal || nodes[1].classification
            == Classification::Access,
        subs.len() > 0,
        subs[0] < 3,
    ensures
        spec_build(nodes, subs) matches Ok(built) && ({
            let out = built.0;
            &&& built.1 == 1
            &&& out.len() == 3
            &&& out[1].left == Some(0usize)
            &&& out[1].right == Some(2usize)
            &&& out[1].parent is None
            &&& out[0].parent == Some(1usize)
            &&& out[0].left is None
            &&& out[0].right is None
            &&& out[2].parent == Some(1usize)
            &&& out[2].left is None
            &&& out[2].right is None
            &&& same_shape(nodes, out)
        }),
{
    let t: int = if nodes[1].classification == Classification::Decimal {
        0
    } else {
        1
    };
    lemma_buckets_single_op(nodes, 1, t);
    let f = spec_fixity(t);
    let s = spec_reduce_at(nodes, 1, f)->0;
    assert(spec_reduce_at(nodes, 1, f) is Some);
    assert(seq![1usize].skip(1) =~= Seq::<usize>::empty());
    assert(spec_reduce_tier(nodes, Seq::<usize>::empty(), spec_fixity(0)) == Some(nodes));
    assert(spec_reduce_tier(s, Seq::<usize>::empty(), spec_fixity(1)) == Some(s));
    assert(spec_reduce_tier(s, Seq::<usize>::empty(), spec_fixity(2)) == Some(s));
    assert(spec_reduce_tier(nodes, seq![1usize], f) == Some(s));
    assert(spec_reduced(nodes) == Some(s));
    assert(s[1].parent is None);
    assert(spec_climb(s, 1, 2nat) == Some(1int));
    if subs[0] == 0 {
        assert(spec_climb(s, 0, 3nat) == Some(1int));
    } else if subs[0] == 2 {
        assert(spec_climb(s, 2, 3nat) == Some(1int));
    }
}

/// Unary prefix wrapping: for `op A` with a prefix operator (`Negation`,
/// `AbsoluteValue` or `Not`) before a literal, the operator becomes the
/// root, takes no left child, keeps `A` as its right child, and `A` reports
/// it as parent with its own links cleared.
pub proof fn lemma_unary_prefix_wrapping(nodes: Seq<Node>, subs: Seq<usize>)
    requires
        nodes.len() == 2,
        is_flat_chain(nodes),
        nodes[0].classification == Classification::Negation || nodes[0].classification
            == Classification::AbsoluteValue || nodes[0].classification == Classification::Not,
        nodes[1].classification == Classification::Literal,
        subs.len() > 0,
        subs[0] < 2,
    ensures
        spec_build(nodes, subs) matches Ok(built) && ({
            let out = built.0;
            &&& built.1 == 0
            &&& out.len() == 2
            &&& out[0].left is None
            &&& out[0].right == Some(1usize)
            &&& out[0].parent is None
            &&& out[1].parent == Some(0usize)
            &&& out[1].left is None
            &&& out[1].right is None
            &&& same_shape(nodes, out)
        }),
{
    lemma_buckets_single_op(nodes, 0, 2);
    let f = spec_fixity(2);
    let s = spec_reduce_at(nodes, 0, f)->0;
    assert(spec_reduce_at(nodes, 0, f) is Some);
    assert(seq![0usize].skip(1) =~= Seq::<usize>::empty());
    assert(spec_reduce_tier(nodes, Seq::<usize>::empty(), spec_fixity(0)) == Some(nodes));
    assert(spec_reduce_tier(nodes, Seq::<usize>::empty(), spec_fixity(1)) == Some(nodes));
    assert(spec_reduce_tier(s, Seq::<usize>::empty(), spec_fixity(2)) == Some(s));
    assert(spec_reduce_tier(nodes, seq![0usize], f) == Some(s));
    assert(spec_reduced(nodes) == Some(s));
    assert(s[0].parent is None);
    assert(spec_climb(s, 0, 2nat) == Some(0int));
    if subs[0] == 1 {
        assert(spec_climb(s, 0, 1nat) == Some(0int));
        assert(spec_climb(s, 1, 2nat) == Some(0int));
    }
}

/// Literal detachment: in a chain with at most one operator, every literal
/// that ends up with a parent ends up with both of its own chain links
/// cleared, whatever the chain's length and wherever the operator stands.
/// (With several operators this holds of well-formed expressions — the
/// concrete-shape laws above state it for their inputs — but not of every
/// chain the input contract admits: an operator's stale neighbor pointer
/// into an already consumed literal can be spliced back in.)
pub proof fn lemma_literal_detachment(nodes: Seq<Node>, op: int)
    requires
        is_flat_chain(nodes),
        nodes.len() <= usize::MAX,
        0 <= op < nodes.len(),
        forall|i: int|
            0 <= i < nodes.len() && i != op ==> is_leaf_classification(
                (#[trigger] nodes[i]).classification,
            ),
    ensures
        match spec_reduced(nodes) {
            Some(out) => forall|i: int|
                0 <= i < out.len() && (#[trigger] out[i]).classification
                    == Classification::Literal && out[i].parent is Some ==> out[i].left is None
                    && out[i].right is None,
            None => true,
        },
{
    let c = nodes[op].classification;
    if is_leaf_classification(c) {
        lemma_bucket_all_leaves(nodes, 0);
        lemma_bucket_all_leaves(nodes, 1);
        lemma_bucket_all_leaves(nodes, 2);
        assert(spec_reduce_tier(nodes, Seq::<usize>::empty(), spec_fixity(0)) == Some(nodes));
        assert(spec_reduce_tier(nodes, Seq::<usize>::empty(), spec_fixity(1)) == Some(nodes));
        assert(spec_reduce_tier(nodes, Seq::<usize>::empty(), spec_fixity(2)) == Some(nodes));
        assert(spec_reduced(nodes) == Some(nodes));
    } else {
        let t = crate::table::spec_tier(c)->0;
        lemma_bucket_single_op_one(nodes, op, t, 0);
        lemma_bucket_single_op_one(nodes, op, t, 1);
        lemma_bucket_single_op_one(nodes, op, t, 2);
        let f = spec_fixity(t);
        assert(t == 0 || t == 1 || t == 2);
        assert(t != 2 ==> f == crate::table::Fixity::Binary && takes_left(f)
            && crate::table::takes_right(f));
        assert(t == 2 ==> f == crate::table::Fixity::UnaryPrefix && !takes_left(f)
            && crate::table::takes_right(f));
        assert(seq![op as usize].skip(1) =~= Seq::<usize>::empty());
        assert(spec_reduce_tier(nodes, Seq::<usize>::empty(), spec_fixity(0)) == Some(nodes));
        assert(spec_reduce_tier(nodes, Seq::<usize>::empty(), spec_fixity(1)) == Some(nodes));
        assert(spec_reduce_tier(nodes, Seq::<usize>::empty(), spec_fixity(2)) == Some(nodes));
        match spec_reduce_at(nodes, op as usize, f) {
            Some(s) => {
                assert(spec_reduce_tier(s, Seq::<usize>::empty(), spec_fixity(1)) == Some(s));
                assert(spec_reduce_tier(s, Seq::<usize>::empty(), spec_fixity(2)) == Some(s));
                assert(spec_reduce_tier(nodes, seq![op as usize], f) == Some(s));
                if t == 0 {
                    assert(spec_reduced(nodes) == Some(s));
                } else if t == 1 {
                    assert(spec_reduced(nodes) == Some(s));
                } else {
                    assert(spec_reduced(nodes) == Some(s));
                }
                assert(op < nodes.len() - 1);
                let consumed_left = if takes_left(f) {
                    spec_consume(nodes, op - 1, op as usize)
                } else {
                    nodes
                };
                let new_right = consumed_left[op + 1].right;
                let consumed_right = spec_consume(consumed_left, op + 1, op as usize);
                assert(consumed_left[op + 1] == nodes[op + 1]);
                assert(new_right == (if op + 1 == nodes.len() - 1 {
                    None::<usize>
                } else {
                    Some((op + 2) as usize)
                }));
                assert(s == (match new_right {
                    Some(nr) => spec_set_left(consumed_right, nr as int, op as usize),
                    None => consumed_right,
                }));
                assert forall|i: int|
                    0 <= i < s.len() && (#[trigger] s[i]).classification
                        == Classification::Literal && s[i].parent is Some implies s[i].left is None
                    && s[i].right is None by {
                    if i == op - 1 && takes_left(f) {
                        assert(s[i] == consumed_right[i]);
                    } else if i == op + 1 {
                        assert(consumed_right[i].parent == Some(op as usize));
                    } else if i == op + 2 && new_right is Some {
                        assert(s[i].parent == nodes[i].parent);
                    } else {
                        assert(s[i] == nodes[i]);
                    }
                }
            },
            None => {
                assert(spec_reduce_tier(nodes, seq![op as usize], f) is None);
                assert(spec_reduced(nodes) is None);
            },
        }
    }
}

/// Tier ordering: in `A op B op' C` where `op` is `Decimal` and `op'` is
/// `Access`, the decimal node is reduced first and is then consumed as the
/// access node's left operand, so the access node is the overall root with
/// the decimal subtree on its left and `C` on its right.
pub proof fn lemma_tier_ordering(nodes: Seq<Node>, subs: Seq<usize>)
    requires
        nodes.len() == 5,
        is_flat_chain(nodes),
        nodes[0].classification == Classification::Literal,
        nodes[1].classification == Classification::Decimal,
        nodes[2].classification == Classification::Literal,
        nodes[3].classification == Classification::Access,
        nodes[4].classification == Classification::Literal,
        subs.len() > 0,
        subs[0] < 5,
    ensures
        spec_build(nodes, subs) matches Ok(built) && ({
            let out = built.0;
            &&& built.1 == 3
            &&& out.len() == 5
            &&& out[3].left == Some(1usize)
            &&& out[3].right == Some(4usize)
            &&& out[3].parent is None
            &&& out[1].left == Some(0usize)
            &&& out[1].right == Some(2usize)
            &&& out[1].parent == Some(3usize)
            &&& out[0].parent == Some(1usize)
            &&& out[0].left is None
            &&& out[0].right is None
            &&& out[2].parent == Some(1usize)
            &&& out[2].left is None
            &&& out[2].right is None
            &&& out[4].parent == Some(3usize)
            &&& out[4].left is None
            &&& out[4].right is None
            &&& same_shape(nodes, out)
        }),
{
    lemma_bucket_two_ops_one(nodes, 1, 3, 0, 1, 0);
    lemma_bucket_two_ops_one(nodes, 1, 3, 0, 1, 1);
    lemma_bucket_two_ops_one(nodes, 1, 3, 0, 1, 2);
    let f0 = spec_fixity(0);
    let f1 = spec_fixity(1);
    let f2 = spec_fixity(2);
    assert(spec_reduce_at(nodes, 1, f0) is Some);
    let s1 = spec_reduce_at(nodes, 1, f0)->0;
    assert(seq![1usize].skip(1) =~= Seq::<usize>::empty());
    assert(spec_reduce_tier(s1, Seq::<usize>::empty(), f0) == Some(s1));
    assert(spec_reduce_tier(nodes, seq![1usize], f0) == Some(s1));
    assert(s1[3].left == Some(1usize));
    assert(spec_reduce_at(s1, 3, f1) is Some);
    let s2 = spec_reduce_at(s1, 3, f1)->0;
    assert(seq![3usize].skip(1) =~= Seq::<usize>::empty());
    assert(spec_reduce_tier(s2, Seq::<usize>::empty(), f1) == Some(s2));
    assert(spec_reduce_tier(s1, seq![3usize], f1) == Some(s2));
    assert(spec_reduce_tier(s2, Seq::<usize>::empty(), f2) == Some(s2));
    assert(spec_reduced(nodes) == Some(s2));
    assert(s2[3].parent is None);
    assert(spec_climb(s2, 3, 3nat) == Some(3int));
    assert(spec_climb(s2, 3, 4nat) == Some(3int));
    assert(spec_climb(s2, 3, 5nat) == Some(3int));
    assert(spec_climb(s2, 1, 4nat) == Some(3int));
    if subs[0] == 0 {
        assert(spec_climb(s2, 0, 5nat) == Some(3int));
    } else if subs[0] == 1 {
        assert(spec_climb(s2, 1, 5nat) == Some(3int));
    } else if subs[0] == 2 {
        assert(spec_climb(s2, 2, 5nat) == Some(3int));
    } else if subs[0] == 4 {
        assert(spec_climb(s2, 4, 5nat) == Some(3int));
    }
}

/// Left-associativity within a tier: for two same-tier binary operators, as
/// in `A . B . C` with both dots `Access`, the left operator is reduced
/// first and becomes the left child of the right operator — the tree reads
/// `((A.B).C)`, not `(A.(B.C))`.
pub proof fn lemma_left_associativity(nodes: Seq<Node>, subs: Seq<usize>)
    requires
        nodes.len() == 5,
        is_flat_chain(nodes),
        nodes[0].classification == Classification::Literal,
        nodes[1].classification == Classification::Access,
        nodes[2].classification == Classification::Literal,
        nodes[3].classification == Classification::Access,
        nodes[4].classification == Classification::Literal,
        subs.len() > 0,
        subs[0] < 5,
    ensures
        spec_build(nodes, subs) matches Ok(built) && ({
            let out = built.0;
            &&& built.1 == 3
            &&& out.len() == 5
            &&& out[3].left == Some(1usize)
            &&& out[3].right == Some(4usize)
            &&& out[3].parent is None
            &&& out[1].left == Some(0usize)
            &&& out[1].right == Some(2usize)
            &&& out[1].parent == Some(3usize)
            &&& out[0].parent == Some(1usize)
            &&& out[0].left is None
            &&& out[0].right is None
            &&& out[2].parent == Some(1usize)
            &&& out[2].left is None
            &&& out[2].right is None
            &&& out[4].parent == Some(3usize)
            &&& out[4].left is None
            &&& out[4].right is None
            &&& same_shape(nodes, out)
        }),
{
    lemma_bucket_two_ops_one(nodes, 1, 3, 1, 1, 0);
    lemma_bucket_two_ops_one(nodes, 1, 3, 1, 1, 1);
    lemma_bucket_two_ops_one(nodes, 1, 3, 1, 1, 2);
    let f0 = spec_fixity(0);
    let f1 = spec_fixity(1);
    let f2 = spec_fixity(2);
    assert(spec_reduce_tier(nodes, Seq::<usize>::empty(), f0) == Some(nodes));
    assert(spec_reduce_at(nodes, 1, f1) is Some);
    let s1 = spec_reduce_at(nodes, 1, f1)->0;
    assert(seq![1usize, 3usize].skip(1) =~= seq![3usize]);
    assert(s1[3].left == Some(1usize));
    assert(spec_reduce_at(s1, 3, f1) is Some);
    let s2 = spec_reduce_at(s1, 3, f1)->0;
    assert(seq![3usize].skip(1) =~= Seq::<usize>::empty());
    assert(spec_reduce_tier(s2, Seq::<usize>::empty(), f1) == Some(s2));
    assert(spec_reduce_tier(s1, seq![3usize], f1) == Some(s2));
    assert(spec_reduce_tier(nodes, seq![1usize, 3usize], f1) == Some(s2));
    assert(spec_reduce_tier(s2, Seq::<usize>::empty(), f2) == Some(s2));
    assert(spec_reduced(nodes) == Some(s2));
    assert(s2[3].parent is None);
    assert(spec_climb(s2, 3, 3nat) == Some(3int));
    assert(spec_climb(s2, 3, 4nat) == Some(3int));
    assert(spec_climb(s2, 3, 5nat) == Some(3int));
    assert(spec_climb(s2, 1, 4nat) == Some(3int));
    if subs[0] == 0 {
        assert(spec_climb(s2, 0, 5nat) == Some(3int));
    } else if subs[0] == 1 {
        assert(spec_climb(s2, 1, 5nat) == Some(3int));
    } else if subs[0] == 2 {
        assert(spec_climb(s2, 2, 5nat) == Some(3int));
    } else if subs[0] == 4 {
        assert(spec_climb(s2, 4, 5nat) == Some(3int));
    }
}

} // verus!
