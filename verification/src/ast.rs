//! AST construction: bucketing, per-tier reduction over the flat node chain,
//! and root resolution. The executable engine is verified against a
//! step-for-step mathematical model of the link rewrites
//! ([`spec_reduce_at`], [`spec_reduce_tier`], [`spec_reduced`],
//! [`spec_climb`], combined in [`spec_build`]).

use vstd::prelude::*;
use crate::nodes::{Classification, Node, ParseResult, Token, TokenType};
use crate::nodes::{is_unit_literal_node, links_in_range, wf_parse_input};
use crate::table::Fixity;
use crate::table::{fixity_of_tier, spec_fixity, spec_tier, takes_left, takes_right, tier_for};

verus! {

/// The finished tree: the same arena, now linked as a forest, the index of
/// the primary expression's root, and the roots of any further expression
/// segments (currently never populated).
#[derive(Debug)]
pub struct AST {
    pub nodes: Vec<Node>,
    pub root: usize,
    pub sub_roots: Vec<usize>,
}

/// Structural failures of AST construction.
#[derive(Clone, Copy, PartialEq, Eq, Structural, Debug)]
pub enum AstError {
    /// An operator reached its reduction step without the operand its fixity
    /// requires.
    MissingOperand,
    /// Climbing parent links from the seed index never reached a node
    /// without a parent.
    UnresolvedRoot,
}

/// The arena after node `i` is consumed as an operand of the operator at
/// `loc`: its parent is set, and a literal's stale chain links are cleared.
pub open spec fn spec_consume(nodes: Seq<Node>, i: int, loc: usize) -> Seq<Node> {
    let consumed = Node { parent: Some(loc), ..nodes[i] };
    let cleared = if consumed.classification == Classification::Literal {
        Node { left: None, right: None, ..consumed }
    } else {
        consumed
    };
    nodes.update(i, cleared)
}

/// The arena after node `i`'s left link is redirected to `loc` (the splice
/// that keeps the flat chain walkable for later tiers).
pub open spec fn spec_set_left(nodes: Seq<Node>, i: int, loc: usize) -> Seq<Node> {
    nodes.update(i, Node { left: Some(loc), ..nodes[i] })
}

/// One reduction: the operator at `loc` consumes the neighbors its fixity
/// requires and is spliced into the chain in place of its right operand.
/// `None` when a required operand is absent.
pub open spec fn spec_reduce_at(nodes: Seq<Node>, loc: usize, f: Fixity) -> Option<Seq<Node>> {
    let left = nodes[loc as int].left;
    let right = nodes[loc as int].right;
    if takes_left(f) && left is None {
        None
    } else if takes_right(f) && right is None {
        None
    } else {
        let after_left = if takes_left(f) {
            spec_consume(nodes, left->0 as int, loc)
        } else {
            nodes
        };
        if takes_right(f) {
            let ri = right->0 as int;
            let new_right = after_left[ri].right;
            let after_right = spec_consume(after_left, ri, loc);
            match new_right {
                Some(nr) => Some(spec_set_left(after_right, nr as int, loc)),
                None => Some(after_right),
            }
        } else {
            Some(after_left)
        }
    }
}

/// One tier's pass: the bucketed operator locations are reduced in the order
/// they were encountered, which is what makes same-tier binary operators
/// left-associative.
pub open spec fn spec_reduce_tier(nodes: Seq<Node>, locs: Seq<usize>, f: Fixity) -> Option<
    Seq<Node>,
>
    decreases locs.len(),
{
    if locs.len() == 0 {
        Some(nodes)
    } else {
        match spec_reduce_at(nodes, locs[0], f) {
            Some(s) => spec_reduce_tier(s, locs.skip(1), f),
            None => None,
        }
    }
}

/// The operator locations of tier `t`, in left-to-right arena order.
pub open spec fn spec_bucket(nodes: Seq<Node>, t: int) -> Seq<usize>
    decreases nodes.len(),
{
    if nodes.len() == 0 {
        Seq::empty()
    } else {
        let prev = spec_bucket(nodes.drop_last(), t);
        if spec_tier(nodes.last().classification) == Some(t) {
            prev.push((nodes.len() - 1) as usize)
        } else {
            prev
        }
    }
}

/// The arena after all tiers are reduced in table order, each over the
/// bucket taken from the original arena.
pub open spec fn spec_reduced(nodes: Seq<Node>) -> Option<Seq<Node>> {
    match spec_reduce_tier(nodes, spec_bucket(nodes, 0), spec_fixity(0)) {
        Some(s1) => match spec_reduce_tier(s1, spec_bucket(nodes, 1), spec_fixity(1)) {
            Some(s2) => spec_reduce_tier(s2, spec_bucket(nodes, 2), spec_fixity(2)),
            None => None,
        },
        None => None,
    }
}

/// Climbing parent links from `i`, with at most `fuel` steps: the first node
/// without a parent, or `None` when `fuel` runs out before one is reached.
pub open spec fn spec_climb(nodes: Seq<Node>, i: int, fuel: nat) -> Option<int>
    decreases fuel,
{
    match nodes[i].parent {
        None => Some(i),
        Some(p) => if fuel == 0 {
            None
        } else {
            spec_climb(nodes, p as int, (fuel - 1) as nat)
        },
    }
}

/// What construction returns for a non-empty arena: the reduced arena and
/// the resolved root, or the structural error that stopped it.
pub open spec fn spec_build(nodes: Seq<Node>, subs: Seq<usize>) -> Result<
    (Seq<Node>, int),
    AstError,
> {
    match spec_reduced(nodes) {
        None => Err(AstError::MissingOperand),
        Some(s) => match spec_climb(s, subs[0] as int, s.len()) {
            None => Err(AstError::UnresolvedRoot),
            Some(root) => Ok((s, root)),
        },
    }
}

/// `b` is `a` with only link fields rewritten: same length, and every node
/// keeps its classification and token.
pub open spec fn same_shape(a: Seq<Node>, b: Seq<Node>) -> bool {
    &&& a.len() == b.len()
    &&& forall|i: int|
        0 <= i < a.len() ==> {
            &&& (#[trigger] b[i]).classification == a[i].classification
            &&& b[i].token == a[i].token
        }
}

/// Reduces the operator at `loc`: sets its required neighbors' parents,
/// clears consumed literals' chain links, and splices `loc` into the chain
/// in place of its right operand. `false` when a required operand is absent;
/// the arena is then left untouched.
fn reduce_at(nodes: &mut Vec<Node>, loc: usize, f: Fixity) -> (ok: bool)
    requires
        loc < old(nodes)@.len(),
        links_in_range(old(nodes)@),
    ensures
        final(nodes)@.len() == old(nodes)@.len(),
        links_in_range(final(nodes)@),
        same_shape(old(nodes)@, final(nodes)@),
        match spec_reduce_at(old(nodes)@, loc, f) {
            Some(s) => ok && final(nodes)@ == s,
            None => !ok && final(nodes)@ == old(nodes)@,
        },
{
    let takes_l = matches!(f, Fixity::Binary | Fixity::UnaryPostfix);
    let takes_r = matches!(f, Fixity::Binary | Fixity::UnaryPrefix);
    let left = nodes[loc].left;
    let right = nodes[loc].right;
    if takes_l && left.is_none() {
        return false;
    }
    if takes_r && right.is_none() {
        return false;
    }
    if takes_l {
        let l = left.unwrap();
        nodes[l].parent = Some(loc);
        if nodes[l].classification == Classification::Literal {
            nodes[l].left = None;
            nodes[l].right = None;
        }
        proof {
            assert(nodes@ =~= spec_consume(old(nodes)@, l as int, loc));
        }
    }
    if takes_r {
        let ghost after_left = nodes@;
        let ri = right.unwrap();
        let new_right = nodes[ri].right;
        nodes[ri].parent = Some(loc);
        if nodes[ri].classification == Classification::Literal {
            nodes[ri].left = None;
            nodes[ri].right = None;
        }
        proof {
            assert(nodes@ =~= spec_consume(after_left, ri as int, loc));
        }
        if let Some(nr) = new_right {
            let ghost after_right = nodes@;
            nodes[nr].left = Some(loc);
            proof {
                assert(nodes@ =~= spec_set_left(after_right, nr as int, loc));
            }
        }
    }
    true
}

/// Runs one tier's pass over its bucketed operator locations, in order.
/// `false` when some operator was missing a required operand; reduction
/// stops at that operator.
fn reduce_tier(nodes: &mut Vec<Node>, locs: &Vec<usize>, f: Fixity) -> (ok: bool)
    requires
        links_in_range(old(nodes)@),
        forall|k: int| 0 <= k < locs@.len() ==> (#[trigger] locs@[k]) < old(nodes)@.len(),
    ensures
        final(nodes)@.len() == old(nodes)@.len(),
        links_in_range(final(nodes)@),
        same_shape(old(nodes)@, final(nodes)@),
        match spec_reduce_tier(old(nodes)@, locs@, f) {
            Some(s) => ok && final(nodes)@ == s,
            None => !ok,
        },
{
    proof {
        assert(locs@.skip(0) =~= locs@);
    }
    let mut j: usize = 0;
    while j < locs.len()
        invariant
            j <= locs@.len(),
            nodes@.len() == old(nodes)@.len(),
            links_in_range(nodes@),
            same_shape(old(nodes)@, nodes@),
            forall|k: int| 0 <= k < locs@.len() ==> (#[trigger] locs@[k]) < old(nodes)@.len(),
            spec_reduce_tier(old(nodes)@, locs@, f) == spec_reduce_tier(
                nodes@,
                locs@.skip(j as int),
                f,
            ),
        decreases locs@.len() - j,
    {
        let loc = locs[j];
        proof {
            assert(locs@.skip(j as int)[0] == locs@[j as int]);
            assert(locs@.skip(j as int).skip(1) =~= locs@.skip(j as int + 1));
        }
        let ok = reduce_at(nodes, loc, f);
        if !ok {
            return false;
        }
        j += 1;
    }
    proof {
        assert(locs@.skip(locs@.len() as int) =~= Seq::<usize>::empty());
    }
    true
}

/// Scans the arena once, left to right, and appends each operator node's
/// index to its tier's bucket. Leaves are skipped; the precedence table is
/// total over every classification the front end can produce.
fn bucket_operators(nodes: &Vec<Node>) -> (buckets: (Vec<usize>, Vec<usize>, Vec<usize>))
    ensures
        buckets.0@ == spec_bucket(nodes@, 0),
        buckets.1@ == spec_bucket(nodes@, 1),
        buckets.2@ == spec_bucket(nodes@, 2),
        forall|k: int| 0 <= k < buckets.0@.len() ==> (#[trigger] buckets.0@[k]) < nodes@.len(),
        forall|k: int| 0 <= k < buckets.1@.len() ==> (#[trigger] buckets.1@[k]) < nodes@.len(),
        forall|k: int| 0 <= k < buckets.2@.len() ==> (#[trigger] buckets.2@[k]) < nodes@.len(),
{
    let mut b0: Vec<usize> = Vec::new();
    let mut b1: Vec<usize> = Vec::new();
    let mut b2: Vec<usize> = Vec::new();
    let mut i: usize = 0;
    while i < nodes.len()
        invariant
            i <= nodes@.len(),
            b0@ == spec_bucket(nodes@.take(i as int), 0),
            b1@ == spec_bucket(nodes@.take(i as int), 1),
            b2@ == spec_bucket(nodes@.take(i as int), 2),
            forall|k: int| 0 <= k < b0@.len() ==> (#[trigger] b0@[k]) < i,
            forall|k: int| 0 <= k < b1@.len() ==> (#[trigger] b1@[k]) < i,
            forall|k: int| 0 <= k < b2@.len() ==> (#[trigger] b2@[k]) < i,
        decreases nodes@.len() - i,
    {
        proof {
            assert(nodes@.take(i as int + 1).drop_last() =~= nodes@.take(i as int));
            assert(nodes@.take(i as int + 1).last() == nodes@[i as int]);
        }
        match tier_for(nodes[i].classification) {
            Some(t) => {
                if t == 0 {
                    b0.push(i);
                } else if t == 1 {
                    b1.push(i);
                } else {
                    b2.push(i);
                }
            },
            None => {},
        }
        i += 1;
    }
    proof {
        assert(nodes@.take(nodes@.len() as int) =~= nodes@);
    }
    (b0, b1, b2)
}

/// Follows parent links from `seed` until a node without a parent is found.
/// Gives up after one step per arena node, which any terminating parent
/// chain stays within; `None` therefore means the links cycle.
fn resolve_root(nodes: &Vec<Node>, seed: usize) -> (r: Option<usize>)
    requires
        seed < nodes@.len(),
        links_in_range(nodes@),
    ensures
        match r {
            Some(root) => {
                &&& spec_climb(nodes@, seed as int, nodes@.len() as nat) == Some(root as int)
                &&& root < nodes@.len()
                &&& nodes@[root as int].parent is None
            },
            None => spec_climb(nodes@, seed as int, nodes@.len() as nat) is None,
        },
{
    let mut cur = seed;
    let mut fuel = nodes.len();
    while nodes[cur].parent.is_some()
        invariant
            cur < nodes@.len(),
            fuel <= nodes@.len(),
            links_in_range(nodes@),
            spec_climb(nodes@, seed as int, nodes@.len() as nat) == spec_climb(
                nodes@,
                cur as int,
                fuel as nat,
            ),
        decreases fuel,
    {
        if fuel == 0 {
            return None;
        }
        let p = nodes[cur].parent.unwrap();
        fuel = fuel - 1;
        cur = p;
    }
    Some(cur)
}

/// Builds the AST from the front end's flat parse result.
///
/// An empty arena short-circuits to a one-node arena holding a unit literal
/// that is its own root. Otherwise the arena is reduced tier by tier in
/// place — no node moves, only `left`/`right`/`parent` change — and the root
/// is resolved by climbing parent links from the primary seed. The result is
/// pinned exactly by [`spec_build`]: `Ok` carries the reduced arena and its
/// root, `Err(MissingOperand)` comes if and only if some operator lacked a
/// required operand, and `Err(UnresolvedRoot)` if and only if the parent
/// walk from the seed found no parentless node.
pub fn make_ast(parse_result: ParseResult) -> (r: Result<AST, AstError>)
    requires
        wf_parse_input(parse_result.nodes@, parse_result.sub_expressions@),
    ensures
        parse_result.nodes@.len() == 0 ==> match r {
            Ok(ast) => {
                &&& ast.nodes@.len() == 1
                &&& is_unit_literal_node(ast.nodes@[0])
                &&& ast.root == 0
                &&& ast.sub_roots@.len() == 0
            },
            Err(_) => false,
        },
        parse_result.nodes@.len() > 0 ==> match r {
            Ok(ast) => {
                &&& spec_build(parse_result.nodes@, parse_result.sub_expressions@) == Ok::<
                    (Seq<Node>, int),
                    AstError,
                >((ast.nodes@, ast.root as int))
                &&& ast.root < ast.nodes@.len()
                &&& ast.nodes@[ast.root as int].parent is None
                &&& ast.sub_roots@.len() == 0
                &&& same_shape(parse_result.nodes@, ast.nodes@)
            },
            Err(e) => spec_build(parse_result.nodes@, parse_result.sub_expressions@) == Err::<
                (Seq<Node>, int),
                AstError,
            >(e),
        },
{
    let ParseResult { mut nodes, sub_expressions } = parse_result;
    if nodes.len() == 0 {
        let mut unit_nodes: Vec<Node> = Vec::new();
        unit_nodes.push(
            Node {
                classification: Classification::Literal,
                token: Token { value: String::new(), token_type: TokenType::UnitLiteral },
                left: None,
                right: None,
                parent: None,
            },
        );
        return Ok(AST { nodes: unit_nodes, root: 0, sub_roots: Vec::new() });
    }
    let ghost orig = nodes@;
    let (b0, b1, b2) = bucket_operators(&nodes);
    if !reduce_tier(&mut nodes, &b0, fixity_of_tier(0)) {
        return Err(AstError::MissingOperand);
    }
    if !reduce_tier(&mut nodes, &b1, fixity_of_tier(1)) {
        return Err(AstError::MissingOperand);
    }
    if !reduce_tier(&mut nodes, &b2, fixity_of_tier(2)) {
        return Err(AstError::MissingOperand);
    }
    proof {
        assert(spec_reduced(orig) == Some(nodes@));
        assert(same_shape(orig, nodes@));
    }
    let seed = sub_expressions[0];
    match resolve_root(&nodes, seed) {
        Some(root) => Ok(AST { nodes, root, sub_roots: Vec::new() }),
        None => Err(AstError::UnresolvedRoot),
    }
}

} // verus!
