//! The data model: tokens, syntactic classifications, arena nodes, and the
//! flat parse result that AST construction consumes.

use vstd::prelude::*;

verus! {

/// Lexical category of a terminal token.
#[derive(Clone, Copy, PartialEq, Eq, Structural, Debug)]
pub enum TokenType {
    Number,
    Character,
    CharacterList,
    Identifier,
    SymbolOperator,
    UnitLiteral,
    Input,
    ResultRef,
    IterationOutput,
    IterationSkip,
    IterationContinue,
    IterationComplete,
}

/// Syntactic role a grouping front end assigns to a node.
///
/// `Literal` and the four iteration-control variants are leaves; the rest are
/// operators placed by the precedence table.
#[derive(Clone, Copy, PartialEq, Eq, Structural, Debug)]
pub enum Classification {
    Literal,
    IterationOutput,
    IterationSkip,
    IterationContinue,
    IterationComplete,
    Decimal,
    Access,
    Negation,
    AbsoluteValue,
    Not,
}

/// A terminal lexical unit: its raw text and its lexical category.
#[derive(Clone, PartialEq, Debug)]
pub struct Token {
    pub value: String,
    pub token_type: TokenType,
}

/// One arena entry. `left`, `right` and `parent` are indices into the same
/// arena; `left`/`right` start as flat-sequence adjacency and end as child
/// links, `parent` starts unset and ends pointing at the consuming operator.
#[derive(Clone, PartialEq, Debug)]
pub struct Node {
    pub classification: Classification,
    pub token: Token,
    pub left: Option<usize>,
    pub right: Option<usize>,
    pub parent: Option<usize>,
}

/// What the grouping front end hands over: the initial arena, linked as a
/// flat doubly linked sequence, and one seed index per expression segment.
pub struct ParseResult {
    pub nodes: Vec<Node>,
    pub sub_expressions: Vec<usize>,
}

/// A leaf classification is skipped by bucketing and never reduced itself.
pub open spec fn is_leaf_classification(c: Classification) -> bool {
    match c {
        Classification::Literal
        | Classification::IterationOutput
        | Classification::IterationSkip
        | Classification::IterationContinue
        | Classification::IterationComplete => true,
        _ => false,
    }
}

/// Every link field of every node either is unset or stays inside the arena.
pub open spec fn links_in_range(nodes: Seq<Node>) -> bool {
    &&& forall|i: int|
        0 <= i < nodes.len() ==> ((#[trigger] nodes[i].left) matches Some(l) ==> l < nodes.len())
    &&& forall|i: int|
        0 <= i < nodes.len() ==> ((#[trigger] nodes[i].right) matches Some(r) ==> r < nodes.len())
    &&& forall|i: int|
        0 <= i < nodes.len() ==> ((#[trigger] nodes[i].parent) matches Some(p) ==> p
            < nodes.len())
}

/// No node has been consumed yet: all parent fields are unset.
pub open spec fn parents_unset(nodes: Seq<Node>) -> bool {
    forall|i: int| 0 <= i < nodes.len() ==> #[trigger] nodes[i].parent is None
}

/// The input contract of AST construction: links stay inside the arena, no
/// parent is set yet, and a non-empty arena comes with a seed index for the
/// primary expression segment.
pub open spec fn wf_parse_input(nodes: Seq<Node>, subs: Seq<usize>) -> bool {
    &&& links_in_range(nodes)
    &&& parents_unset(nodes)
    &&& nodes.len() > 0 ==> subs.len() > 0 && subs[0] < nodes.len()
}

/// The node AST construction fabricates for empty input: a unit literal with
/// empty text and no links.
pub open spec fn is_unit_literal_node(n: Node) -> bool {
    &&& n.classification == Classification::Literal
    &&& n.token.token_type == TokenType::UnitLiteral
    &&& n.token.value@ == Seq::<char>::empty()
    &&& n.left is None
    &&& n.right is None
    &&& n.parent is None
}

} // verus!
