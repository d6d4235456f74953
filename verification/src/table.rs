//! The precedence table: an ordered list of tiers, each a fixity together
//! with the classifications that belong to it. Tier order is binding order:
//! tier 0 is reduced first and binds tightest.

use vstd::prelude::*;
use crate::nodes::Classification;

verus! {

/// How many tiers the table currently declares.
pub const NUM_TIERS: usize = 3;

/// Whether an operator consumes the operand to its left, to its right, or
/// both. `UnaryPostfix` is reserved for future operator classes; no current
/// classification maps to a postfix tier.
#[derive(Clone, Copy, PartialEq, Eq, Structural, Debug)]
pub enum Fixity {
    Binary,
    UnaryPrefix,
    UnaryPostfix,
}

/// The tier an operator classification belongs to, `None` for leaves.
pub open spec fn spec_tier(c: Classification) -> Option<int> {
    match c {
        Classification::Literal
        | Classification::IterationOutput
        | Classification::IterationSkip
        | Classification::IterationContinue
        | Classification::IterationComplete => None,
        Classification::Decimal => Some(0int),
        Classification::Access => Some(1int),
        Classification::Negation | Classification::AbsoluteValue | Classification::Not => Some(
            2int,
        ),
    }
}

/// The fixity each tier declares.
pub open spec fn spec_fixity(t: int) -> Fixity {
    if t == 2 {
        Fixity::UnaryPrefix
    } else {
        Fixity::Binary
    }
}

/// A fixity that consumes the operand on its left.
pub open spec fn takes_left(f: Fixity) -> bool {
    f == Fixity::Binary || f == Fixity::UnaryPostfix
}

/// A fixity that consumes the operand on its right.
pub open spec fn takes_right(f: Fixity) -> bool {
    f == Fixity::Binary || f == Fixity::UnaryPrefix
}

/// Looks a classification up in the precedence table. The mapping is total:
/// leaves get `None`, every operator classification gets its tier.
pub fn tier_for(c: Classification) -> (t: Option<usize>)
    ensures
        match t {
            Some(tier) => spec_tier(c) == Some(tier as int) && tier < NUM_TIERS,
            None => spec_tier(c) is None,
        },
{
    match c {
        Classification::Literal
        | Classification::IterationOutput
        | Classification::IterationSkip
        | Classification::IterationContinue
        | Classification::IterationComplete => None,
        Classification::Decimal => Some(0),
        Classification::Access => Some(1),
        Classification::Negation | Classification::AbsoluteValue | Classification::Not => Some(2),
    }
}

/// The fixity of a tier, as the table declares it.
pub fn fixity_of_tier(t: usize) -> (f: Fixity)
    requires
        t < NUM_TIERS,
    ensures
        f == spec_fixity(t as int),
{
    if t == 2 {
        Fixity::UnaryPrefix
    } else {
        Fixity::Binary
    }
}

} // verus!
