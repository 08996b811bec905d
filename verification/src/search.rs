//! The search for the best action: evaluation functions, the alphabeta search
//! and the opening book.
use vstd::prelude::*;

pub mod alphabeta;
pub mod eval;
pub mod openings;

verus! {

/// The score is represented by a i16 value.
pub type Score = i16;

/// The type of the node. It is used to determine if the score is exact, lower-bound, or higher bound.
/// See <https://www.chessprogramming.org/Node_Types>
#[derive(Debug, Clone, Copy, PartialEq, Eq, Structural)]
pub enum NodeType {
    /// PV (Principal Variation) node: all actions searched, returned score is exact
    PV,
    /// Cut node (fail-high node): at least one action searched, returned score is a lower bound
    Cut,
    /// All node (fail-low node): all actions searched, returned score is an upper-bound
    All,
}

impl Default for NodeType {
    /// A PV node.
    fn default() -> (r: NodeType)
        ensures
            r == NodeType::PV,
    {
        NodeType::PV
    }
}

} // verus!
