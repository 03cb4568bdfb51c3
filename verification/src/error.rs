//! The conditions under which the engine declines to act.

use vstd::prelude::*;

verus! {

/// Why a projection or an edit was declined.
#[derive(Clone, Copy, Debug, PartialEq, Eq, Structural)]
pub enum EditorError {
    /// The representation holds a construct that has no pin layout: an
    /// expression or statement kind outside the modelled set, or an operand
    /// that does not name an earlier expression.
    Unsupported,
    /// The proposed link has no compatible slot to end in, or does not start
    /// at the output pin of its source node.
    InvalidTarget,
    /// A position that is not valid in the list it indexes.
    OutOfRange,
}

} // verus!
