use vstd::prelude::*;

verus! {

/// The answer to a move in the first rule set.
#[derive(Debug, Clone, Copy, PartialEq, Eq, Structural)]
pub enum PlayResult {
    /// The card went onto scale `scale_id`; `completed` tells whether that filled it.
    Placed { scale_id: usize, completed: bool },
    DoesNotFit,
    TurnEnded,
    Moved,
    Won,
    InvalidIndex,
    NotAllowed,
    NotYourTurn,
}

} // verus!
