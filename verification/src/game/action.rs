use vstd::prelude::*;

verus! {

/// A move in the first rule set.
#[derive(Debug, Clone, Copy, PartialEq, Eq, Structural)]
pub enum Action {
    PlayHand { index: usize },
    PlayPersonal,
    PlaySide { stack: usize },
    MoveToSide { hand_index: usize, stack: usize },
    Draw,
}

} // verus!
