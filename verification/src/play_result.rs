use vstd::prelude::*;

use crate::state::GameState;

verus! {

/// The result of a play as one flat enum, successes and refusals alike.
#[derive(Debug, Clone, PartialEq, Eq)]
pub enum PlayResult {
    /// Card was placed on an existing scale.
    ScalePlaced { scale_id: usize, completed: bool },
    /// A new scale was opened (only with an Ace).
    ScaleOpened { scale_id: usize },
    /// A non-scale action succeeded (draw, move to side, etc.).
    Success,
    /// The turn was ended.
    TurnEnded,
    /// The game finished because a player met the win condition.
    GameWon { winner_id: usize },
    /// The card cannot be placed on the chosen scale.
    DoesNotFit,
    /// Attempted to act when it is not the player's turn.
    NotYourTurn,
    /// The action is disallowed in the current game or turn phase.
    NotAllowed,
    /// Requested card or stack index is out of bounds.
    InvalidIndex { kind: String },
}

impl PlayResult {
    /// Whether the turn ended (a turn end or a win).
    pub fn turn_ended(&self) -> (r: bool)
        ensures
            r == (*self is TurnEnded || *self is GameWon),
    {
        match self {
            PlayResult::TurnEnded => true,
            PlayResult::GameWon { .. } => true,
            _ => false,
        }
    }

    pub fn is_turn_ended(&self) -> (r: bool)
        ensures
            r == (*self is TurnEnded || *self is GameWon),
    {
        self.turn_ended()
    }

    pub fn is_success(&self) -> (r: bool)
        ensures
            r == (*self is Success),
    {
        match self {
            PlayResult::Success => true,
            _ => false,
        }
    }

    /// After a turn end, the seat of the board whose turn it now is.
    pub fn next_player(&self, state: &GameState) -> (r: Option<usize>)
        ensures
            r == if *self is TurnEnded && state.current_turn.0 < state.players@.len() {
                Some(state.players@[state.current_turn.0 as int].player_idx)
            } else {
                None::<usize>
            },
    {
        match self {
            PlayResult::TurnEnded => {
                if state.current_turn.0 < state.players.len() {
                    Some(state.players[state.current_turn.0].player_idx)
                } else {
                    None
                }
            },
            _ => None,
        }
    }
}

} // verus!
