use vstd::prelude::*;

use vstd::string::*;

use crate::card::Card;
use crate::ids::{HandIdx, PlayerIdx, ScaleIdx, StackIdx};
use crate::users::{append_digit, decimal_digits};

verus! {

/// A move a player can ask for on their turn.
#[derive(Debug, Clone, Copy, PartialEq, Eq, Structural)]
pub enum Action {
    /// Draw at the start of the turn: one card, then up to five in hand.
    Draw,
    /// Open a new scale using an Ace from the hand.
    OpenScale { hand_idx: HandIdx },
    /// Play a card from hand onto an existing scale.
    PlayHand { hand_idx: HandIdx, scale_idx: ScaleIdx },
    /// Play the top card of the personal pile onto a scale (an Ace opens one).
    PlayPersonal { scale_idx: ScaleIdx },
    /// Play the top card of a side stack onto an existing scale.
    PlaySide { stack_idx: StackIdx, scale_idx: ScaleIdx },
    /// Move a card from hand to one of the side stacks; this ends the turn.
    MoveToSide { hand_idx: HandIdx, stack_idx: StackIdx },
    /// Move the top personal card (only a King) to a side stack.
    MovePersonalToSide { stack_idx: StackIdx },
}

/// What a successful move did.
#[derive(Debug, Clone, Copy, PartialEq, Eq, Structural)]
pub enum MoveSuccess {
    ScalePlaced { scale_id: ScaleIdx, completed: bool },
    ScaleOpened { scale_id: ScaleIdx },
    Success,
    TurnEnded,
    GameWon { winner_idx: PlayerIdx },
}

impl MoveSuccess {
    /// Whether the move ended the turn (a turn end or a win).
    pub fn turn_ended(&self) -> (r: bool)
        ensures
            r == (*self is TurnEnded || *self is GameWon),
    {
        match self {
            MoveSuccess::TurnEnded => true,
            MoveSuccess::GameWon { .. } => true,
            _ => false,
        }
    }
}

/// Why a move was refused.
#[derive(Debug, Clone, PartialEq, Eq)]
pub enum MoveError {
    DoesNotFit,
    NotYourTurn,
    NotAllowed,
    InvalidIndex { kind: String },
}

/// The two halves of a turn: first draw, then play.
#[derive(Debug, Clone, Copy, PartialEq, Eq, Structural)]
pub enum TurnPhase {
    Draw,
    Play,
}

/// A successful move together with the cards it moved out of sight:
/// those drawn into the mover's hand and those of a completed scale.
#[derive(Debug, Clone, PartialEq, Eq)]
pub struct MoveResult {
    pub success: MoveSuccess,
    pub drawn_cards: Option<Vec<Card>>,
    pub discarded_cards: Option<Vec<Card>>,
}

/// `n` in decimal, without leading zeros.
pub open spec fn decimal_text(n: nat) -> Seq<char>
    decreases n,
{
    if n < 10 {
        seq![decimal_digits()[n as int]]
    } else {
        decimal_text(n / 10).push(decimal_digits()[(n % 10) as int])
    }
}

/// The text of a move as its derived `Debug` writes it, such as
/// `PlayHand { hand_idx: HandIdx(0), scale_idx: ScaleIdx(2) }`.
pub open spec fn action_debug_text(a: Action) -> Seq<char> {
    match a {
        Action::Draw => "Draw"@,
        Action::OpenScale { hand_idx } => "OpenScale { hand_idx: HandIdx("@ + decimal_text(hand_idx.0 as nat) + ") }"@,
        Action::PlayHand { hand_idx, scale_idx } => "PlayHand { hand_idx: HandIdx("@ + decimal_text(hand_idx.0 as nat)
            + "), scale_idx: ScaleIdx("@ + decimal_text(scale_idx.0 as nat) + ") }"@,
        Action::PlayPersonal { scale_idx } => "PlayPersonal { scale_idx: ScaleIdx("@ + decimal_text(scale_idx.0 as nat)
            + ") }"@,
        Action::PlaySide { stack_idx, scale_idx } => "PlaySide { stack_idx: StackIdx("@ + decimal_text(stack_idx.0 as nat)
            + "), scale_idx: ScaleIdx("@ + decimal_text(scale_idx.0 as nat) + ") }"@,
        Action::MoveToSide { hand_idx, stack_idx } => "MoveToSide { hand_idx: HandIdx("@ + decimal_text(hand_idx.0 as nat)
            + "), stack_idx: StackIdx("@ + decimal_text(stack_idx.0 as nat) + ") }"@,
        Action::MovePersonalToSide { stack_idx } => "MovePersonalToSide { stack_idx: StackIdx("@ + decimal_text(
            stack_idx.0 as nat,
        ) + ") }"@,
    }
}

/// Appends `n` in decimal to `text`.
fn append_decimal(text: String, n: usize) -> (r: String)
    ensures
        r@ == text@ + decimal_text(n as nat),
    decreases n,
{
    let ghost start = text@;
    let text = if n >= 10 {
        append_decimal(text, n / 10)
    } else {
        text
    };
    let d = (n % 10) as u16;
    let r = append_digit(text, d);
    proof {
        if n >= 10 {
            assert(decimal_text(n as nat) == decimal_text((n / 10) as nat).push(decimal_digits()[(n % 10) as int]));
            assert(r@ =~= start + decimal_text(n as nat));
        } else {
            assert(decimal_text(n as nat) == seq![decimal_digits()[n as int]]);
            assert(r@ =~= start + decimal_text(n as nat));
        }
    }
    r
}

/// Appends `piece` to `text`.
fn append_text(text: String, piece: &str) -> (r: String)
    ensures
        r@ == text@ + piece@,
{
    let mut text = text;
    text.append(piece);
    text
}

impl Action {
    /// The text of this move as its derived `Debug` writes it (see
    /// `action_debug_text`).
    pub fn debug_text(&self) -> (r: String)
        ensures
            r@ == action_debug_text(*self),
    {
        match *self {
            Action::Draw => String::from_str("Draw"),
            Action::OpenScale { hand_idx } => {
                let t = append_decimal(String::from_str("OpenScale { hand_idx: HandIdx("), hand_idx.0);
                append_text(t, ") }")
            },
            Action::PlayHand { hand_idx, scale_idx } => {
                let t = append_decimal(String::from_str("PlayHand { hand_idx: HandIdx("), hand_idx.0);
                let t = append_text(t, "), scale_idx: ScaleIdx(");
                let t = append_decimal(t, scale_idx.0);
                append_text(t, ") }")
            },
            Action::PlayPersonal { scale_idx } => {
                let t = append_decimal(String::from_str("PlayPersonal { scale_idx: ScaleIdx("), scale_idx.0);
                append_text(t, ") }")
            },
            Action::PlaySide { stack_idx, scale_idx } => {
                let t = append_decimal(String::from_str("PlaySide { stack_idx: StackIdx("), stack_idx.0);
                let t = append_text(t, "), scale_idx: ScaleIdx(");
                let t = append_decimal(t, scale_idx.0);
                append_text(t, ") }")
            },
            Action::MoveToSide { hand_idx, stack_idx } => {
                let t = append_decimal(String::from_str("MoveToSide { hand_idx: HandIdx("), hand_idx.0);
                let t = append_text(t, "), stack_idx: StackIdx(");
                let t = append_decimal(t, stack_idx.0);
                append_text(t, ") }")
            },
            Action::MovePersonalToSide { stack_idx } => {
                let t = append_decimal(String::from_str("MovePersonalToSide { stack_idx: StackIdx("), stack_idx.0);
                append_text(t, ") }")
            },
        }
    }
}

} // verus!
