//! The rules of a turn as plain functions on sequences of cards.
use vstd::prelude::*;

use crate::actions::{Action, MoveSuccess, TurnPhase};
use crate::board::{BoardModel, NORMAL_HAND_SIZE, SIDE_STACKS};
use crate::card::Card;
use crate::dealer::{draw_step, draw_steps};
use crate::ids::{PlayerIdx, ScaleIdx};
use crate::scale::{fits, SCALE_LEN};
use crate::scale_manager::first_free_slot;

verus! {

/// Where a game is in its life.
#[derive(Debug, Clone, Copy, PartialEq, Eq, Structural)]
pub enum GamePhase {
    Waiting,
    Playing,
    Finished,
}

/// What a game holds, as plain values: the boards, the two piles of the
/// dealer, the cards of each scale slot, and whose turn and which half of it.
#[verifier::ext_equal]
pub struct GameModel {
    pub phase: GamePhase,
    pub players: Seq<BoardModel>,
    pub draw: Seq<Card>,
    pub discard: Seq<Card>,
    pub table: Seq<Option<Seq<Card>>>,
    pub current_turn: PlayerIdx,
    pub turn_phase: TurnPhase,
}

impl GameModel {
    /// Every board has its four side stacks (true of every game's view).
    pub open spec fn boards_wf(self) -> bool {
        forall|i: int| 0 <= i < self.players.len() ==> (#[trigger] self.players[i]).sides.len() == SIDE_STACKS
    }
}

/// Why a move is refused, as a plain value.
pub enum Refusal {
    DoesNotFit,
    NotYourTurn,
    NotAllowed,
    InvalidIndex(Seq<char>),
}

/// The answer to a move, as plain values.
pub enum Outcome {
    Done(MoveSuccess, Option<Seq<Card>>, Option<Seq<Card>>),
    Refused(Refusal),
}

/// Position of the first board seated at `idx`, or the number of boards.
pub open spec fn find_player(players: Seq<BoardModel>, idx: PlayerIdx) -> int
    decreases players.len(),
{
    if players.len() == 0 {
        0
    } else if find_player(players.drop_last(), idx) < players.len() - 1 {
        find_player(players.drop_last(), idx)
    } else if players.last().player_idx == idx.0 {
        players.len() - 1
    } else {
        players.len() as int
    }
}

pub proof fn lemma_find_player(players: Seq<BoardModel>, idx: PlayerIdx)
    ensures
        0 <= find_player(players, idx) <= players.len(),
        find_player(players, idx) < players.len() ==> players[find_player(players, idx)].player_idx == idx.0,
        forall|j: int| 0 <= j < find_player(players, idx) ==> players[j].player_idx != idx.0,
    decreases players.len(),
{
    if players.len() > 0 {
        let init = players.drop_last();
        lemma_find_player(init, idx);
        assert forall|j: int| 0 <= j < init.len() implies init[j] == players[j] by {}
    }
}

/// Draws needed to bring a hand of `len` cards up to the normal size.
pub open spec fn missing_cards(len: nat) -> nat {
    if len < NORMAL_HAND_SIZE { (NORMAL_HAND_SIZE - len) as nat } else { 0 }
}

/// The draw at the start of a turn: one card, then more until the hand
/// holds five cards or the piles are empty. Gives the piles afterwards and
/// the drawn cards in order.
pub open spec fn draw_phase(draw: Seq<Card>, discard: Seq<Card>, hand: Seq<Card>) -> (Seq<Card>, Seq<Card>, Seq<Card>) {
    let (d1, x1, c) = draw_step(draw, discard);
    let first = match c {
        Some(card) => seq![card],
        None => Seq::<Card>::empty(),
    };
    let (d2, x2, rest) = draw_steps(d1, x1, missing_cards(hand.len() + first.len()));
    (d2, x2, first + rest)
}

/// After a card has been played, an empty hand is refilled with up to five cards.
pub open spec fn refill(draw: Seq<Card>, discard: Seq<Card>, hand: Seq<Card>) -> (Seq<Card>, Seq<Card>, Seq<Card>) {
    if hand.len() == 0 {
        draw_steps(draw, discard, NORMAL_HAND_SIZE as nat)
    } else {
        (draw, discard, Seq::empty())
    }
}

/// Whether `card` fits the scale standing in slot `s`.
pub open spec fn table_fits(table: Seq<Option<Seq<Card>>>, s: ScaleIdx, card: Card) -> bool {
    &&& s.0 < table.len()
    &&& table[s.0 as int] is Some
    &&& fits(table[s.0 as int]->0, card)
}

/// Opening a scale with `card` in the first empty slot (or a new one).
pub open spec fn table_open(table: Seq<Option<Seq<Card>>>, card: Card) -> Seq<Option<Seq<Card>>> {
    let i = first_free_slot(table);
    if i < table.len() {
        table.update(i, Some(seq![card]))
    } else {
        table.push(Some(seq![card]))
    }
}

/// The scale in slot `s` with `card` on top.
pub open spec fn placed_run(table: Seq<Option<Seq<Card>>>, s: ScaleIdx, card: Card) -> Seq<Card> {
    table[s.0 as int]->0.push(card)
}

/// Placing `card` on slot `s`; a scale that becomes complete leaves the table.
pub open spec fn table_place(table: Seq<Option<Seq<Card>>>, s: ScaleIdx, card: Card) -> Seq<Option<Seq<Card>>> {
    let run = placed_run(table, s, card);
    if run.len() == SCALE_LEN {
        table.update(s.0 as int, None)
    } else {
        table.update(s.0 as int, Some(run))
    }
}

/// The cards of a scale completed by placing `card` on slot `s`, if it completes.
pub open spec fn place_discards(table: Seq<Option<Seq<Card>>>, s: ScaleIdx, card: Card) -> Option<Seq<Card>> {
    let run = placed_run(table, s, card);
    if run.len() == SCALE_LEN { Some(run) } else { None }
}

pub open spec fn opt_cards(o: Option<Seq<Card>>) -> Seq<Card> {
    match o {
        Some(cs) => cs,
        None => Seq::empty(),
    }
}

pub open spec fn refused(m: GameModel, why: Refusal) -> (GameModel, Outcome) {
    (m, Outcome::Refused(why))
}

/// End of a card play: the mover's board becomes `b`, the table `table`,
/// completed cards go to the discard pile, then an empty hand is refilled.
pub open spec fn finish_play(
    m: GameModel,
    p: int,
    b: BoardModel,
    table: Seq<Option<Seq<Card>>>,
    discarded: Option<Seq<Card>>,
    success: MoveSuccess,
) -> (GameModel, Outcome) {
    let (d, x, drawn) = refill(m.draw, m.discard + opt_cards(discarded), b.hand);
    let b2 = BoardModel { hand: b.hand + drawn, ..b };
    (
        GameModel { players: m.players.update(p, b2), draw: d, discard: x, table: table, ..m },
        Outcome::Done(success, Some(drawn), discarded),
    )
}

/// Playing `card`, already taken from the mover's board (now `b`), onto slot `s`.
pub open spec fn play_onto(m: GameModel, p: int, b: BoardModel, s: ScaleIdx, card: Card) -> (GameModel, Outcome) {
    finish_play(
        m,
        p,
        b,
        table_place(m.table, s, card),
        place_discards(m.table, s, card),
        MoveSuccess::ScalePlaced { scale_id: s, completed: placed_run(m.table, s, card).len() == SCALE_LEN },
    )
}

/// Opening a scale with `card`, already taken from the mover's board (now `b`).
pub open spec fn open_with(m: GameModel, p: int, b: BoardModel, card: Card) -> (GameModel, Outcome) {
    finish_play(
        m,
        p,
        b,
        table_open(m.table, card),
        None,
        MoveSuccess::ScaleOpened { scale_id: ScaleIdx(first_free_slot(m.table) as usize) },
    )
}

/// A move by the player at board position `p`, who is on turn in a running game.
pub open spec fn action_step(m: GameModel, p: int, player: PlayerIdx, action: Action) -> (GameModel, Outcome) {
    let b = m.players[p];
    match action {
        Action::Draw => {
            if m.turn_phase != TurnPhase::Draw {
                refused(m, Refusal::NotAllowed)
            } else {
                let (d, x, drawn) = draw_phase(m.draw, m.discard, b.hand);
                (
                    GameModel {
                        players: m.players.update(p, BoardModel { hand: b.hand + drawn, ..b }),
                        draw: d,
                        discard: x,
                        turn_phase: TurnPhase::Play,
                        ..m
                    },
                    Outcome::Done(MoveSuccess::Success, Some(drawn), None),
                )
            }
        },
        Action::OpenScale { hand_idx } => {
            if m.turn_phase != TurnPhase::Play {
                refused(m, Refusal::NotAllowed)
            } else if hand_idx.0 >= b.hand.len() {
                refused(m, Refusal::InvalidIndex("hand_idx"@))
            } else if b.hand[hand_idx.0 as int].value != 1 {
                refused(m, Refusal::DoesNotFit)
            } else {
                let card = b.hand[hand_idx.0 as int];
                open_with(m, p, BoardModel { hand: b.hand.remove(hand_idx.0 as int), ..b }, card)
            }
        },
        Action::PlayHand { hand_idx, scale_idx } => {
            if m.turn_phase != TurnPhase::Play {
                refused(m, Refusal::NotAllowed)
            } else if hand_idx.0 >= b.hand.len() {
                refused(m, Refusal::InvalidIndex("hand_idx"@))
            } else if !table_fits(m.table, scale_idx, b.hand[hand_idx.0 as int]) {
                refused(m, Refusal::DoesNotFit)
            } else {
                let card = b.hand[hand_idx.0 as int];
                play_onto(m, p, BoardModel { hand: b.hand.remove(hand_idx.0 as int), ..b }, scale_idx, card)
            }
        },
        Action::PlayPersonal { scale_idx } => {
            if m.turn_phase != TurnPhase::Play {
                refused(m, Refusal::NotAllowed)
            } else if b.personal.len() == 0 {
                refused(m, Refusal::InvalidIndex("personal"@))
            } else {
                let card = b.personal.last();
                let b1 = BoardModel { personal: b.personal.drop_last(), ..b };
                if card.value == 1 {
                    open_with(m, p, b1, card)
                } else if !table_fits(m.table, scale_idx, card) {
                    refused(m, Refusal::DoesNotFit)
                } else {
                    play_onto(m, p, b1, scale_idx, card)
                }
            }
        },
        Action::PlaySide { stack_idx, scale_idx } => {
            if m.turn_phase != TurnPhase::Play {
                refused(m, Refusal::NotAllowed)
            } else if stack_idx.0 >= SIDE_STACKS || b.sides[stack_idx.0 as int].len() == 0 {
                refused(m, Refusal::InvalidIndex("stack"@))
            } else {
                let st = stack_idx.0 as int;
                let card = b.sides[st].last();
                let b1 = BoardModel { sides: b.sides.update(st, b.sides[st].drop_last()), ..b };
                if !table_fits(m.table, scale_idx, card) {
                    // The card is not put back on its stack: it goes to the hand.
                    (
                        GameModel { players: m.players.update(p, BoardModel { hand: b.hand.push(card), ..b1 }), ..m },
                        Outcome::Refused(Refusal::DoesNotFit),
                    )
                } else {
                    play_onto(m, p, b1, scale_idx, card)
                }
            }
        },
        Action::MoveToSide { hand_idx, stack_idx } => {
            if m.turn_phase != TurnPhase::Play {
                refused(m, Refusal::NotAllowed)
            } else if hand_idx.0 >= b.hand.len() {
                refused(m, Refusal::InvalidIndex("hand_idx"@))
            } else {
                let h = hand_idx.0 as int;
                let card = b.hand[h];
                let hand = b.hand.remove(h);
                if stack_idx.0 >= SIDE_STACKS {
                    // The card goes back to the hand, at its end.
                    (
                        GameModel { players: m.players.update(p, BoardModel { hand: hand.push(card), ..b }), ..m },
                        Outcome::Refused(Refusal::InvalidIndex("stack"@)),
                    )
                } else {
                    let st = stack_idx.0 as int;
                    let b1 = BoardModel { hand: hand, sides: b.sides.update(st, b.sides[st].push(card)), ..b };
                    let players = m.players.update(p, b1);
                    if b1.personal.len() == 0 && hand.len() == 0 {
                        (
                            GameModel { players: players, phase: GamePhase::Finished, ..m },
                            Outcome::Done(MoveSuccess::GameWon { winner_idx: player }, None, None),
                        )
                    } else {
                        (
                            GameModel {
                                players: players,
                                current_turn: PlayerIdx(((m.current_turn.0 + 1) % (m.players.len() as int)) as usize),
                                turn_phase: TurnPhase::Draw,
                                ..m
                            },
                            Outcome::Done(MoveSuccess::TurnEnded, None, None),
                        )
                    }
                }
            }
        },
        Action::MovePersonalToSide { stack_idx } => {
            if m.turn_phase != TurnPhase::Play {
                refused(m, Refusal::NotAllowed)
            } else if b.personal.len() == 0 || b.personal.last().value != 13 {
                refused(m, Refusal::NotAllowed)
            } else if stack_idx.0 >= SIDE_STACKS {
                refused(m, Refusal::InvalidIndex("stack"@))
            } else {
                let st = stack_idx.0 as int;
                let card = b.personal.last();
                let b1 = BoardModel {
                    personal: b.personal.drop_last(),
                    sides: b.sides.update(st, b.sides[st].push(card)),
                    ..b
                };
                finish_play(m, p, b1, m.table, None, MoveSuccess::Success)
            }
        },
    }
}

/// A move asked for by the player seated at `player`: refused unless that
/// player sits at the table, the game is running and it is their turn.
pub open spec fn next_move(m: GameModel, player: PlayerIdx, action: Action) -> (GameModel, Outcome) {
    let p = find_player(m.players, player);
    if p >= m.players.len() {
        refused(m, Refusal::NotAllowed)
    } else if m.phase != GamePhase::Playing {
        refused(m, Refusal::NotAllowed)
    } else if m.players[p].player_idx != m.current_turn.0 {
        refused(m, Refusal::NotYourTurn)
    } else {
        action_step(m, p, player, action)
    }
}

} // verus!
