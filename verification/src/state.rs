use vstd::prelude::*;

use crate::actions::{Action, MoveError, MoveResult, MoveSuccess, TurnPhase};
use crate::ids::{HandIdx, StackIdx};
use crate::scale_manager::can_place;
use crate::outside::random_first_seat;
use crate::board::{empty_board, BoardModel, PlayerBoard, NORMAL_HAND_SIZE, SIDE_STACKS};
use crate::card::{copy_cards, Card};
use crate::dealer::{cut, draw_step, draw_steps, lemma_draw_steps_stuck, lemma_failed_draw_changes_nothing, CardDealer};
use crate::deck::double_deck;
use crate::ids::{GameId, PlayerId, PlayerIdx, ScaleIdx, Seconds, Seed};
use crate::scale::Scale;
use crate::scale_manager::{first_free_slot, lemma_first_free_slot, lemma_first_free_slot_same, lemma_table_view_update, slot_cards, table_view, ScaleManager};
use crate::state_spec::{action_step, next_move, draw_phase, find_player, lemma_find_player, missing_cards, open_with, opt_cards, place_discards, placed_run, play_onto, refill, table_fits, table_place, GameModel, GamePhase, Outcome, Refusal};

verus! {

/// Number of scale slots on a fresh table.
pub const SCALE_SLOTS: usize = 8;

/// A game: the players' boards, the dealer, the scales, and whose turn it is.
#[derive(Debug)]
pub struct GameState {
    pub game_id: GameId,
    pub phase: GamePhase,
    pub players: Vec<PlayerBoard>,
    pub card_dealer: CardDealer,
    pub scale_manager: ScaleManager,
    pub current_turn: PlayerIdx,
    pub turn_phase: TurnPhase,
    pub turn_seconds: Seconds,
    pub play_time: Seconds,
    pub seed: Seed,
}

/// The boards as plain values.
pub open spec fn models(players: Seq<PlayerBoard>) -> Seq<BoardModel> {
    players.map_values(|b: PlayerBoard| b.model())
}

pub proof fn lemma_models_update(players: Seq<PlayerBoard>, i: int, b: PlayerBoard)
    requires
        0 <= i < players.len(),
    ensures
        models(players.update(i, b)) == models(players).update(i, b.model()),
{
    assert(models(players.update(i, b)) =~= models(players).update(i, b.model()));
}

/// The answer to a move, as plain values.
pub open spec fn outcome_of(r: Result<MoveResult, MoveError>) -> Outcome {
    match r {
        Ok(m) => Outcome::Done(
            m.success,
            match m.drawn_cards { Some(v) => Some(v@), None => None },
            match m.discarded_cards { Some(v) => Some(v@), None => None },
        ),
        Err(e) => Outcome::Refused(match e {
            MoveError::DoesNotFit => Refusal::DoesNotFit,
            MoveError::NotYourTurn => Refusal::NotYourTurn,
            MoveError::NotAllowed => Refusal::NotAllowed,
            MoveError::InvalidIndex { kind } => Refusal::InvalidIndex(kind@),
        }),
    }
}

/// The slot test of the scale manager is the table test of the rules.
proof fn lemma_can_place_is_table_fits(scales: Seq<Option<Scale>>, s: ScaleIdx, card: Card)
    ensures
        can_place(scales, s, card) == table_fits(table_view(scales), s, card),
{
    if s.0 < scales.len() {
        assert(table_view(scales)[s.0 as int] == slot_cards(scales, s.0 as int));
    }
}

/// How the cards of `pile` were handed out: seat `i` got personal cards
/// `[i*pc, (i+1)*pc)` and then, after all personal piles, hand cards
/// `[n*pc + i*hc, n*pc + (i+1)*hc)`; the rest is the draw pile, bottom first.
pub open spec fn dealt_from(m: GameModel, pile: Seq<Card>, pc: int, hc: int) -> bool {
    let n = m.players.len() as int;
    &&& forall|i: int| 0 <= i < n ==> (#[trigger] m.players[i]).personal == cut(pile, i * pc, (i + 1) * pc)
    &&& forall|i: int| 0 <= i < n ==> (#[trigger] m.players[i]).hand == cut(pile, n * pc + i * hc, n * pc + (i + 1) * hc)
    &&& m.draw == cut(pile, n * pc + n * hc, pile.len() as int)
}

/// A freshly started game: running, first half of a turn, seat 0 or 1 on
/// turn, an empty table of eight slots, and a shuffled double deck dealt
/// thirteen personal cards and five hand cards per board, side stacks empty.
pub open spec fn started(g: &GameState) -> bool {
    &&& g.wf()
    &&& g.scale_manager.all_valid()
    &&& g@.phase == GamePhase::Playing
    &&& g@.turn_phase == TurnPhase::Draw
    &&& g@.current_turn.0 <= 1
    &&& g@.table == Seq::new(SCALE_SLOTS as nat, |i: int| None::<Seq<Card>>)
    &&& g@.discard == Seq::<Card>::empty()
    &&& forall|i: int| 0 <= i < g@.players.len() ==> (#[trigger] g@.players[i]).sides
        == Seq::new(SIDE_STACKS as nat, |j: int| Seq::<Card>::empty())
    &&& exists|pile: Seq<Card>| #[trigger] pile.to_multiset() == double_deck().to_multiset()
        && dealt_from(g@, pile, 13, 5)
}

/// Position of the first board that has emptied its personal pile and hand,
/// or the number of boards.
pub open spec fn first_winner(players: Seq<BoardModel>) -> int
    decreases players.len(),
{
    if players.len() == 0 {
        0
    } else if first_winner(players.drop_last()) < players.len() - 1 {
        first_winner(players.drop_last())
    } else if players.last().has_emptied() {
        players.len() - 1
    } else {
        players.len() as int
    }
}

pub proof fn lemma_first_winner(players: Seq<BoardModel>)
    ensures
        0 <= first_winner(players) <= players.len(),
        first_winner(players) < players.len() ==> players[first_winner(players)].has_emptied(),
        forall|j: int| 0 <= j < first_winner(players) ==> !(#[trigger] players[j]).has_emptied(),
    decreases players.len(),
{
    if players.len() > 0 {
        let init = players.drop_last();
        lemma_first_winner(init);
        assert forall|j: int| 0 <= j < init.len() implies init[j] == players[j] by {}
    }
}

impl GameState {
    pub open spec fn view(&self) -> GameModel {
        GameModel {
            phase: self.phase,
            players: models(self.players@),
            draw: self.card_dealer.draw_pile.cards@,
            discard: self.card_dealer.discard_pile@,
            table: table_view(self.scale_manager.scales@),
            current_turn: self.current_turn,
            turn_phase: self.turn_phase,
        }
    }

    /// The scale table is well formed (no scale holds more than twelve cards).
    pub open spec fn wf(&self) -> bool {
        self.scale_manager.wf()
    }

    /// The fields no move changes.
    pub open spec fn same_setting(&self, other: &GameState) -> bool {
        &&& self.game_id == other.game_id
        &&& self.turn_seconds == other.turn_seconds
        &&& self.play_time == other.play_time
        &&& self.seed == other.seed
    }

    fn position_of(&self, player_idx: PlayerIdx) -> (r: Option<usize>)
        ensures
            ({
                let p = find_player(self@.players, player_idx);
                &&& p < self@.players.len() ==> r == Some(p as usize)
                &&& p >= self@.players.len() ==> r is None
                &&& r matches Some(i) ==> i < self.players@.len() && i == p
            }),
    {
        let mut i: usize = 0;
        while i < self.players.len()
            invariant
                i <= self.players@.len(),
                forall|j: int| 0 <= j < i ==> #[trigger] self.players@[j].player_idx != player_idx.0,
            decreases self.players@.len() - i,
        {
            if self.players[i].player_idx == player_idx.0 {
                proof {
                    lemma_find_player(self@.players, player_idx);
                    assert(self@.players[i as int].player_idx == player_idx.0);
                    let p = find_player(self@.players, player_idx);
                    if p < i {
                        assert(self@.players[p].player_idx == self.players@[p].player_idx);
                    }
                }
                return Some(i);
            }
            i = i + 1;
        }
        proof {
            lemma_find_player(self@.players, player_idx);
            let p = find_player(self@.players, player_idx);
            if p < self@.players.len() {
                assert(self@.players[p].player_idx == self.players@[p].player_idx);
            }
        }
        None
    }

    /// Draws into the hand of board `idx` until it holds five cards or the
    /// piles run out; `steps` (ghost) is the number of draws this takes.
    fn fill_hand(&mut self, idx: usize, drawn: &mut Vec<Card>)
        requires
            idx < old(self).players@.len(),
        ensures
            ({
                let b = old(self)@.players[idx as int];
                let (d, x, more) = draw_steps(old(self)@.draw, old(self)@.discard, missing_cards(b.hand.len()));
                &&& final(self)@ == GameModel {
                    players: old(self)@.players.update(idx as int, BoardModel { hand: b.hand + more, ..b }),
                    draw: d,
                    discard: x,
                    ..old(self)@
                }
                &&& final(drawn)@ == old(drawn)@ + more
            }),
            final(self).same_setting(old(self)),
            final(self).scale_manager.scales@ == old(self).scale_manager.scales@,
    {
        let ghost m0 = self@;
        let ghost b0 = self@.players[idx as int];
        let ghost d0 = self@.draw;
        let ghost x0 = self@.discard;
        let ghost drawn0 = drawn@;
        let ghost start = b0.hand.len();
        let ghost steps = missing_cards(start);
        while self.players[idx].hand.len() < NORMAL_HAND_SIZE
            invariant
                idx < self.players@.len(),
                self.players@.len() == old(self).players@.len(),
                start <= self@.players[idx as int].hand.len(),
                self@.players[idx as int].hand.len() <= start + steps,
                ({
                    let k = (self@.players[idx as int].hand.len() - start) as nat;
                    let (d, x, more) = draw_steps(d0, x0, k);
                    &&& self@ == GameModel {
                        players: m0.players.update(idx as int, BoardModel { hand: b0.hand + more, ..b0 }),
                        draw: d,
                        discard: x,
                        ..m0
                    }
                    &&& drawn@ == drawn0 + more
                }),
                self.same_setting(old(self)),
                self.scale_manager.scales@ == old(self).scale_manager.scales@,
                m0 == old(self)@,
                b0 == m0.players[idx as int],
                start == b0.hand.len(),
                steps == missing_cards(start),
                d0 == m0.draw,
                x0 == m0.discard,
                drawn0 == old(drawn)@,
            ensures
                ({
                    let (d, x, more) = draw_steps(d0, x0, steps);
                    &&& self@ == GameModel {
                        players: m0.players.update(idx as int, BoardModel { hand: b0.hand + more, ..b0 }),
                        draw: d,
                        discard: x,
                        ..m0
                    }
                    &&& drawn@ == drawn0 + more
                }),
                self.same_setting(old(self)),
                self.scale_manager.scales@ == old(self).scale_manager.scales@,
            decreases start + steps - self@.players[idx as int].hand.len(),
        {
            let ghost k = (self@.players[idx as int].hand.len() - start) as nat;
            let ghost pre = self@;
            let ghost pre_players = self.players@;
            match self.card_dealer.draw_one() {
                Some(card) => {
                    self.players[idx].draw_to_hand(card);
                    drawn.push(card);
                    proof {
                        lemma_models_update(pre_players, idx as int, self.players@[idx as int]);
                        let (d, x, more) = draw_steps(d0, x0, k);
                        assert(draw_steps(d0, x0, k + 1).2 == more.push(card));
                        assert(b0.hand + more.push(card) =~= (b0.hand + more).push(card));
                        assert(drawn0 + more.push(card) =~= (drawn0 + more).push(card));
                        assert(self@.players[idx as int].hand.len() == start + k + 1);
                        let nb = BoardModel { hand: b0.hand + more.push(card), ..b0 };
                        assert(models(pre_players)[idx as int] == pre_players[idx as int].model());
                        assert(k == (pre.players[idx as int].hand.len() - start) as nat);
                        assert(pre.players == m0.players.update(idx as int, BoardModel { hand: b0.hand + more, ..b0 }));
                        assert(idx < m0.players.len());
                        assert(pre.players[idx as int] == BoardModel { hand: b0.hand + more, ..b0 });
                        assert(self.players@[idx as int].model() =~= nb);
                        assert(self@.players =~= m0.players.update(idx as int, nb));
                        assert(self@.draw == draw_steps(d0, x0, k + 1).0);
                        assert(self@.discard == draw_steps(d0, x0, k + 1).1);
                        assert(self@ =~= GameModel {
                            players: m0.players.update(idx as int, BoardModel { hand: b0.hand + more.push(card), ..b0 }),
                            draw: draw_steps(d0, x0, k + 1).0,
                            discard: draw_steps(d0, x0, k + 1).1,
                            ..m0
                        });
                    }
                },
                None => {
                    proof {
                        let st = draw_steps(d0, x0, k);
                        lemma_failed_draw_changes_nothing(st.0, st.1);
                        lemma_draw_steps_stuck(d0, x0, k, steps);
                    }
                    break;
                },
            }
        }
    }

    /// The draw at the start of a turn, for board `idx`.
    fn execute_draw_phase(&mut self, idx: usize) -> (drawn: Vec<Card>)
        requires
            idx < old(self).players@.len(),
        ensures
            ({
                let b = old(self)@.players[idx as int];
                let (d, x, ds) = draw_phase(old(self)@.draw, old(self)@.discard, b.hand);
                &&& final(self)@ == GameModel {
                    players: old(self)@.players.update(idx as int, BoardModel { hand: b.hand + ds, ..b }),
                    draw: d,
                    discard: x,
                    ..old(self)@
                }
                &&& drawn@ == ds
            }),
            final(self).same_setting(old(self)),
            final(self).scale_manager.scales@ == old(self).scale_manager.scales@,
    {
        let ghost m0 = self@;
        let ghost b0 = self@.players[idx as int];
        let mut drawn: Vec<Card> = Vec::new();
        let ghost pre_players = self.players@;
        match self.card_dealer.draw_one() {
            Some(card) => {
                self.players[idx].draw_to_hand(card);
                drawn.push(card);
                proof {
                    lemma_models_update(pre_players, idx as int, self.players@[idx as int]);
                    assert(m0.players.update(idx as int, BoardModel { hand: b0.hand.push(card), ..b0 }).update(
                        idx as int, BoardModel { hand: b0.hand.push(card), ..b0 }) =~= m0.players.update(idx as int,
                        BoardModel { hand: b0.hand.push(card), ..b0 }));
                }
            },
            None => {},
        }
        let ghost m1 = self@;
        self.fill_hand(idx, &mut drawn);
        proof {
            let (d1, x1, c) = draw_step(m0.draw, m0.discard);
            let first = match c { Some(card) => seq![card], None => Seq::<Card>::empty() };
            let b1 = m1.players[idx as int];
            let (d2, x2, rest) = draw_steps(d1, x1, missing_cards(b1.hand.len()));
            assert(b1.hand == b0.hand + first);
            assert(b0.hand + first + rest =~= b0.hand + (first + rest));
            assert(m1.players.update(idx as int, BoardModel { hand: b1.hand + rest, ..b1 }) =~=
                m0.players.update(idx as int, BoardModel { hand: b0.hand + (first + rest), ..b0 }));
        }
        drawn
    }

    /// Refills an empty hand of board `idx` with up to five cards after a
    /// play; outside a running game nothing happens and `None` comes back.
    fn refill_hand_to_five(&mut self, idx: usize) -> (r: Option<Vec<Card>>)
        requires
            idx < old(self).players@.len(),
        ensures
            old(self).phase != GamePhase::Playing ==> final(self)@ == old(self)@ && r is None,
            old(self).phase == GamePhase::Playing ==> {
                let b = old(self)@.players[idx as int];
                let (d, x, ds) = refill(old(self)@.draw, old(self)@.discard, b.hand);
                &&& final(self)@ == GameModel {
                    players: old(self)@.players.update(idx as int, BoardModel { hand: b.hand + ds, ..b }),
                    draw: d,
                    discard: x,
                    ..old(self)@
                }
                &&& r matches Some(v) && v@ == ds
            },
            final(self).same_setting(old(self)),
            final(self).scale_manager.scales@ == old(self).scale_manager.scales@,
    {
        if self.phase != GamePhase::Playing {
            return None;
        }
        let mut drawn: Vec<Card> = Vec::new();
        if self.players[idx].hand_len() == 0 {
            self.fill_hand(idx, &mut drawn);
        } else {
            proof {
                let b = self@.players[idx as int];
                assert(b.hand + Seq::<Card>::empty() =~= b.hand);
                assert(self@.players.update(idx as int, BoardModel { hand: b.hand + Seq::<Card>::empty(), ..b }) =~= self@.players);
            }
        }
        Some(drawn)
    }

    /// Passes the turn to the next seat and goes back to the draw half of
    /// the turn; returns the seat of the board now on turn.
    pub fn advance_turn(&mut self) -> (r: PlayerIdx)
        requires
            old(self).phase == GamePhase::Playing,
            old(self).players@.len() > 0,
            old(self).current_turn.0 < usize::MAX,
        ensures
            ({
                let next = (old(self).current_turn.0 + 1) % (old(self).players@.len() as int);
                &&& final(self)@ == GameModel {
                    current_turn: PlayerIdx(next as usize),
                    turn_phase: TurnPhase::Draw,
                    ..old(self)@
                }
                &&& r == PlayerIdx(old(self).players@[next].player_idx)
            }),
            final(self).same_setting(old(self)),
            final(self).scale_manager.scales@ == old(self).scale_manager.scales@,
            final(self).players@ == old(self).players@,
    {
        let current_raw = self.current_turn.0;
        let next_raw = (current_raw + 1) % self.players.len();
        self.current_turn = PlayerIdx(next_raw);
        self.turn_phase = TurnPhase::Draw;
        PlayerIdx(self.players[next_raw].player_idx)
    }

    /// Plays `card`, already taken from board `idx`, onto the scale in slot
    /// `scale_idx`, where it fits; a completed scale goes to the discard pile.
    fn place_card(&mut self, idx: usize, scale_idx: ScaleIdx, card: Card) -> (r: Result<MoveResult, MoveError>)
        requires
            old(self).wf(),
            idx < old(self).players@.len(),
            old(self).phase == GamePhase::Playing,
            table_fits(old(self)@.table, scale_idx, card),
        ensures
            final(self).wf(),
            old(self).scale_manager.all_valid() ==> final(self).scale_manager.all_valid(),
            (final(self)@, outcome_of(r)) == play_onto(old(self)@, idx as int, old(self)@.players[idx as int], scale_idx, card),
            final(self).same_setting(old(self)),
    {
        let ghost m0 = self@;
        let ghost scales0 = self.scale_manager.scales@;
        let placed = self.scale_manager.place_on_scale(scale_idx, card);
        let success = match placed {
            Ok(s) => s,
            Err(e) => {
                return Err(e);
            },
        };
        let ghost scales1 = self.scale_manager.scales@;
        proof {
            let i = scale_idx.0 as int;
            assert(table_view(scales0)[i] == slot_cards(scales0, i));
            lemma_table_view_update(scales0, i, scales1[i]);
            assert(scales1 =~= scales0.update(i, scales1[i]));
        }
        let discarded = self.scale_manager.take_completed(scale_idx);
        let mut dealt_back: Vec<Card> = Vec::new();
        match &discarded {
            Some(cards) => {
                dealt_back = copy_cards(cards);
            },
            None => {},
        }
        proof {
            let i = scale_idx.0 as int;
            if discarded is Some {
                lemma_table_view_update(scales1, i, None);
            }
        }
        self.card_dealer.return_to_discard(dealt_back);
        let drawn = self.refill_hand_to_five(idx);
        proof {
            let i = scale_idx.0 as int;
            let run = placed_run(m0.table, scale_idx, card);
            assert(table_view(scales1) == m0.table.update(i, Some(run)));
            assert(self@.table =~= table_place(m0.table, scale_idx, card));
            assert(opt_cards(place_discards(m0.table, scale_idx, card)) =~= dealt_back@);
        }
        Ok(MoveResult { success, drawn_cards: drawn, discarded_cards: discarded })
    }

    /// Opens a scale with the Ace `card`, already taken from board `idx`.
    fn open_card(&mut self, idx: usize, card: Card) -> (r: Result<MoveResult, MoveError>)
        requires
            old(self).wf(),
            idx < old(self).players@.len(),
            old(self).phase == GamePhase::Playing,
            card.value == 1,
        ensures
            final(self).wf(),
            old(self).scale_manager.all_valid() ==> final(self).scale_manager.all_valid(),
            (final(self)@, outcome_of(r)) == open_with(old(self)@, idx as int, old(self)@.players[idx as int], card),
            final(self).same_setting(old(self)),
    {
        let ghost m0 = self@;
        let ghost scales0 = self.scale_manager.scales@;
        let opened = self.scale_manager.open_scale(card);
        let success = match opened {
            Ok(s) => s,
            Err(e) => {
                return Err(e);
            },
        };
        proof {
            assert forall|i: int| 0 <= i < scales0.len() implies (#[trigger] scales0[i] is None) == (m0.table[i] is None) by {
                assert(m0.table[i] == slot_cards(scales0, i));
            }
            lemma_first_free_slot_same(scales0, m0.table);
            let f = first_free_slot(scales0);
            lemma_first_free_slot(scales0);
            let t1 = table_view(self.scale_manager.scales@);
            if f < scales0.len() {
                assert(t1 =~= m0.table.update(f, Some(seq![card])));
            } else {
                assert(t1 =~= m0.table.push(Some(seq![card])));
            }
        }
        let drawn = self.refill_hand_to_five(idx);
        Ok(MoveResult { success, drawn_cards: drawn, discarded_cards: None })
    }

    /// Applies a move by the player seated at `player_idx`. The move is
    /// refused unless that player sits at the table (`NotAllowed`), the game
    /// is running (`NotAllowed`) and it is their turn (`NotYourTurn`); the
    /// effect of each kind of move is `action_step`.
    pub fn apply_move(&mut self, player_idx: PlayerIdx, action: Action) -> (r: Result<MoveResult, MoveError>)
        requires
            old(self).wf(),
            old(self).current_turn.0 == usize::MAX ==> next_move(old(self)@, player_idx, action).1
                != Outcome::Done(MoveSuccess::TurnEnded, None, None),
        ensures
            final(self).wf(),
            old(self).scale_manager.all_valid() ==> final(self).scale_manager.all_valid(),
            (final(self)@, outcome_of(r)) == next_move(old(self)@, player_idx, action),
            final(self).same_setting(old(self)),
    {
        let idx = match self.position_of(player_idx) {
            Some(i) => i,
            None => {
                return Err(MoveError::NotAllowed);
            },
        };
        if self.phase != GamePhase::Playing {
            return Err(MoveError::NotAllowed);
        }
        if self.players[idx].player_idx != self.current_turn.0 {
            return Err(MoveError::NotYourTurn);
        }
        proof {
            assert(self@.players[idx as int] == self.players@[idx as int].model());
        }
        match action {
            Action::Draw => self.act_draw(idx),
            Action::OpenScale { hand_idx } => self.act_open_scale(idx, hand_idx),
            Action::PlayHand { hand_idx, scale_idx } => self.act_play_hand(idx, hand_idx, scale_idx),
            Action::PlayPersonal { scale_idx } => self.act_play_personal(idx, scale_idx),
            Action::PlaySide { stack_idx, scale_idx } => self.act_play_side(idx, stack_idx, scale_idx),
            Action::MoveToSide { hand_idx, stack_idx } => self.act_move_to_side(idx, player_idx, hand_idx, stack_idx),
            Action::MovePersonalToSide { stack_idx } => self.act_move_personal_to_side(idx, stack_idx),
        }
    }

    fn act_draw(&mut self, idx: usize) -> (r: Result<MoveResult, MoveError>)
        requires
            old(self).wf(),
            idx < old(self).players@.len(),
            old(self).phase == GamePhase::Playing,
        ensures
            final(self).wf(),
            old(self).scale_manager.all_valid() ==> final(self).scale_manager.all_valid(),
            (final(self)@, outcome_of(r)) == action_step(old(self)@, idx as int, PlayerIdx(0), Action::Draw),
            final(self).same_setting(old(self)),
    {
        if self.turn_phase != TurnPhase::Draw {
            return Err(MoveError::NotAllowed);
        }
        let drawn = self.execute_draw_phase(idx);
        self.turn_phase = TurnPhase::Play;
        Ok(MoveResult { success: MoveSuccess::Success, drawn_cards: Some(drawn), discarded_cards: None })
    }

    fn act_open_scale(&mut self, idx: usize, hand_idx: HandIdx) -> (r: Result<MoveResult, MoveError>)
        requires
            old(self).wf(),
            idx < old(self).players@.len(),
            old(self).phase == GamePhase::Playing,
        ensures
            final(self).wf(),
            old(self).scale_manager.all_valid() ==> final(self).scale_manager.all_valid(),
            (final(self)@, outcome_of(r)) == action_step(old(self)@, idx as int, PlayerIdx(0), Action::OpenScale { hand_idx }),
            final(self).same_setting(old(self)),
    {
        if self.turn_phase != TurnPhase::Play {
            return Err(MoveError::NotAllowed);
        }
        proof {
            assert(self@.players[idx as int] == self.players@[idx as int].model());
        }
        if hand_idx.as_usize() >= self.players[idx].hand.len() {
            return Err(MoveError::InvalidIndex { kind: "hand_idx".to_string() });
        }
        let card = self.players[idx].hand[hand_idx.as_usize()];
        if card.value != 1 {
            return Err(MoveError::DoesNotFit);
        }
        let ghost pre_players = self.players@;
        let _ = self.players[idx].take_from_hand(hand_idx.as_usize());
        proof {
            lemma_models_update(pre_players, idx as int, self.players@[idx as int]);
        }
        self.open_card(idx, card)
    }

    fn act_play_hand(&mut self, idx: usize, hand_idx: HandIdx, scale_idx: ScaleIdx) -> (r: Result<MoveResult, MoveError>)
        requires
            old(self).wf(),
            idx < old(self).players@.len(),
            old(self).phase == GamePhase::Playing,
        ensures
            final(self).wf(),
            old(self).scale_manager.all_valid() ==> final(self).scale_manager.all_valid(),
            (final(self)@, outcome_of(r)) == action_step(old(self)@, idx as int, PlayerIdx(0), Action::PlayHand { hand_idx, scale_idx }),
            final(self).same_setting(old(self)),
    {
        if self.turn_phase != TurnPhase::Play {
            return Err(MoveError::NotAllowed);
        }
        proof {
            assert(self@.players[idx as int] == self.players@[idx as int].model());
        }
        if hand_idx.as_usize() >= self.players[idx].hand.len() {
            return Err(MoveError::InvalidIndex { kind: "hand_idx".to_string() });
        }
        let card = self.players[idx].hand[hand_idx.as_usize()];
        if !self.scale_manager.can_place_on_scale(scale_idx, &card) {
            proof { lemma_can_place_is_table_fits(self.scale_manager.scales@, scale_idx, card); }
            return Err(MoveError::DoesNotFit);
        }
        proof { lemma_can_place_is_table_fits(self.scale_manager.scales@, scale_idx, card); }
        let ghost pre_players = self.players@;
        let _ = self.players[idx].take_from_hand(hand_idx.as_usize());
        proof {
            lemma_models_update(pre_players, idx as int, self.players@[idx as int]);
        }
        self.place_card(idx, scale_idx, card)
    }

    fn act_play_personal(&mut self, idx: usize, scale_idx: ScaleIdx) -> (r: Result<MoveResult, MoveError>)
        requires
            old(self).wf(),
            idx < old(self).players@.len(),
            old(self).phase == GamePhase::Playing,
        ensures
            final(self).wf(),
            old(self).scale_manager.all_valid() ==> final(self).scale_manager.all_valid(),
            (final(self)@, outcome_of(r)) == action_step(old(self)@, idx as int, PlayerIdx(0), Action::PlayPersonal { scale_idx }),
            final(self).same_setting(old(self)),
    {
        if self.turn_phase != TurnPhase::Play {
            return Err(MoveError::NotAllowed);
        }
        let ghost m0 = self@;
        let ghost pre_players = self.players@;
        proof {
            assert(self@.players[idx as int] == self.players@[idx as int].model());
        }
        let card = match self.players[idx].pop_personal() {
            Some(c) => c,
            None => {
                return Err(MoveError::InvalidIndex { kind: "personal".to_string() });
            },
        };
        proof {
            lemma_models_update(pre_players, idx as int, self.players@[idx as int]);
        }
        if card.value == 1 {
            return self.open_card(idx, card);
        }
        if !self.scale_manager.can_place_on_scale(scale_idx, &card) {
            proof { lemma_can_place_is_table_fits(self.scale_manager.scales@, scale_idx, card); }
            let ghost mid_players = self.players@;
            self.players[idx].personal.push(card);
            proof {
                lemma_models_update(mid_players, idx as int, self.players@[idx as int]);
                let b0 = m0.players[idx as int];
                assert(b0.personal.drop_last().push(card) =~= b0.personal);
                assert(self.players@[idx as int].model() =~= b0);
                assert(self@.players =~= m0.players);
                assert(self@ =~= m0);
            }
            return Err(MoveError::DoesNotFit);
        }
        proof { lemma_can_place_is_table_fits(self.scale_manager.scales@, scale_idx, card); }
        self.place_card(idx, scale_idx, card)
    }

    fn act_play_side(&mut self, idx: usize, stack_idx: StackIdx, scale_idx: ScaleIdx) -> (r: Result<MoveResult, MoveError>)
        requires
            old(self).wf(),
            idx < old(self).players@.len(),
            old(self).phase == GamePhase::Playing,
        ensures
            final(self).wf(),
            old(self).scale_manager.all_valid() ==> final(self).scale_manager.all_valid(),
            (final(self)@, outcome_of(r)) == action_step(old(self)@, idx as int, PlayerIdx(0), Action::PlaySide { stack_idx, scale_idx }),
            final(self).same_setting(old(self)),
    {
        if self.turn_phase != TurnPhase::Play {
            return Err(MoveError::NotAllowed);
        }
        let ghost m0 = self@;
        let ghost pre_players = self.players@;
        proof {
            assert(self@.players[idx as int] == self.players@[idx as int].model());
        }
        let card = match self.players[idx].take_from_side(stack_idx.as_usize()) {
            Some(c) => c,
            None => {
                return Err(MoveError::InvalidIndex { kind: "stack".to_string() });
            },
        };
        proof {
            lemma_models_update(pre_players, idx as int, self.players@[idx as int]);
        }
        if !self.scale_manager.can_place_on_scale(scale_idx, &card) {
            proof { lemma_can_place_is_table_fits(self.scale_manager.scales@, scale_idx, card); }
            let ghost mid_players = self.players@;
            self.players[idx].hand.push(card);
            proof {
                lemma_models_update(mid_players, idx as int, self.players@[idx as int]);
            }
            return Err(MoveError::DoesNotFit);
        }
        proof { lemma_can_place_is_table_fits(self.scale_manager.scales@, scale_idx, card); }
        self.place_card(idx, scale_idx, card)
    }

    fn act_move_to_side(&mut self, idx: usize, player_idx: PlayerIdx, hand_idx: HandIdx, stack_idx: StackIdx)
        -> (r: Result<MoveResult, MoveError>)
        requires
            old(self).wf(),
            idx < old(self).players@.len(),
            old(self).phase == GamePhase::Playing,
            old(self).current_turn.0 == usize::MAX ==> action_step(
                old(self)@,
                idx as int,
                player_idx,
                Action::MoveToSide { hand_idx, stack_idx },
            ).1 != Outcome::Done(MoveSuccess::TurnEnded, None, None),
        ensures
            final(self).wf(),
            old(self).scale_manager.all_valid() ==> final(self).scale_manager.all_valid(),
            (final(self)@, outcome_of(r)) == action_step(old(self)@, idx as int, player_idx, Action::MoveToSide { hand_idx, stack_idx }),
            final(self).same_setting(old(self)),
    {
        if self.turn_phase != TurnPhase::Play {
            return Err(MoveError::NotAllowed);
        }
        let ghost m0 = self@;
        let ghost pre_players = self.players@;
        proof {
            assert(self@.players[idx as int] == self.players@[idx as int].model());
        }
        let card = match self.players[idx].take_from_hand(hand_idx.as_usize()) {
            Some(c) => c,
            None => {
                return Err(MoveError::InvalidIndex { kind: "hand_idx".to_string() });
            },
        };
        proof {
            lemma_models_update(pre_players, idx as int, self.players@[idx as int]);
        }
        let ghost mid_players = self.players@;
        if self.players[idx].place_on_side(stack_idx.as_usize(), card) {
            proof {
                lemma_models_update(mid_players, idx as int, self.players@[idx as int]);
            }
            if self.players[idx].has_won() {
                self.phase = GamePhase::Finished;
                Ok(MoveResult {
                    success: MoveSuccess::GameWon { winner_idx: player_idx },
                    drawn_cards: None,
                    discarded_cards: None,
                })
            } else {
                let _ = self.advance_turn();
                Ok(MoveResult { success: MoveSuccess::TurnEnded, drawn_cards: None, discarded_cards: None })
            }
        } else {
            self.players[idx].hand.push(card);
            proof {
                lemma_models_update(mid_players, idx as int, self.players@[idx as int]);
            }
            Err(MoveError::InvalidIndex { kind: "stack".to_string() })
        }
    }

    fn act_move_personal_to_side(&mut self, idx: usize, stack_idx: StackIdx) -> (r: Result<MoveResult, MoveError>)
        requires
            old(self).wf(),
            idx < old(self).players@.len(),
            old(self).phase == GamePhase::Playing,
        ensures
            final(self).wf(),
            old(self).scale_manager.all_valid() ==> final(self).scale_manager.all_valid(),
            (final(self)@, outcome_of(r)) == action_step(old(self)@, idx as int, PlayerIdx(0), Action::MovePersonalToSide { stack_idx }),
            final(self).same_setting(old(self)),
    {
        if self.turn_phase != TurnPhase::Play {
            return Err(MoveError::NotAllowed);
        }
        let ghost m0 = self@;
        let ghost pre_players = self.players@;
        proof {
            assert(self@.players[idx as int] == self.players@[idx as int].model());
        }
        let is_king = match self.players[idx].personal_top() {
            Some(c) => c.value == 13,
            None => false,
        };
        if !is_king {
            return Err(MoveError::NotAllowed);
        }
        let card = match self.players[idx].pop_personal() {
            Some(c) => c,
            None => {
                return Err(MoveError::NotAllowed);
            },
        };
        proof {
            lemma_models_update(pre_players, idx as int, self.players@[idx as int]);
        }
        let ghost mid_players = self.players@;
        if self.players[idx].place_on_side(stack_idx.as_usize(), card) {
            proof {
                lemma_models_update(mid_players, idx as int, self.players@[idx as int]);
            }
            let drawn = self.refill_hand_to_five(idx);
            Ok(MoveResult { success: MoveSuccess::Success, drawn_cards: drawn, discarded_cards: None })
        } else {
            self.players[idx].personal.push(card);
            proof {
                lemma_models_update(mid_players, idx as int, self.players@[idx as int]);
                let b0 = m0.players[idx as int];
                assert(b0.personal.drop_last().push(card) =~= b0.personal);
                assert(self.players@[idx as int].model() =~= b0);
                assert(self@.players =~= m0.players);
                assert(self@ =~= m0);
            }
            Err(MoveError::InvalidIndex { kind: "stack".to_string() })
        }
    }

    /// A game of two seats (0 and 1) waiting to start: the double deck is
    /// shuffled with `seed`, then each seat gets a personal pile of
    /// `personal_count` cards and a hand of `hand_count` cards from it.
    pub fn new(game_id: GameId, seed: Seed, personal_count: usize, hand_count: usize, turn_seconds: Seconds) -> (r: Self)
        ensures
            r.wf(),
            r.scale_manager.all_valid(),
            r@.phase == GamePhase::Waiting,
            r@.players.len() == 2,
            forall|i: int| 0 <= i < 2 ==> {
                &&& (#[trigger] r@.players[i]).player_idx == i
                &&& r@.players[i].player_id == Some(PlayerId(0))
                &&& r@.players[i].sides == Seq::new(SIDE_STACKS as nat, |j: int| Seq::<Card>::empty())
            },
            exists|pile: Seq<Card>| #[trigger] pile.to_multiset() == double_deck().to_multiset()
                && dealt_from(r@, pile, personal_count as int, hand_count as int),
            r@.discard == Seq::<Card>::empty(),
            r@.table == Seq::new(SCALE_SLOTS as nat, |i: int| None::<Seq<Card>>),
            r@.current_turn == PlayerIdx(0),
            r@.turn_phase == TurnPhase::Draw,
            r.game_id == game_id,
            r.seed == seed,
            r.turn_seconds == turn_seconds,
            r.play_time == Seconds(0),
    {
        let num_players: usize = 2;
        let mut dealer = CardDealer::new(seed);
        let ghost pile = dealer.draw_pile.cards@;
        let (mut personal_piles, mut hands) = dealer.deal_initial(num_players, personal_count, hand_count);
        let mut players: Vec<PlayerBoard> = Vec::new();
        let mut i: usize = 0;
        while i < num_players
            invariant
                i <= num_players,
                num_players == 2,
                personal_piles@.len() == num_players,
                hands@.len() == num_players,
                players@.len() == i,
                forall|k: int| i <= k < num_players ==> #[trigger] personal_piles@[k]@
                    == cut(pile, k * personal_count, (k + 1) * personal_count),
                forall|k: int| i <= k < num_players ==> #[trigger] hands@[k]@
                    == cut(pile, num_players * personal_count + k * hand_count, num_players * personal_count + (k + 1) * hand_count),
                forall|k: int| 0 <= k < i ==> {
                    &&& (#[trigger] players@[k]).player_idx == k
                    &&& players@[k].player_id == Some(PlayerId(0))
                    &&& players@[k].sides() == Seq::new(SIDE_STACKS as nat, |j: int| Seq::<Card>::empty())
                    &&& players@[k].personal@ == cut(pile, k * personal_count, (k + 1) * personal_count)
                    &&& players@[k].hand@ == cut(pile, num_players * personal_count + k * hand_count,
                        num_players * personal_count + (k + 1) * hand_count)
                },
            decreases num_players - i,
        {
            let mut board = PlayerBoard::new(i);
            board.player_id = Some(PlayerId(0));
            let mut personal: Vec<Card> = Vec::new();
            std::mem::swap(&mut personal, &mut personal_piles[i]);
            let mut hand: Vec<Card> = Vec::new();
            std::mem::swap(&mut hand, &mut hands[i]);
            board.set_personal(personal);
            board.hand = hand;
            players.push(board);
            i = i + 1;
        }
        let r = Self {
            game_id,
            phase: GamePhase::Waiting,
            players,
            card_dealer: dealer,
            scale_manager: ScaleManager::with_empty_slots(SCALE_SLOTS),
            current_turn: PlayerIdx(0),
            turn_phase: TurnPhase::Draw,
            turn_seconds,
            play_time: Seconds(0),
            seed,
        };
        proof {
            assert(r@.table =~= Seq::new(SCALE_SLOTS as nat, |i: int| None::<Seq<Card>>));
            assert(r@.players[0] == r.players@[0].model());
            assert(r@.players[1] == r.players@[1].model());
            assert(dealt_from(r@, pile, personal_count as int, hand_count as int));
        }
        r
    }

    /// A game waiting to start with the given boards and dealer.
    pub fn test_new(players: Vec<PlayerBoard>, current_turn: PlayerIdx, card_dealer: CardDealer, turn_seconds: Seconds)
        -> (r: Self)
        ensures
            r.wf(),
            r.players@ == players@,
            r.phase == GamePhase::Waiting,
            r.card_dealer.draw_pile.cards@ == card_dealer.draw_pile.cards@,
            r.card_dealer.discard_pile@ == card_dealer.discard_pile@,
            r.scale_manager.scales@ == Seq::<Option<Scale>>::empty(),
            r.current_turn == current_turn,
            r.turn_phase == TurnPhase::Draw,
            r.turn_seconds == turn_seconds,
            r.play_time == Seconds(0),
            r.seed == Seed(0),
            r.game_id.0@ == "test_room"@,
    {
        Self {
            game_id: GameId("test_room".to_string()),
            phase: GamePhase::Waiting,
            players,
            card_dealer,
            scale_manager: ScaleManager::new(),
            current_turn,
            turn_phase: TurnPhase::Draw,
            turn_seconds,
            play_time: Seconds(0),
            seed: Seed(0),
        }
    }

    /// Seats a new player: refused when two players already sit, or when
    /// the id or the seat is taken. Seating the second player starts the game.
    pub fn add_player(&mut self, player_id: PlayerId, player_idx: PlayerIdx) -> (r: bool)
        ensures
            r == (old(self).players@.len() < 2
                && (forall|i: int| 0 <= i < old(self).players@.len() ==> #[trigger] old(self).players@[i].player_id != Some(player_id))
                && (forall|i: int| 0 <= i < old(self).players@.len() ==> #[trigger] old(self).players@[i].player_idx != player_idx.0)),
            !r ==> final(self)@ == old(self)@ && final(self).scale_manager.scales@ == old(self).scale_manager.scales@,
            final(self).same_setting(old(self)),
            r ==> final(self).players@.len() == old(self).players@.len() + 1,
            r ==> final(self)@.players.last().player_idx == player_idx.0,
            r ==> final(self)@.players.last().player_id == Some(player_id),
            r && final(self).players@.len() < 2 ==> {
                &&& final(self)@ == GameModel {
                    players: old(self)@.players.push(empty_board(player_idx.0).with_id(player_id)),
                    ..old(self)@
                }
                &&& final(self).scale_manager.scales@ == old(self).scale_manager.scales@
            },
            r && final(self).players@.len() == 2 ==> started(final(self)),
            final(self).players@.len() <= 2 || final(self).players@.len() == old(self).players@.len(),
            old(self).wf() ==> final(self).wf(),
    {
        if self.players.len() >= 2 {
            return false;
        }
        let mut i: usize = 0;
        while i < self.players.len()
            invariant
                i <= self.players@.len(),
                forall|k: int| 0 <= k < i ==> #[trigger] self.players@[k].player_id != Some(player_id),
            decreases self.players@.len() - i,
        {
            if self.players[i].player_id == Some(player_id) {
                return false;
            }
            i = i + 1;
        }
        let mut j: usize = 0;
        while j < self.players.len()
            invariant
                j <= self.players@.len(),
                forall|k: int| 0 <= k < j ==> #[trigger] self.players@[k].player_idx != player_idx.0,
            decreases self.players@.len() - j,
        {
            if self.players[j].player_idx == player_idx.0 {
                return false;
            }
            j = j + 1;
        }
        let mut board = PlayerBoard::new(player_idx.0);
        board.player_id = Some(player_id);
        let ghost pre_players = self.players@;
        self.players.push(board);
        proof {
            assert(models(self.players@) =~= models(pre_players).push(board.model()));
            assert(board.model() =~= empty_board(player_idx.0).with_id(player_id));
        }
        if self.players.len() == 2 {
            self.start_game();
        }
        true
    }

    /// Removes every board seated at `player_idx`. Removing a player from a
    /// running game finishes it; a turn pointing past the boards goes back to 0.
    pub fn remove_player(&mut self, player_idx: PlayerIdx)
        ensures
            final(self).players@ == old(self).players@.filter(|b: PlayerBoard| b.player_idx != player_idx.0),
            final(self).phase == if final(self).players@.len() != old(self).players@.len()
                && old(self).phase == GamePhase::Playing {
                GamePhase::Finished
            } else {
                old(self).phase
            },
            final(self).current_turn == if old(self).current_turn.0 >= final(self).players@.len() {
                PlayerIdx(0)
            } else {
                old(self).current_turn
            },
            final(self).turn_phase == old(self).turn_phase,
            final(self).card_dealer.draw_pile.cards@ == old(self).card_dealer.draw_pile.cards@,
            final(self).card_dealer.discard_pile@ == old(self).card_dealer.discard_pile@,
            final(self).scale_manager.scales@ == old(self).scale_manager.scales@,
            final(self).same_setting(old(self)),
    {
        let before = self.players.len();
        let ghost orig = self.players@;
        let ghost keep = |b: PlayerBoard| b.player_idx != player_idx.0;
        let mut i: usize = 0;
        let ghost mut k: int = 0;
        while i < self.players.len()
            invariant
                0 <= k <= orig.len(),
                self.players@ == orig.take(k).filter(keep) + orig.skip(k),
                i == orig.take(k).filter(keep).len(),
                keep == (|b: PlayerBoard| b.player_idx != player_idx.0),
                orig == old(self).players@,
                before == orig.len(),
                self.phase == old(self).phase,
                self.current_turn == old(self).current_turn,
                self.turn_phase == old(self).turn_phase,
                self.card_dealer.draw_pile.cards@ == old(self).card_dealer.draw_pile.cards@,
                self.card_dealer.discard_pile@ == old(self).card_dealer.discard_pile@,
                self.scale_manager.scales@ == old(self).scale_manager.scales@,
                self.same_setting(old(self)),
            decreases orig.len() - k,
        {
            proof {
                assert(orig.take(k + 1) =~= orig.take(k).push(orig[k]));
                orig.take(k).lemma_filter_push(orig[k], keep);
                assert(self.players@[i as int] == orig[k]);
            }
            if self.players[i].player_idx == player_idx.0 {
                self.players.remove(i);
                proof {
                    assert(self.players@ =~= orig.take(k + 1).filter(keep) + orig.skip(k + 1));
                    k = k + 1;
                }
            } else {
                proof {
                    assert(self.players@ =~= orig.take(k + 1).filter(keep) + orig.skip(k + 1));
                    k = k + 1;
                }
                i = i + 1;
            }
        }
        proof {
            if k < orig.len() {
                assert(self.players@.len() > i);
            }
            assert(orig.take(orig.len() as int) =~= orig);
            assert(self.players@ =~= orig.filter(keep));
        }
        if self.players.len() != before && self.phase == GamePhase::Playing {
            self.phase = GamePhase::Finished;
        }
        if self.current_turn.0 >= self.players.len() {
            self.current_turn = PlayerIdx(0);
        }
    }

    /// The first board seated at `idx`, if any.
    pub fn player(&self, idx: PlayerIdx) -> (r: Option<&PlayerBoard>)
        ensures
            ({
                let p = find_player(self@.players, idx);
                &&& p < self@.players.len() ==> r == Some(&self.players@[p])
                &&& p >= self@.players.len() ==> r is None
            }),
    {
        match self.position_of(idx) {
            Some(i) => Some(&self.players[i]),
            None => None,
        }
    }

    /// (Re)starts the game: a fresh dealer from the game's seed, thirteen
    /// personal cards and five hand cards per board, empty side stacks, an
    /// empty table, and a randomly chosen seat (0 or 1) to begin.
    pub fn start_game(&mut self)
        ensures
            started(final(self)),
            final(self)@.players.len() == old(self)@.players.len(),
            forall|i: int| 0 <= i < old(self)@.players.len() ==> {
                &&& (#[trigger] final(self)@.players[i]).player_idx == old(self)@.players[i].player_idx
                &&& final(self)@.players[i].player_id == old(self)@.players[i].player_id
            },
            final(self).same_setting(old(self)),
    {
        self.card_dealer = CardDealer::new(self.seed);
        let ghost pile = self.card_dealer.draw_pile.cards@;
        let n = self.players.len();
        let (mut personal_piles, mut hands) = self.card_dealer.deal_initial(n, 13, 5);
        let ghost pre_players = self.players@;
        let mut i: usize = 0;
        while i < n
            invariant
                i <= n,
                n == self.players@.len(),
                n == pre_players.len(),
                personal_piles@.len() == n,
                hands@.len() == n,
                self.seed == old(self).seed,
                self.game_id == old(self).game_id,
                self.turn_seconds == old(self).turn_seconds,
                self.play_time == old(self).play_time,
                self.card_dealer.discard_pile@ == Seq::<Card>::empty(),
                pile.to_multiset() == double_deck().to_multiset(),
                self.card_dealer.draw_pile.cards@ == cut(pile, n * 13 + n * 5, pile.len() as int),
                forall|k: int| i <= k < n ==> #[trigger] personal_piles@[k]@ == cut(pile, k * 13, (k + 1) * 13),
                forall|k: int| i <= k < n ==> #[trigger] hands@[k]@ == cut(pile, n * 13 + k * 5, n * 13 + (k + 1) * 5),
                forall|k: int| i <= k < n ==> #[trigger] self.players@[k] == pre_players[k],
                forall|k: int| 0 <= k < i ==> {
                    &&& (#[trigger] self.players@[k]).player_idx == pre_players[k].player_idx
                    &&& self.players@[k].player_id == pre_players[k].player_id
                    &&& self.players@[k].sides() == Seq::new(SIDE_STACKS as nat, |j: int| Seq::<Card>::empty())
                    &&& self.players@[k].personal@ == cut(pile, k * 13, (k + 1) * 13)
                    &&& self.players@[k].hand@ == cut(pile, n * 13 + k * 5, n * 13 + (k + 1) * 5)
                },
            decreases n - i,
        {
            let mut personal: Vec<Card> = Vec::new();
            std::mem::swap(&mut personal, &mut personal_piles[i]);
            let mut hand: Vec<Card> = Vec::new();
            std::mem::swap(&mut hand, &mut hands[i]);
            let board = &mut self.players[i];
            board.set_personal(personal);
            board.hand = hand;
            board.side = [Vec::new(), Vec::new(), Vec::new(), Vec::new()];
            proof {
                assert(board.sides() =~= Seq::new(SIDE_STACKS as nat, |j: int| Seq::<Card>::empty()));
            }
            i = i + 1;
        }
        self.scale_manager = ScaleManager::with_empty_slots(SCALE_SLOTS);
        self.phase = GamePhase::Playing;
        self.turn_phase = TurnPhase::Draw;
        self.current_turn = PlayerIdx(random_first_seat());
        proof {
            assert(self@.table =~= Seq::new(SCALE_SLOTS as nat, |i: int| None::<Seq<Card>>));
            assert forall|k: int| 0 <= k < n implies #[trigger] self@.players[k] == self.players@[k].model() by {}
            assert(dealt_from(self@, pile, 13, 5));
        }
    }

    /// The seat on turn, while the game is running.
    pub fn current_player_idx(&self) -> (r: Option<PlayerIdx>)
        ensures
            r == if self.phase == GamePhase::Playing { Some(self.current_turn) } else { None },
    {
        if self.phase != GamePhase::Playing {
            return None;
        }
        Some(self.current_turn)
    }

    pub fn is_playing(&self) -> (r: bool)
        ensures
            r == (self.phase == GamePhase::Playing),
    {
        self.phase == GamePhase::Playing
    }

    /// The slot `scale_idx` of the table.
    pub fn scale(&self, scale_idx: ScaleIdx) -> (r: &Option<Scale>)
        requires
            scale_idx.0 < self.scale_manager.scales@.len(),
        ensures
            *r == self.scale_manager.scales@[scale_idx.0 as int],
    {
        &self.scale_manager.scales[scale_idx.as_usize()]
    }

    /// The first board that has emptied both its personal pile and its hand.
    pub fn winner(&self) -> (r: Option<&PlayerBoard>)
        ensures
            ({
                let w = first_winner(self@.players);
                &&& w < self@.players.len() ==> r == Some(&self.players@[w])
                &&& w >= self@.players.len() ==> r is None
            }),
    {
        proof { lemma_first_winner(self@.players); }
        let mut i: usize = 0;
        while i < self.players.len()
            invariant
                i <= self.players@.len(),
                forall|k: int| 0 <= k < i ==> !(#[trigger] self.players@[k].model()).has_emptied(),
            decreases self.players@.len() - i,
        {
            if self.players[i].has_won() {
                proof {
                    lemma_first_winner(self@.players);
                    let w = first_winner(self@.players);
                    assert(self@.players[i as int] == self.players@[i as int].model());
                    if w < i {
                        assert(self@.players[w] == self.players@[w].model());
                    }
                }
                return Some(&self.players[i]);
            }
            i = i + 1;
        }
        proof {
            lemma_first_winner(self@.players);
            let w = first_winner(self@.players);
            if w < self@.players.len() {
                assert(self@.players[w] == self.players@[w].model());
            }
        }
        None
    }

    /// Whether the board at vector position `player_idx` has won; if so the
    /// game is finished.
    pub fn check_win_condition(&mut self, player_idx: PlayerIdx) -> (r: bool)
        requires
            player_idx.0 < old(self).players@.len(),
        ensures
            r == old(self)@.players[player_idx.0 as int].has_emptied(),
            final(self)@ == if r { GameModel { phase: GamePhase::Finished, ..old(self)@ } } else { old(self)@ },
            final(self).scale_manager.scales@ == old(self).scale_manager.scales@,
            final(self).same_setting(old(self)),
    {
        proof {
            assert(self@.players[player_idx.0 as int] == self.players@[player_idx.0 as int].model());
        }
        if self.players[player_idx.0].has_won() {
            self.phase = GamePhase::Finished;
            return true;
        }
        false
    }

    /// Whether `card` fits the scale in slot `scale_id`.
    pub fn can_place_on_scale(&self, scale_id: ScaleIdx, card: &Card) -> (r: bool)
        requires
            self.wf(),
        ensures
            r == table_fits(self@.table, scale_id, *card),
    {
        proof { lemma_can_place_is_table_fits(self.scale_manager.scales@, scale_id, *card); }
        self.scale_manager.can_place_on_scale(scale_id, card)
    }
}

} // verus!
