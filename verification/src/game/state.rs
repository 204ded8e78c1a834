use vstd::prelude::*;

use crate::actions::TurnPhase;
use crate::card::Card;
use crate::deck::{double_deck, Deck};
use crate::game::action::Action;
use crate::card::copy_sides;
use crate::game::board::{copy_board, PlayerBoard};
use crate::game::result::PlayResult;
use crate::game::scale::Scale;
use crate::game::scale_manager::{place_effect, runs, ScaleManager};
use crate::outside::random_seed;

verus! {

/// Where a game of the first rule set is in its life.
#[derive(Debug, Clone, Copy, PartialEq, Eq, Structural)]
pub enum GamePhase {
    Waiting,
    Playing,
    Finished,
}

/// A game of the first rule set.
pub struct GameState {
    pub room_id: String,
    pub phase: GamePhase,
    pub players: Vec<PlayerBoard>,
    pub draw_pile: Deck,
    pub discard_pile: Vec<Card>,
    pub scales: Vec<Scale>,
    pub current_turn: usize,
    pub turn_phase: TurnPhase,
    pub turn_seconds: u64,
    pub seed: u64,
}

/// A board of the first rule set, as plain values.
#[verifier::ext_equal]
pub struct BoardView {
    pub player_id: Seq<char>,
    pub username: Seq<char>,
    pub personal: Seq<Card>,
    pub sides: Seq<Seq<Card>>,
    pub hand: Seq<Card>,
}

/// A game of the first rule set, as plain values.
#[verifier::ext_equal]
pub struct StateView {
    pub phase: GamePhase,
    pub players: Seq<BoardView>,
    pub draw: Seq<Card>,
    pub discard: Seq<Card>,
    pub runs: Seq<Seq<Card>>,
    pub current_turn: usize,
    pub turn_phase: TurnPhase,
}

pub open spec fn board_view(b: PlayerBoard) -> BoardView {
    BoardView {
        player_id: b.player_id@,
        username: b.username@,
        personal: b.personal@,
        sides: b.sides(),
        hand: b.hand@,
    }
}

pub open spec fn board_views(players: Seq<PlayerBoard>) -> Seq<BoardView> {
    players.map_values(|b: PlayerBoard| board_view(b))
}

proof fn lemma_board_views_update(players: Seq<PlayerBoard>, i: int, b: PlayerBoard)
    requires
        0 <= i < players.len(),
    ensures
        board_views(players.update(i, b)) == board_views(players).update(i, board_view(b)),
{
    assert(board_views(players.update(i, b)) =~= board_views(players).update(i, board_view(b)));
}

/// Position of the first board owned by `id`, or the number of boards.
pub open spec fn find_owner(players: Seq<BoardView>, id: Seq<char>) -> int
    decreases players.len(),
{
    if players.len() == 0 {
        0
    } else if find_owner(players.drop_last(), id) < players.len() - 1 {
        find_owner(players.drop_last(), id)
    } else if players.last().player_id == id {
        players.len() - 1
    } else {
        players.len() as int
    }
}

pub proof fn lemma_find_owner(players: Seq<BoardView>, id: Seq<char>)
    ensures
        0 <= find_owner(players, id) <= players.len(),
        find_owner(players, id) < players.len() ==> players[find_owner(players, id)].player_id == id,
        forall|j: int| 0 <= j < find_owner(players, id) ==> (#[trigger] players[j]).player_id != id,
    decreases players.len(),
{
    if players.len() > 0 {
        let init = players.drop_last();
        lemma_find_owner(init, id);
        assert forall|j: int| 0 <= j < init.len() implies init[j] == players[j] by {}
    }
}

/// One draw of the first rule set: the discard pile goes under the draw
/// pile when exactly five cards are left, then the top card is taken.
pub open spec fn first_rules_draw(draw: Seq<Card>, discard: Seq<Card>) -> (Seq<Card>, Seq<Card>, Option<Card>) {
    let (d, x) = if draw.len() == 5 && discard.len() > 0 {
        (discard + draw, Seq::<Card>::empty())
    } else {
        (draw, discard)
    };
    if d.len() == 0 {
        (d, x, None)
    } else {
        (d.drop_last(), x, Some(d.last()))
    }
}

/// `n` draws of the first rule set, stopping at the first that finds nothing.
pub open spec fn first_rules_draws(draw: Seq<Card>, discard: Seq<Card>, n: nat) -> (Seq<Card>, Seq<Card>, Seq<Card>)
    decreases n,
{
    if n == 0 {
        (draw, discard, Seq::empty())
    } else {
        let (d, x, cs) = first_rules_draws(draw, discard, (n - 1) as nat);
        if cs.len() < n - 1 {
            (d, x, cs)
        } else {
            let (d2, x2, c) = first_rules_draw(d, x);
            match c {
                Some(card) => (d2, x2, cs.push(card)),
                None => (d2, x2, cs),
            }
        }
    }
}

pub proof fn lemma_first_rules_draws_len(draw: Seq<Card>, discard: Seq<Card>, n: nat)
    ensures
        first_rules_draws(draw, discard, n).2.len() <= n,
    decreases n,
{
    if n > 0 {
        lemma_first_rules_draws_len(draw, discard, (n - 1) as nat);
    }
}

/// The mover's empty hand is refilled with up to five cards while they
/// still have a personal pile and the game runs.
pub open spec fn refill_if_empty(m: StateView, idx: int) -> StateView {
    let b = m.players[idx];
    if b.hand.len() == 0 && b.personal.len() > 0 && m.phase == GamePhase::Playing {
        let (d, x, cs) = first_rules_draws(m.draw, m.discard, 5);
        StateView { players: m.players.update(idx, BoardView { hand: cs, ..b }), draw: d, discard: x, ..m }
    } else {
        m
    }
}

/// Plays `card`, taken from board `idx` (now `b`), onto whichever scale
/// takes it; a card that fits nowhere goes to the hand.
pub open spec fn play_taken(m: StateView, idx: int, b: BoardView, card: Card) -> (StateView, PlayResult) {
    let (rs, x, r) = place_effect(m.runs, m.discard, card);
    let b2 = if r == PlayResult::DoesNotFit { BoardView { hand: b.hand.push(card), ..b } } else { b };
    let m2 = StateView { players: m.players.update(idx, b2), runs: rs, discard: x, ..m };
    (refill_if_empty(m2, idx), r)
}

/// Ends the turn of board `idx` by moving its hand card `hand_index` onto
/// side stack `stack`.
pub open spec fn withdraw_effect(m: StateView, idx: int, hand_index: usize, stack: usize) -> (StateView, PlayResult) {
    let b = m.players[idx];
    if hand_index >= b.hand.len() {
        (m, PlayResult::InvalidIndex)
    } else {
        let card = b.hand[hand_index as int];
        let hand = b.hand.remove(hand_index as int);
        if hand.len() == 0 && b.personal.len() == 0 {
            // The withdrawn card is not placed anywhere.
            (
                StateView {
                    players: m.players.update(idx, BoardView { hand: hand, ..b }),
                    phase: GamePhase::Finished,
                    ..m
                },
                PlayResult::Won,
            )
        } else {
            // On a stack that does not exist the card is not placed anywhere.
            let sides = if stack < 4 { b.sides.update(stack as int, b.sides[stack as int].push(card)) } else { b.sides };
            (
                StateView {
                    players: m.players.update(idx, BoardView { hand: hand, sides: sides, ..b }),
                    current_turn: ((m.current_turn + 1) % (m.players.len() as int)) as usize,
                    turn_phase: TurnPhase::Draw,
                    ..m
                },
                PlayResult::TurnEnded,
            )
        }
    }
}

/// A move in the first rule set by the owner of `player_id`.
pub open spec fn first_rules_move(m: StateView, player_id: Seq<char>, action: Action) -> (StateView, PlayResult) {
    let idx = find_owner(m.players, player_id);
    if idx >= m.players.len() || m.phase != GamePhase::Playing {
        (m, PlayResult::NotAllowed)
    } else if idx != m.current_turn {
        (m, PlayResult::NotYourTurn)
    } else {
        let b = m.players[idx];
        match action {
            Action::PlayHand { index } => {
                if index >= b.hand.len() {
                    (m, PlayResult::InvalidIndex)
                } else {
                    play_taken(m, idx, BoardView { hand: b.hand.remove(index as int), ..b }, b.hand[index as int])
                }
            },
            Action::PlayPersonal => {
                if b.personal.len() == 0 {
                    (m, PlayResult::InvalidIndex)
                } else {
                    play_taken(m, idx, BoardView { personal: b.personal.drop_last(), ..b }, b.personal.last())
                }
            },
            Action::PlaySide { stack } => {
                if stack >= 4 || b.sides[stack as int].len() == 0 {
                    (m, PlayResult::InvalidIndex)
                } else {
                    let st = stack as int;
                    play_taken(m, idx, BoardView { sides: b.sides.update(st, b.sides[st].drop_last()), ..b }, b.sides[st].last())
                }
            },
            Action::MoveToSide { hand_index, stack } => withdraw_effect(m, idx, hand_index, stack),
            Action::Draw => {
                if m.turn_phase != TurnPhase::Draw {
                    (m, PlayResult::NotAllowed)
                } else {
                    let (d, x, c) = first_rules_draw(m.draw, m.discard);
                    match c {
                        None => (m, PlayResult::NotAllowed),
                        Some(card) => (
                            StateView {
                                players: m.players.update(idx, BoardView { hand: b.hand.push(card), ..b }),
                                draw: d,
                                discard: x,
                                turn_phase: TurnPhase::Play,
                                ..m
                            },
                            PlayResult::Moved,
                        ),
                    }
                }
            },
        }
    }
}

/// Moves the top personal card of board `idx`, which must be a King, onto
/// side stack `stack`; then an empty hand refills.
pub open spec fn personal_to_side(m: StateView, idx: int, stack: usize) -> (StateView, PlayResult) {
    let b = m.players[idx];
    if b.personal.len() == 0 {
        (m, PlayResult::InvalidIndex)
    } else if b.personal.last().value != 13 {
        (m, PlayResult::NotAllowed)
    } else if stack >= 4 {
        (m, PlayResult::InvalidIndex)
    } else {
        let card = b.personal.last();
        let b2 = BoardView {
            personal: b.personal.drop_last(),
            sides: b.sides.update(stack as int, b.sides[stack as int].push(card)),
            ..b
        };
        (refill_if_empty(StateView { players: m.players.update(idx, b2), ..m }, idx), PlayResult::Moved)
    }
}

/// The first board that has emptied its personal pile and hand, or the
/// number of boards.
pub open spec fn first_emptied(players: Seq<BoardView>) -> int
    decreases players.len(),
{
    if players.len() == 0 {
        0
    } else if first_emptied(players.drop_last()) < players.len() - 1 {
        first_emptied(players.drop_last())
    } else if players.last().personal.len() == 0 && players.last().hand.len() == 0 {
        players.len() - 1
    } else {
        players.len() as int
    }
}

pub proof fn lemma_first_emptied(players: Seq<BoardView>)
    ensures
        0 <= first_emptied(players) <= players.len(),
        first_emptied(players) < players.len() ==> players[first_emptied(players)].personal.len() == 0
            && players[first_emptied(players)].hand.len() == 0,
        forall|j: int| 0 <= j < first_emptied(players)
            ==> !((#[trigger] players[j]).personal.len() == 0 && players[j].hand.len() == 0),
    decreases players.len(),
{
    if players.len() > 0 {
        let init = players.drop_last();
        lemma_first_emptied(init);
        assert forall|j: int| 0 <= j < init.len() implies init[j] == players[j] by {}
    }
}

fn same_id(a: &String, b: &str) -> (r: bool)
    ensures
        r == (a@ == b@),
{
    let owned = b.to_string();
    *a == owned
}

impl GameState {
    pub open spec fn view(&self) -> StateView {
        StateView {
            phase: self.phase,
            players: board_views(self.players@),
            draw: self.draw_pile.cards@,
            discard: self.discard_pile@,
            runs: runs(self.scales@),
            current_turn: self.current_turn,
            turn_phase: self.turn_phase,
        }
    }

    /// No scale holds twelve or more cards.
    pub open spec fn wf(&self) -> bool {
        forall|i: int| 0 <= i < self.scales@.len() ==> (#[trigger] self.scales@[i]).cards@.len() < 12
    }

    /// A room waiting for players, with a random seed for the deck.
    pub fn new(room_id: String, turn_seconds: u64) -> (r: Self)
        ensures
            r.wf(),
            r.room_id@ == room_id@,
            r.phase == GamePhase::Waiting,
            r.players@ == Seq::<PlayerBoard>::empty(),
            r.draw_pile.cards@ == double_deck(),
            r.discard_pile@ == Seq::<Card>::empty(),
            r.scales@ == Seq::<Scale>::empty(),
            r.current_turn == 0,
            r.turn_phase == TurnPhase::Draw,
            r.turn_seconds == turn_seconds,
    {
        let seed = random_seed();
        Self {
            room_id,
            phase: GamePhase::Waiting,
            players: vec![],
            draw_pile: Deck::double(),
            discard_pile: vec![],
            scales: vec![],
            current_turn: 0,
            turn_phase: TurnPhase::Draw,
            turn_seconds,
            seed,
        }
    }

    fn position_of(&self, player_id: &str) -> (r: Option<usize>)
        ensures
            ({
                let p = find_owner(self@.players, player_id@);
                &&& p < self@.players.len() ==> r == Some(p as usize)
                &&& p >= self@.players.len() ==> r is None
                &&& r matches Some(i) ==> i < self.players@.len() && i == p
            }),
    {
        let mut i: usize = 0;
        while i < self.players.len()
            invariant
                i <= self.players@.len(),
                forall|j: int| 0 <= j < i ==> (#[trigger] self.players@[j]).player_id@ != player_id@,
            decreases self.players@.len() - i,
        {
            if same_id(&self.players[i].player_id, player_id) {
                proof {
                    lemma_find_owner(self@.players, player_id@);
                    let p = find_owner(self@.players, player_id@);
                    assert(self@.players[i as int] == board_view(self.players@[i as int]));
                    if p < i {
                        assert(self@.players[p] == board_view(self.players@[p]));
                    }
                }
                return Some(i);
            }
            i = i + 1;
        }
        proof {
            lemma_find_owner(self@.players, player_id@);
            let p = find_owner(self@.players, player_id@);
            if p < self@.players.len() {
                assert(self@.players[p] == board_view(self.players@[p]));
            }
        }
        None
    }

    /// Seats a player: refused when the id is taken or two players sit
    /// already; seating the second player starts the game.
    pub fn add_player(&mut self, player_id: String, username: String) -> (r: bool)
        ensures
            r == (find_owner(old(self)@.players, player_id@) >= old(self)@.players.len() && old(self).players@.len() < 2),
            !r ==> final(self)@ == old(self)@,
            r ==> final(self).players@.len() == old(self).players@.len() + 1,
            r ==> final(self)@.players.last().player_id == player_id@,
            r ==> final(self)@.players.last().username == username@,
            r && final(self).players@.len() < 2 ==> (final(self)@ == StateView {
                players: old(self)@.players.push(BoardView {
                    player_id: player_id@,
                    username: username@,
                    personal: Seq::empty(),
                    sides: Seq::new(4, |i: int| Seq::<Card>::empty()),
                    hand: Seq::empty(),
                }),
                ..old(self)@
            }),
            r && final(self).players@.len() == 2 ==> final(self).started(),
            old(self).wf() ==> final(self).wf(),
    {
        proof { lemma_find_owner(self@.players, player_id@); }
        match self.position_of(player_id.as_str()) {
            Some(_) => {
                return false;
            },
            None => {},
        }
        if self.players.len() >= 2 {
            return false;
        }
        let ghost pre_players = self.players@;
        let board = PlayerBoard::new(player_id, username);
        self.players.push(board);
        proof {
            assert(board_views(self.players@) =~= board_views(pre_players).push(board_view(board)));
        }
        if self.players.len() == 2 {
            self.start_game();
        }
        true
    }

    /// Removes the boards owned by `player_id`; removing a player from a
    /// running game finishes it; a turn past the boards goes back to 0.
    pub fn remove_player(&mut self, player_id: &str)
        ensures
            final(self).players@ == old(self).players@.filter(|b: PlayerBoard| b.player_id@ != player_id@),
            final(self).phase == if final(self).players@.len() != old(self).players@.len()
                && old(self).phase == GamePhase::Playing {
                GamePhase::Finished
            } else {
                old(self).phase
            },
            final(self).current_turn == if old(self).current_turn >= final(self).players@.len() {
                0
            } else {
                old(self).current_turn
            },
            final(self).turn_phase == old(self).turn_phase,
            final(self).draw_pile.cards@ == old(self).draw_pile.cards@,
            final(self).discard_pile@ == old(self).discard_pile@,
            final(self).scales@ == old(self).scales@,
    {
        let before = self.players.len();
        let ghost orig = self.players@;
        let ghost keep = |b: PlayerBoard| b.player_id@ != player_id@;
        let mut i: usize = 0;
        let ghost mut k: int = 0;
        while i < self.players.len()
            invariant
                0 <= k <= orig.len(),
                self.players@ == orig.take(k).filter(keep) + orig.skip(k),
                i == orig.take(k).filter(keep).len(),
                keep == (|b: PlayerBoard| b.player_id@ != player_id@),
                orig == old(self).players@,
                before == orig.len(),
                self.phase == old(self).phase,
                self.current_turn == old(self).current_turn,
                self.turn_phase == old(self).turn_phase,
                self.draw_pile.cards@ == old(self).draw_pile.cards@,
                self.discard_pile@ == old(self).discard_pile@,
                self.scales@ == old(self).scales@,
            decreases orig.len() - k,
        {
            proof {
                assert(orig.take(k + 1) =~= orig.take(k).push(orig[k]));
                orig.take(k).lemma_filter_push(orig[k], keep);
                assert(self.players@[i as int] == orig[k]);
            }
            if same_id(&self.players[i].player_id, player_id) {
                self.players.remove(i);
                proof {
                    assert(self.players@ =~= orig.take(k + 1).filter(keep) + orig.skip(k + 1));
                    k = k + 1;
                }
            } else {
                proof {
                    assert(self.players@ =~= orig.take(k + 1).filter(keep) + orig.skip(k + 1));
                    k = k + 1;
                }
                i = i + 1;
            }
        }
        proof {
            if k < orig.len() {
                assert(self.players@.len() > i);
            }
            assert(orig.take(orig.len() as int) =~= orig);
            assert(self.players@ =~= orig.filter(keep));
        }
        if self.players.len() != before && self.phase == GamePhase::Playing {
            self.phase = GamePhase::Finished;
        }
        if self.current_turn >= self.players.len() {
            self.current_turn = 0;
        }
    }

    /// A freshly started game: running, draw half of seat 0's turn, no
    /// scales, and from the double deck shuffled with the game's seed each
    /// board got 13 personal cards then 5 hand cards (dealt board after
    /// board from the bottom), side stacks empty.
    pub open spec fn started(&self) -> bool {
        &&& self.wf()
        &&& self.phase == GamePhase::Playing
        &&& self.turn_phase == TurnPhase::Draw
        &&& self.current_turn == 0
        &&& self.scales@ == Seq::<Scale>::empty()
        &&& self.discard_pile@ == Seq::<Card>::empty()
        &&& exists|pile: Seq<Card>| #[trigger] pile.to_multiset() == double_deck().to_multiset()
            && self.dealt_from(pile)
    }

    /// Board `i` got `pile[18i .. 18i+13]` then `pile[18i+13 .. 18i+18]`
    /// (cut short at the end of the pile); the rest is the draw pile.
    pub open spec fn dealt_from(&self, pile: Seq<Card>) -> bool {
        let n = self.players@.len() as int;
        &&& forall|i: int| 0 <= i < n ==> {
            &&& (#[trigger] self.players@[i]).personal@ == crate::dealer::cut(pile, 18 * i, 18 * i + 13)
            &&& self.players@[i].hand@ == crate::dealer::cut(pile, 18 * i + 13, 18 * i + 18)
            &&& self.players@[i].sides() == Seq::new(4, |j: int| Seq::<Card>::empty())
        }
        &&& self.draw_pile.cards@ == crate::dealer::cut(pile, 18 * n, pile.len() as int)
    }

    fn start_game(&mut self)
        ensures
            final(self).started(),
            final(self).players@.len() == old(self).players@.len(),
            forall|i: int| 0 <= i < old(self).players@.len() ==> {
                &&& (#[trigger] final(self).players@[i]).player_id == old(self).players@[i].player_id
                &&& final(self).players@[i].username == old(self).players@[i].username
            },
            final(self).room_id == old(self).room_id,
            final(self).seed == old(self).seed,
            final(self).turn_seconds == old(self).turn_seconds,
    {
        self.draw_pile = Deck::double();
        self.discard_pile.clear();
        self.draw_pile.shuffle_with_seed(self.seed);
        let ghost pile = self.draw_pile.cards@;
        let ghost pre_players = self.players@;
        let n = self.players.len();
        let mut i: usize = 0;
        while i < n
            invariant
                i <= n,
                n == self.players@.len(),
                n == pre_players.len(),
                pile.to_multiset() == double_deck().to_multiset(),
                self.discard_pile@ == Seq::<Card>::empty(),
                self.draw_pile.cards@ == crate::dealer::cut(pile, 18 * i, pile.len() as int),
                self.room_id == old(self).room_id,
                self.seed == old(self).seed,
                self.turn_seconds == old(self).turn_seconds,
                self.scales@ == old(self).scales@,
                forall|k: int| i <= k < n ==> #[trigger] self.players@[k] == pre_players[k],
                forall|k: int| 0 <= k < i ==> {
                    &&& (#[trigger] self.players@[k]).player_id == pre_players[k].player_id
                    &&& self.players@[k].username == pre_players[k].username
                    &&& self.players@[k].personal@ == crate::dealer::cut(pile, 18 * k, 18 * k + 13)
                    &&& self.players@[k].hand@ == crate::dealer::cut(pile, 18 * k + 13, 18 * k + 18)
                    &&& self.players@[k].sides() == Seq::new(4, |j: int| Seq::<Card>::empty())
                },
            decreases n - i,
        {
            let personal = self.draw_pile.deal(13);
            let hand = self.draw_pile.deal(5);
            let board = &mut self.players[i];
            board.personal = personal;
            board.hand = hand;
            board.side = [Vec::new(), Vec::new(), Vec::new(), Vec::new()];
            proof {
                assert(board.sides() =~= Seq::new(4, |j: int| Seq::<Card>::empty()));
            }
            i = i + 1;
        }
        self.scales.clear();
        self.phase = GamePhase::Playing;
        self.turn_phase = TurnPhase::Draw;
        self.current_turn = 0;
        proof {
            assert(self.dealt_from(pile));
        }
    }

    /// The id of the player on turn, if a board sits at that seat.
    pub fn current_player_id(&self) -> (r: Option<&str>)
        ensures
            self.current_turn < self.players@.len() ==> r is Some && r->0@ == self.players@[self.current_turn as int].player_id@,
            self.current_turn >= self.players@.len() ==> r is None,
    {
        if self.current_turn < self.players.len() {
            Some(self.players[self.current_turn].player_id.as_str())
        } else {
            None
        }
    }

    /// The first board that has emptied its personal pile and hand.
    pub fn winner(&self) -> (r: Option<&PlayerBoard>)
        ensures
            ({
                let w = first_emptied(self@.players);
                &&& w < self@.players.len() ==> r == Some(&self.players@[w])
                &&& w >= self@.players.len() ==> r is None
            }),
    {
        let mut i: usize = 0;
        while i < self.players.len()
            invariant
                i <= self.players@.len(),
                forall|k: int| 0 <= k < i ==> !((#[trigger] self.players@[k]).personal@.len() == 0
                    && self.players@[k].hand@.len() == 0),
            decreases self.players@.len() - i,
        {
            if self.players[i].has_won() {
                proof {
                    lemma_first_emptied(self@.players);
                    let w = first_emptied(self@.players);
                    assert(self@.players[i as int] == board_view(self.players@[i as int]));
                    if w < i {
                        assert(self@.players[w] == board_view(self.players@[w]));
                    }
                }
                return Some(&self.players[i]);
            }
            i = i + 1;
        }
        proof {
            lemma_first_emptied(self@.players);
            let w = first_emptied(self@.players);
            if w < self@.players.len() {
                assert(self@.players[w] == board_view(self.players@[w]));
            }
        }
        None
    }

    /// For the owner of `player_id`: a copy of their board and, of the first
    /// other board, the personal pile size, its top card, the side stacks and
    /// the username. `None` unless both boards exist.
    pub fn state_sync_for(&self, player_id: &str) -> (r: Option<(PlayerBoard, usize, Option<Card>, [Vec<Card>; 4], String)>)
        ensures
            ({
                let me = find_owner(self@.players, player_id@);
                let opp = first_other(self@.players, player_id@);
                &&& (me >= self@.players.len() || opp >= self@.players.len()) ==> r is None
                &&& (me < self@.players.len() && opp < self@.players.len()) ==> (r matches Some(t) && {
                    let o = self@.players[opp];
                    &&& t.0.same_as(&self.players@[me])
                    &&& t.1 == o.personal.len()
                    &&& t.2 == (if o.personal.len() > 0 { Some(o.personal.last()) } else { None::<Card> })
                    &&& Seq::new(4, |i: int| t.3[i]@) == o.sides
                    &&& t.4@ == o.username
                })
            }),
    {
        proof {
            lemma_find_owner(self@.players, player_id@);
            lemma_first_other(self@.players, player_id@);
        }
        let me = match self.position_of(player_id) {
            Some(i) => i,
            None => {
                return None;
            },
        };
        let mut j: usize = 0;
        while j < self.players.len()
            invariant
                j <= self.players@.len(),
                forall|k: int| 0 <= k < j ==> (#[trigger] self.players@[k]).player_id@ == player_id@,
            ensures
                j <= self.players@.len(),
                forall|k: int| 0 <= k < j ==> (#[trigger] self.players@[k]).player_id@ == player_id@,
                j < self.players@.len() ==> self.players@[j as int].player_id@ != player_id@,
            decreases self.players@.len() - j,
        {
            if !same_id(&self.players[j].player_id, player_id) {
                break;
            }
            j = j + 1;
        }
        proof {
            let opp = first_other(self@.players, player_id@);
            if opp < j {
                assert(self@.players[opp] == board_view(self.players@[opp]));
            }
            if j < self.players@.len() && j < opp {
                assert(self@.players[j as int] == board_view(self.players@[j as int]));
            }
        }
        if j >= self.players.len() {
            return None;
        }
        let opp = &self.players[j];
        let top = match opp.personal_top() {
            Some(c) => Some(*c),
            None => None,
        };
        let sides = copy_sides(&opp.side);
        proof {
            assert(Seq::new(4, |i: int| sides[i]@) =~= opp.sides());
            assert(self@.players[j as int] == board_view(self.players@[j as int]));
        }
        Some((copy_board(&self.players[me]), opp.personal.len(), top, sides, opp.username.clone()))
    }

    /// Applies a move by the owner of `player_id` (see `first_rules_move`).
    pub fn apply_move(&mut self, player_id: &str, action: Action) -> (r: PlayResult)
        requires
            old(self).wf(),
        ensures
            final(self).wf(),
            (final(self)@, r) == first_rules_move(old(self)@, player_id@, action),
            final(self).room_id == old(self).room_id,
            final(self).seed == old(self).seed,
            final(self).turn_seconds == old(self).turn_seconds,
    {
        let idx = match self.position_of(player_id) {
            Some(i) => i,
            None => {
                return PlayResult::NotAllowed;
            },
        };
        if self.phase != GamePhase::Playing {
            return PlayResult::NotAllowed;
        }
        if idx != self.current_idx() {
            return PlayResult::NotYourTurn;
        }
        proof {
            assert(self@.players[idx as int] == board_view(self.players@[idx as int]));
        }
        match action {
            Action::PlayHand { index } => self.play_hand_to_scale(index),
            Action::PlayPersonal => self.play_personal_to_scale(),
            Action::PlaySide { stack } => self.play_side_to_scale(stack),
            Action::MoveToSide { hand_index, stack } => self.withdraw_hand_to_side(hand_index, stack),
            Action::Draw => {
                if self.turn_phase != TurnPhase::Draw {
                    return PlayResult::NotAllowed;
                }
                let cards = self.draw_for_current();
                if cards.len() == 0 {
                    return PlayResult::NotAllowed;
                }
                self.turn_phase = TurnPhase::Play;
                PlayResult::Moved
            },
        }
    }

    fn current_idx(&self) -> (r: usize)
        ensures
            r == self.current_turn,
    {
        self.current_turn
    }

    fn ensure_turn(&self, player_idx: usize) -> (r: Option<PlayResult>)
        ensures
            r == (if self.phase != GamePhase::Playing {
                Some(PlayResult::NotAllowed)
            } else if player_idx != self.current_turn {
                Some(PlayResult::NotYourTurn)
            } else {
                None::<PlayResult>
            }),
    {
        if self.phase != GamePhase::Playing {
            return Some(PlayResult::NotAllowed);
        }
        if player_idx != self.current_turn {
            return Some(PlayResult::NotYourTurn);
        }
        None
    }

    /// Hands the turn to the next seat, at the draw.
    pub(crate) fn advance_turn(&mut self)
        requires
            old(self).current_turn < old(self).players@.len(),
        ensures
            (final(self)@ == StateView {
                current_turn: ((old(self).current_turn + 1) % (old(self).players@.len() as int)) as usize,
                turn_phase: TurnPhase::Draw,
                ..old(self)@
            }),
            final(self).players@ == old(self).players@,
            final(self).scales@ == old(self).scales@,
            final(self).room_id == old(self).room_id,
            final(self).seed == old(self).seed,
            final(self).turn_seconds == old(self).turn_seconds,
    {
        let n = self.players.len();
        self.current_turn = (self.current_turn + 1) % n;
        self.turn_phase = TurnPhase::Draw;
    }

    /// One draw: recycle the discard pile when exactly five cards are left.
    fn draw_and_check(&mut self) -> (r: Option<Card>)
        ensures
            (final(self).draw_pile.cards@, final(self).discard_pile@, r)
                == first_rules_draw(old(self).draw_pile.cards@, old(self).discard_pile@),
            final(self).players@ == old(self).players@,
            final(self).scales@ == old(self).scales@,
            final(self).phase == old(self).phase,
            final(self).current_turn == old(self).current_turn,
            final(self).turn_phase == old(self).turn_phase,
            final(self).room_id == old(self).room_id,
            final(self).seed == old(self).seed,
            final(self).turn_seconds == old(self).turn_seconds,
    {
        if self.draw_pile.remaining() == 5 && !self.discard_pile.is_empty() {
            let mut cards: Vec<Card> = Vec::new();
            std::mem::swap(&mut cards, &mut self.discard_pile);
            self.draw_pile.add_bottom(cards);
        }
        self.draw_pile.draw_one()
    }

    /// The draw of the player on turn: one card into their hand.
    pub(crate) fn draw_for_current(&mut self) -> (r: Vec<Card>)
        requires
            old(self).current_turn < old(self).players@.len(),
        ensures
            ({
                let i = old(self).current_turn as int;
                let b = old(self)@.players[i];
                let (d, x, c) = first_rules_draw(old(self)@.draw, old(self)@.discard);
                match c {
                    None => final(self)@ == old(self)@ && r@ == Seq::<Card>::empty(),
                    Some(card) => {
                        &&& final(self)@ == StateView {
                            players: old(self)@.players.update(i, BoardView { hand: b.hand.push(card), ..b }),
                            draw: d,
                            discard: x,
                            ..old(self)@
                        }
                        &&& r@ == seq![card]
                    },
                }
            }),
            final(self).scales@ == old(self).scales@,
            final(self).room_id == old(self).room_id,
            final(self).seed == old(self).seed,
            final(self).turn_seconds == old(self).turn_seconds,
    {
        let i = self.current_turn;
        let mut drawn: Vec<Card> = Vec::new();
        let ghost pre_players = self.players@;
        match self.draw_and_check() {
            Some(card) => {
                self.players[i].add_to_hand(card);
                drawn.push(card);
                proof {
                    lemma_board_views_update(pre_players, i as int, self.players@[i as int]);
                    assert(drawn@ =~= seq![card]);
                }
            },
            None => {},
        }
        drawn
    }

    /// Refills the empty hand of board `idx` with up to five cards while
    /// that player still has a personal pile and the game runs.
    fn refill_hand_if_empty(&mut self, idx: usize)
        requires
            idx < old(self).players@.len(),
        ensures
            final(self)@ == refill_if_empty(old(self)@, idx as int),
            final(self).scales@ == old(self).scales@,
            final(self).room_id == old(self).room_id,
            final(self).seed == old(self).seed,
            final(self).turn_seconds == old(self).turn_seconds,
    {
        proof {
            assert(self@.players[idx as int] == board_view(self.players@[idx as int]));
        }
        if self.players[idx].hand.is_empty() && !self.players[idx].personal.is_empty() && self.phase == GamePhase::Playing {
            let ghost m0 = self@;
            let ghost b0 = self@.players[idx as int];
            let mut k: usize = 0;
            proof {
                assert(b0.hand =~= Seq::<Card>::empty());
                assert(BoardView { hand: Seq::<Card>::empty(), ..b0 } =~= b0);
                assert(m0.players.update(idx as int, b0) =~= m0.players);
            }
            while k < 5
                invariant
                    k <= 5,
                    idx < self.players@.len(),
                    self.players@.len() == old(self).players@.len(),
                    m0 == old(self)@,
                    b0 == m0.players[idx as int],
                    ({
                        let (d, x, cs) = first_rules_draws(m0.draw, m0.discard, k as nat);
                        &&& cs.len() == k
                        &&& self@ == StateView {
                            players: m0.players.update(idx as int, BoardView { hand: cs, ..b0 }),
                            draw: d,
                            discard: x,
                            ..m0
                        }
                    }),
                    self.scales@ == old(self).scales@,
                    self.room_id == old(self).room_id,
                    self.seed == old(self).seed,
                    self.turn_seconds == old(self).turn_seconds,
                ensures
                    ({
                        let (d, x, cs) = first_rules_draws(m0.draw, m0.discard, 5);
                        self@ == StateView {
                            players: m0.players.update(idx as int, BoardView { hand: cs, ..b0 }),
                            draw: d,
                            discard: x,
                            ..m0
                        }
                    }),
                    self.scales@ == old(self).scales@,
                    self.room_id == old(self).room_id,
                    self.seed == old(self).seed,
                    self.turn_seconds == old(self).turn_seconds,
                decreases 5 - k,
            {
                let ghost pre_players = self.players@;
                let ghost pre = self@;
                match self.draw_and_check() {
                    None => {
                        proof {
                            let st = first_rules_draws(m0.draw, m0.discard, k as nat);
                            lemma_first_rules_draws_stop(m0.draw, m0.discard, k as nat, 5);
                        }
                        break;
                    },
                    Some(card) => {
                        self.players[idx].hand.push(card);
                        proof {
                            lemma_board_views_update(pre_players, idx as int, self.players@[idx as int]);
                            let (d, x, cs) = first_rules_draws(m0.draw, m0.discard, k as nat);
                            assert(pre.players[idx as int] == board_view(pre_players[idx as int]));
                            assert(self.players@[idx as int].hand@ == cs.push(card));
                            assert(board_view(self.players@[idx as int]) =~= BoardView { hand: cs.push(card), ..b0 });
                        }
                    },
                }
                k = k + 1;
            }
        }
    }

    /// Places `card`, taken from board `idx`, with the shared scale logic;
    /// a card that fits nowhere goes to the hand; then an empty hand refills.
    fn place_taken(&mut self, idx: usize, card: Card) -> (r: PlayResult)
        requires
            old(self).wf(),
            idx < old(self).players@.len(),
        ensures
            final(self).wf(),
            (final(self)@, r) == play_taken(old(self)@, idx as int, old(self)@.players[idx as int], card),
            final(self).room_id == old(self).room_id,
            final(self).seed == old(self).seed,
            final(self).turn_seconds == old(self).turn_seconds,
    {
        let result = self.place_on_scale(card);
        if result == PlayResult::DoesNotFit {
            let ghost pre_players = self.players@;
            self.players[idx].hand.push(card);
            proof {
                lemma_board_views_update(pre_players, idx as int, self.players@[idx as int]);
                assert(board_view(self.players@[idx as int]) =~= BoardView {
                    hand: old(self)@.players[idx as int].hand.push(card),
                    ..old(self)@.players[idx as int]
                });
            }
        } else {
            proof {
                assert(self@.players =~= old(self)@.players.update(idx as int, old(self)@.players[idx as int]));
            }
        }
        self.refill_hand_if_empty(idx);
        result
    }

    /// The scale logic of the first rule set, on this game's scales and
    /// discard pile.
    fn place_on_scale(&mut self, card: Card) -> (r: PlayResult)
        requires
            old(self).wf(),
        ensures
            final(self).wf(),
            ({
                let (rs, x, res) = place_effect(old(self)@.runs, old(self)@.discard, card);
                &&& final(self)@ == StateView { runs: rs, discard: x, ..old(self)@ }
                &&& r == res
            }),
            final(self).players@ == old(self).players@,
            final(self).room_id == old(self).room_id,
            final(self).seed == old(self).seed,
            final(self).turn_seconds == old(self).turn_seconds,
    {
        let mut manager = ScaleManager { scales: Vec::new(), discard_pile: Vec::new() };
        std::mem::swap(&mut manager.scales, &mut self.scales);
        std::mem::swap(&mut manager.discard_pile, &mut self.discard_pile);
        let r = manager.place(card);
        std::mem::swap(&mut manager.scales, &mut self.scales);
        std::mem::swap(&mut manager.discard_pile, &mut self.discard_pile);
        r
    }

    pub(crate) fn play_hand_to_scale(&mut self, hand_index: usize) -> (r: PlayResult)
        requires
            old(self).wf(),
            old(self).phase == GamePhase::Playing,
            old(self).current_turn < old(self).players@.len(),
        ensures
            final(self).wf(),
            ({
                let i = old(self).current_turn as int;
                let b = old(self)@.players[i];
                (final(self)@, r) == if hand_index >= b.hand.len() {
                    (old(self)@, PlayResult::InvalidIndex)
                } else {
                    play_taken(old(self)@, i, BoardView { hand: b.hand.remove(hand_index as int), ..b }, b.hand[hand_index as int])
                }
            }),
            final(self).room_id == old(self).room_id,
            final(self).seed == old(self).seed,
            final(self).turn_seconds == old(self).turn_seconds,
    {
        let idx = self.current_idx();
        match self.ensure_turn(idx) {
            Some(err) => {
                return err;
            },
            None => {},
        }
        proof {
            assert(self@.players[idx as int] == board_view(self.players@[idx as int]));
        }
        let ghost pre_players = self.players@;
        let card = match self.players[idx].take_from_hand(hand_index) {
            Some(c) => c,
            None => {
                return PlayResult::InvalidIndex;
            },
        };
        proof {
            lemma_board_views_update(pre_players, idx as int, self.players@[idx as int]);
        }
        self.place_taken(idx, card)
    }

    pub(crate) fn play_personal_to_scale(&mut self) -> (r: PlayResult)
        requires
            old(self).wf(),
            old(self).phase == GamePhase::Playing,
            old(self).current_turn < old(self).players@.len(),
        ensures
            final(self).wf(),
            ({
                let i = old(self).current_turn as int;
                let b = old(self)@.players[i];
                (final(self)@, r) == if b.personal.len() == 0 {
                    (old(self)@, PlayResult::InvalidIndex)
                } else {
                    play_taken(old(self)@, i, BoardView { personal: b.personal.drop_last(), ..b }, b.personal.last())
                }
            }),
            final(self).room_id == old(self).room_id,
            final(self).seed == old(self).seed,
            final(self).turn_seconds == old(self).turn_seconds,
    {
        let idx = self.current_idx();
        match self.ensure_turn(idx) {
            Some(err) => {
                return err;
            },
            None => {},
        }
        proof {
            assert(self@.players[idx as int] == board_view(self.players@[idx as int]));
        }
        let ghost pre_players = self.players@;
        let card = match self.players[idx].pop_personal() {
            Some(c) => c,
            None => {
                return PlayResult::InvalidIndex;
            },
        };
        proof {
            lemma_board_views_update(pre_players, idx as int, self.players@[idx as int]);
        }
        self.place_taken(idx, card)
    }

    pub(crate) fn play_side_to_scale(&mut self, stack: usize) -> (r: PlayResult)
        requires
            old(self).wf(),
            old(self).phase == GamePhase::Playing,
            old(self).current_turn < old(self).players@.len(),
        ensures
            final(self).wf(),
            ({
                let i = old(self).current_turn as int;
                let b = old(self)@.players[i];
                (final(self)@, r) == if stack >= 4 || b.sides[stack as int].len() == 0 {
                    (old(self)@, PlayResult::InvalidIndex)
                } else {
                    let st = stack as int;
                    play_taken(old(self)@, i, BoardView { sides: b.sides.update(st, b.sides[st].drop_last()), ..b }, b.sides[st].last())
                }
            }),
            final(self).room_id == old(self).room_id,
            final(self).seed == old(self).seed,
            final(self).turn_seconds == old(self).turn_seconds,
    {
        let idx = self.current_idx();
        match self.ensure_turn(idx) {
            Some(err) => {
                return err;
            },
            None => {},
        }
        proof {
            assert(self@.players[idx as int] == board_view(self.players@[idx as int]));
        }
        let ghost pre_players = self.players@;
        let card = match self.players[idx].take_from_side(stack) {
            Some(c) => c,
            None => {
                return PlayResult::InvalidIndex;
            },
        };
        proof {
            lemma_board_views_update(pre_players, idx as int, self.players@[idx as int]);
        }
        self.place_taken(idx, card)
    }


    /// Moves the top personal card, a King, of the player on turn onto side
    /// stack `stack` (see `personal_to_side`).
    pub(crate) fn play_personal_to_side(&mut self, stack: usize) -> (r: PlayResult)
        requires
            old(self).wf(),
            old(self).phase == GamePhase::Playing,
            old(self).current_turn < old(self).players@.len(),
        ensures
            final(self).wf(),
            (final(self)@, r) == personal_to_side(old(self)@, old(self).current_turn as int, stack),
            final(self).room_id == old(self).room_id,
            final(self).seed == old(self).seed,
            final(self).turn_seconds == old(self).turn_seconds,
    {
        let idx = self.current_idx();
        match self.ensure_turn(idx) {
            Some(err) => {
                return err;
            },
            None => {},
        }
        proof {
            assert(self@.players[idx as int] == board_view(self.players@[idx as int]));
        }
        let top = match self.players[idx].personal_top() {
            Some(c) => *c,
            None => {
                return PlayResult::InvalidIndex;
            },
        };
        if top.value != 13 {
            return PlayResult::NotAllowed;
        }
        if stack >= 4 {
            return PlayResult::InvalidIndex;
        }
        let ghost pre_players = self.players@;
        let card = match self.players[idx].pop_personal() {
            Some(c) => c,
            None => {
                return PlayResult::InvalidIndex;
            },
        };
        let _ = self.players[idx].place_on_side(stack, card);
        proof {
            lemma_board_views_update(pre_players, idx as int, self.players@[idx as int]);
            let b = old(self)@.players[idx as int];
            assert(board_view(self.players@[idx as int]) =~= BoardView {
                personal: b.personal.drop_last(),
                sides: b.sides.update(stack as int, b.sides[stack as int].push(card)),
                ..b
            });
        }
        self.refill_hand_if_empty(idx);
        PlayResult::Moved
    }

    /// Ends the turn by moving a hand card to a side stack.
    pub(crate) fn withdraw_hand_to_side(&mut self, hand_index: usize, stack: usize) -> (r: PlayResult)
        requires
            old(self).wf(),
            old(self).phase == GamePhase::Playing,
            old(self).current_turn < old(self).players@.len(),
        ensures
            final(self).wf(),
            (final(self)@, r) == withdraw_effect(old(self)@, old(self).current_turn as int, hand_index, stack),
            final(self).room_id == old(self).room_id,
            final(self).seed == old(self).seed,
            final(self).turn_seconds == old(self).turn_seconds,
    {
        let idx = self.current_idx();
        proof {
            assert(self@.players[idx as int] == board_view(self.players@[idx as int]));
        }
        let ghost pre_players = self.players@;
        let card = match self.players[idx].take_from_hand(hand_index) {
            Some(c) => c,
            None => {
                return PlayResult::InvalidIndex;
            },
        };
        proof {
            lemma_board_views_update(pre_players, idx as int, self.players@[idx as int]);
        }
        if self.players[idx].hand.is_empty() && self.players[idx].personal.is_empty() {
            self.phase = GamePhase::Finished;
            return PlayResult::Won;
        }
        let ghost mid_players = self.players@;
        let _ = self.players[idx].place_on_side(stack, card);
        proof {
            lemma_board_views_update(mid_players, idx as int, self.players@[idx as int]);
        }
        if self.check_win_condition(idx) {
            return PlayResult::Won;
        }
        assert(self.current_turn < self.players@.len());
        self.advance_turn();
        PlayResult::TurnEnded
    }

    fn check_win_condition(&mut self, player_idx: usize) -> (r: bool)
        requires
            player_idx < old(self).players@.len(),
        ensures
            r == (old(self).players@[player_idx as int].personal@.len() == 0
                && old(self).players@[player_idx as int].hand@.len() == 0),
            final(self)@ == (if r { StateView { phase: GamePhase::Finished, ..old(self)@ } } else { old(self)@ }),
            final(self).players@ == old(self).players@,
            final(self).scales@ == old(self).scales@,
            final(self).room_id == old(self).room_id,
            final(self).seed == old(self).seed,
            final(self).turn_seconds == old(self).turn_seconds,
    {
        if self.players[player_idx].has_won() {
            self.phase = GamePhase::Finished;
            return true;
        }
        false
    }
}

/// Position of the first board not owned by `id`, or the number of boards.
pub open spec fn first_other(players: Seq<BoardView>, id: Seq<char>) -> int
    decreases players.len(),
{
    if players.len() == 0 {
        0
    } else if first_other(players.drop_last(), id) < players.len() - 1 {
        first_other(players.drop_last(), id)
    } else if players.last().player_id != id {
        players.len() - 1
    } else {
        players.len() as int
    }
}

pub proof fn lemma_first_other(players: Seq<BoardView>, id: Seq<char>)
    ensures
        0 <= first_other(players, id) <= players.len(),
        first_other(players, id) < players.len() ==> players[first_other(players, id)].player_id != id,
        forall|j: int| 0 <= j < first_other(players, id) ==> (#[trigger] players[j]).player_id == id,
    decreases players.len(),
{
    if players.len() > 0 {
        let init = players.drop_last();
        lemma_first_other(init, id);
        assert forall|j: int| 0 <= j < init.len() implies init[j] == players[j] by {}
    }
}

/// Once a draw of the first rule set finds nothing, the later ones of a
/// refill are skipped.
pub proof fn lemma_first_rules_draws_stop(draw: Seq<Card>, discard: Seq<Card>, k: nat, n: nat)
    requires
        k <= n,
        first_rules_draws(draw, discard, k).2.len() == k,
        first_rules_draw(first_rules_draws(draw, discard, k).0, first_rules_draws(draw, discard, k).1).2 is None,
    ensures
        first_rules_draws(draw, discard, n) == first_rules_draws(draw, discard, k),
    decreases n - k,
{
    if k < n {
        lemma_first_rules_draws_stop(draw, discard, k, (n - 1) as nat);
        lemma_first_rules_draws_len(draw, discard, (n - 1) as nat);
    }
}

/// `n` draws of the first rule set bring `n` cards, unless the draw pile
/// has run out on the way; never more than `n`.
pub proof fn lemma_first_rules_draws_full(draw: Seq<Card>, discard: Seq<Card>, n: nat)
    ensures
        first_rules_draws(draw, discard, n).2.len() <= n,
        first_rules_draws(draw, discard, n).2.len() == n || first_rules_draws(draw, discard, n).0.len() == 0,
    decreases n,
{
    lemma_first_rules_draws_len(draw, discard, n);
    if n > 0 {
        lemma_first_rules_draws_full(draw, discard, (n - 1) as nat);
    }
}

/// In the first rule set, a successful play onto a scale that leaves the
/// mover's hand empty while their personal pile still holds cards refills
/// the hand at once: it then holds five cards, or fewer only when the draw
/// pile has run out.
pub proof fn law_first_rules_refill_after_play(m: StateView, player_id: Seq<char>, idx: int, action: Action)
    requires
        0 <= idx < m.players.len(),
        m.players[idx].player_id == player_id,
        forall|j: int| 0 <= j < idx ==> (#[trigger] m.players[j]).player_id != player_id,
        first_rules_move(m, player_id, action).1 matches PlayResult::Placed { .. },
        (match action {
            Action::PlayHand { .. } => m.players[idx].hand.len() == 1,
            Action::PlayPersonal => m.players[idx].hand.len() == 0,
            Action::PlaySide { .. } => m.players[idx].hand.len() == 0,
            _ => false,
        }),
        first_rules_move(m, player_id, action).0.players[idx].personal.len() > 0,
    ensures
        ({
            let r = first_rules_move(m, player_id, action).0;
            &&& r.players[idx].hand.len() == 5 || r.draw.len() == 0
            &&& r.players[idx].hand.len() <= 5
        }),
{
    lemma_find_owner(m.players, player_id);
    assert(find_owner(m.players, player_id) == idx) by {
        let q = find_owner(m.players, player_id);
        if q < idx {
            assert(m.players[q].player_id != player_id);
        }
        if idx < q {
            assert(m.players[idx].player_id != player_id);
        }
    }
    let b = m.players[idx];
    let (b1, card) = match action {
        Action::PlayHand { index } => (BoardView { hand: b.hand.remove(index as int), ..b }, b.hand[index as int]),
        Action::PlayPersonal => (BoardView { personal: b.personal.drop_last(), ..b }, b.personal.last()),
        Action::PlaySide { stack } => {
            let st = stack as int;
            (BoardView { sides: b.sides.update(st, b.sides[st].drop_last()), ..b }, b.sides[st].last())
        },
        _ => (b, b.hand[0]),
    };
    let (rs, x, res) = place_effect(m.runs, m.discard, card);
    lemma_first_rules_draws_full(m.draw, x, 5);
}

} // verus!
