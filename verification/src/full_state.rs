//! What a player is shown of a game: their own board in full, the other
//! board with the hand face down, the table and the dealer.
use vstd::prelude::*;

use crate::board::{BoardModel, PlayerBoard};
use crate::card::{card_back, copy_cards, copy_sides, Card, DeckColor};
use crate::ids::{GameId, PlayerId, PlayerIdx, ScaleIdx, Seconds};
use crate::room::{contains_id, members_model, MemberModel, RoomMember};
use crate::protocol::{side_model, slots_model, EventModel, OpponentModel, OpponentView, OwnBoardModel, PersonalPileView, PileModel, PlayerBoardView, ServerEvent};
use crate::scale::Scale;
use crate::scale_manager::table_view;
use crate::state::GameState;
use crate::state_spec::{find_player, lemma_find_player};

verus! {

/// How many cards under the top of a personal pile show their color.
pub const PERSONAL_PREVIEW_SIZE: usize = 7;

/// How many cards at the top of the draw pile show their color: the top one.
pub const DEALER_PREVIEW_SIZE: usize = 1;

/// The deck colors of up to `n` cards of `cards`, going down from the top
/// (the last card).
pub open spec fn top_colors(cards: Seq<Card>, n: int) -> Seq<DeckColor> {
    let k = if cards.len() < n { cards.len() as int } else { n };
    Seq::new(k as nat, |i: int| cards[cards.len() - 1 - i].deck)
}

/// The top of a pile, if it has one.
pub open spec fn top_of(cards: Seq<Card>) -> Option<Card> {
    if cards.len() > 0 { Some(cards.last()) } else { None }
}

/// The personal pile `personal` as others see it.
pub open spec fn pile_model(personal: Seq<Card>) -> PileModel {
    PileModel {
        count: personal.len(),
        top: top_of(personal),
        colors: top_colors(personal, PERSONAL_PREVIEW_SIZE as int),
    }
}

/// Board `b` as its owner sees it.
pub open spec fn own_board_model(b: BoardModel) -> OwnBoardModel {
    OwnBoardModel { player_idx: b.player_idx, personal: pile_model(b.personal), side: b.sides, hand: b.hand }
}

/// The backs of the cards of a hand.
pub open spec fn backs(hand: Seq<Card>) -> Seq<Card> {
    hand.map_values(|c: Card| card_back(c))
}

/// Position of the first board not seated at `idx`, or the number of boards.
pub open spec fn find_other(players: Seq<BoardModel>, idx: PlayerIdx) -> int
    decreases players.len(),
{
    if players.len() == 0 {
        0
    } else if find_other(players.drop_last(), idx) < players.len() - 1 {
        find_other(players.drop_last(), idx)
    } else if players.last().player_idx != idx.0 {
        players.len() - 1
    } else {
        players.len() as int
    }
}

pub proof fn lemma_find_other(players: Seq<BoardModel>, idx: PlayerIdx)
    ensures
        0 <= find_other(players, idx) <= players.len(),
        find_other(players, idx) < players.len() ==> players[find_other(players, idx)].player_idx != idx.0,
        forall|j: int| 0 <= j < find_other(players, idx) ==> players[j].player_idx == idx.0,
    decreases players.len(),
{
    if players.len() > 0 {
        let init = players.drop_last();
        lemma_find_other(init, idx);
        assert forall|j: int| 0 <= j < init.len() implies init[j] == players[j] by {}
    }
}

/// The first board not seated at `idx`, as the player at `idx` sees it
/// under the name `name`; with no such board, an empty placeholder at seat 0.
pub open spec fn opponent_model(players: Seq<BoardModel>, idx: PlayerIdx, name: Seq<char>) -> OpponentModel {
    let o = find_other(players, idx);
    if o < players.len() {
        let b = players[o];
        OpponentModel {
            player_idx: PlayerIdx(b.player_idx),
            username: name,
            hand: backs(b.hand),
            personal_count: b.personal.len(),
            personal_top: top_of(b.personal),
            side: b.sides,
        }
    } else {
        OpponentModel {
            player_idx: PlayerIdx(0),
            username: Seq::empty(),
            hand: Seq::empty(),
            personal_count: 0,
            personal_top: None,
            side: Seq::new(4, |i: int| Seq::<Card>::empty()),
        }
    }
}

/// The board at position `current_turn` exists and is seated at `idx`
/// (with no board there, seat 0 counts as the one on turn).
pub open spec fn turn_is_of(players: Seq<BoardModel>, current_turn: PlayerIdx, idx: PlayerIdx) -> bool {
    if current_turn.0 < players.len() {
        players[current_turn.0 as int].player_idx == idx.0
    } else {
        idx.0 == 0
    }
}

/// What the player at seat `idx`, known as `id`, is shown of the game,
/// with `name` for the other player; `None` when no board sits at `idx`.
pub open spec fn full_state_model(g: GameState, id: PlayerId, idx: PlayerIdx, name: Seq<char>) -> Option<EventModel> {
    let m = g@;
    let p = find_player(m.players, idx);
    if p >= m.players.len() {
        None
    } else {
        Some(EventModel::FullState {
            player_id: id,
            your_board: own_board_model(m.players[p]),
            your_turn: turn_is_of(m.players, m.current_turn, idx),
            opponent: opponent_model(m.players, idx, name),
            scales: slots_model(g.scale_manager.scales@),
            dealer_preview: top_colors(m.draw, DEALER_PREVIEW_SIZE as int),
            dealer_count: m.draw.len(),
            turn_seconds_remaining: g.turn_seconds,
        })
    }
}

/// An optional event as plain values.
pub open spec fn opt_event_model(e: Option<ServerEvent>) -> Option<EventModel> {
    match e {
        Some(ev) => Some(ev.model()),
        None => None,
    }
}

/// The deck colors of up to `n` cards of `cards`, from the top down.
fn colors_from_top(cards: &Vec<Card>, n: usize) -> (r: Vec<DeckColor>)
    ensures
        r@ == top_colors(cards@, n as int),
{
    let len = cards.len();
    let k = if len < n { len } else { n };
    let mut r: Vec<DeckColor> = Vec::with_capacity(k);
    let mut i: usize = 0;
    while i < k
        invariant
            i <= k,
            len == cards@.len(),
            k <= len,
            r@ == top_colors(cards@, n as int).subrange(0, i as int),
            k == top_colors(cards@, n as int).len(),
        decreases k - i,
    {
        r.push(cards[len - 1 - i].deck);
        i = i + 1;
        proof {
            assert(r@ =~= top_colors(cards@, n as int).subrange(0, i as int));
        }
    }
    proof {
        assert(r@ =~= top_colors(cards@, n as int));
    }
    r
}

/// The personal pile of `board` as others see it: size, top card, and the
/// colors of its top seven cards.
pub fn personal_pile_view(board: &PlayerBoard) -> (r: PersonalPileView)
    ensures
        r.model() == pile_model(board.personal@),
{
    let top = match board.personal_top() {
        Some(c) => Some(*c),
        None => None,
    };
    PersonalPileView {
        count: board.personal.len(),
        top,
        colors: colors_from_top(&board.personal, PERSONAL_PREVIEW_SIZE),
    }
}

/// The backs of the cards of `hand`, in order.
fn hand_backs(hand: &Vec<Card>) -> (r: Vec<Card>)
    ensures
        r@ == backs(hand@),
{
    let mut r: Vec<Card> = Vec::with_capacity(hand.len());
    let mut i: usize = 0;
    while i < hand.len()
        invariant
            i <= hand@.len(),
            r@ == backs(hand@).subrange(0, i as int),
        decreases hand@.len() - i,
    {
        r.push(hand[i].dummy_card());
        i = i + 1;
        proof {
            assert(r@ =~= backs(hand@).subrange(0, i as int));
        }
    }
    proof {
        assert(r@ =~= backs(hand@));
    }
    r
}

/// A copy of the scale table, slot by slot.
pub(crate) fn copy_table(scales: &Vec<Option<Scale>>) -> (r: Vec<Option<Scale>>)
    ensures
        table_view(r@) == table_view(scales@),
        slots_model(r@) == slots_model(scales@),
        r@.len() == scales@.len(),
        forall|i: int| 0 <= i < scales@.len() && (#[trigger] scales@[i]) is Some
            ==> r@[i] is Some && r@[i]->0.scale_idx == scales@[i]->0.scale_idx,
{
    let mut r: Vec<Option<Scale>> = Vec::with_capacity(scales.len());
    let mut i: usize = 0;
    while i < scales.len()
        invariant
            i <= scales@.len(),
            r@.len() == i,
            table_view(r@) == table_view(scales@).subrange(0, i as int),
            slots_model(r@) == slots_model(scales@).subrange(0, i as int),
            forall|j: int| 0 <= j < i && (#[trigger] scales@[j]) is Some
                ==> r@[j] is Some && r@[j]->0.scale_idx == scales@[j]->0.scale_idx,
            forall|j: int| 0 <= j < i && scales@[j] is None ==> (#[trigger] r@[j]) is None,
        decreases scales@.len() - i,
    {
        let slot = match &scales[i] {
            Some(s) => Some(Scale { scale_idx: s.scale_idx, cards: copy_cards(&s.cards) }),
            None => None,
        };
        r.push(slot);
        i = i + 1;
        proof {
            assert(table_view(r@) =~= table_view(scales@).subrange(0, i as int));
            assert(slots_model(r@) =~= slots_model(scales@).subrange(0, i as int));
        }
    }
    proof {
        assert(table_view(r@) =~= table_view(scales@));
        assert(slots_model(r@) =~= slots_model(scales@));
    }
    r
}

/// What the player at seat `player_idx` (known as `player_id`) is shown of
/// the game: their own board in full, the first other board under the name
/// `opponent_name` with its hand face down, the table, the colors of the top
/// seven draw cards and the draw pile's size, whether they are on turn, and
/// the turn length. `None` when no board is seated at `player_idx`.
pub fn build_full_state(game_state: &GameState, player_id: PlayerId, player_idx: PlayerIdx, opponent_name: String)
    -> (r: Option<ServerEvent>)
    ensures
        opt_event_model(r) == full_state_model(*game_state, player_id, player_idx, opponent_name@),
{
    proof {
        lemma_find_player(game_state@.players, player_idx);
        lemma_find_other(game_state@.players, player_idx);
    }
    let mine = match game_state.player(player_idx) {
        Some(b) => b,
        None => {
            return None;
        },
    };
    let ghost p = find_player(game_state@.players, player_idx);
    proof {
        assert(game_state@.players[p] == game_state.players@[p].model());
    }
    let your_board = PlayerBoardView {
        player_idx: mine.player_idx,
        personal: personal_pile_view(mine),
        side: copy_sides(&mine.side),
        hand: copy_cards(&mine.hand),
    };
    proof {
        assert(side_model(your_board.side) =~= game_state@.players[p].sides);
    }
    let mut j: usize = 0;
    while j < game_state.players.len()
        invariant
            j <= game_state.players@.len(),
            forall|k: int| 0 <= k < j ==> (#[trigger] game_state.players@[k]).player_idx == player_idx.0,
        ensures
            j <= game_state.players@.len(),
            forall|k: int| 0 <= k < j ==> (#[trigger] game_state.players@[k]).player_idx == player_idx.0,
            j < game_state.players@.len() ==> game_state.players@[j as int].player_idx != player_idx.0,
        decreases game_state.players@.len() - j,
    {
        if game_state.players[j].player_idx != player_idx.0 {
            break;
        }
        j = j + 1;
    }
    proof {
        let o = find_other(game_state@.players, player_idx);
        if o < j {
            assert(game_state@.players[o] == game_state.players@[o].model());
        }
        if (j as int) < o && j < game_state.players@.len() {
            assert(game_state@.players[j as int] == game_state.players@[j as int].model());
        }
    }
    let opponent = if j < game_state.players.len() {
        let opp = &game_state.players[j];
        let top = match opp.personal_top() {
            Some(c) => Some(*c),
            None => None,
        };
        let v = OpponentView {
            player_idx: PlayerIdx(opp.player_idx),
            username: opponent_name,
            hand: hand_backs(&opp.hand),
            personal_count: opp.personal.len(),
            personal_top: top,
            side: copy_sides(&opp.side),
        };
        proof {
            assert(game_state@.players[j as int] == game_state.players@[j as int].model());
            assert(side_model(v.side) =~= game_state@.players[j as int].sides);
        }
        v
    } else {
        let v = OpponentView {
            player_idx: PlayerIdx(0),
            username: String::new(),
            hand: Vec::new(),
            personal_count: 0,
            personal_top: None,
            side: [Vec::new(), Vec::new(), Vec::new(), Vec::new()],
        };
        proof {
            assert(side_model(v.side) =~= Seq::new(4, |i: int| Seq::<Card>::empty()));
        }
        v
    };
    let t = game_state.current_turn.as_usize();
    let turn_idx = if t < game_state.players.len() {
        game_state.players[t].player_idx
    } else {
        0
    };
    proof {
        if t < game_state.players@.len() {
            assert(game_state@.players[t as int] == game_state.players@[t as int].model());
        }
    }
    let your_turn = turn_idx == player_idx.0;
    Some(ServerEvent::FullState {
        player_id,
        your_board,
        your_turn,
        opponent,
        scales: copy_table(&game_state.scale_manager.scales),
        dealer_preview: colors_from_top(&game_state.card_dealer.draw_pile.cards, DEALER_PREVIEW_SIZE),
        dealer_count: game_state.card_dealer.draw_pile.remaining(),
        turn_seconds_remaining: game_state.turn_seconds,
    })
}

/// A player in the lobby as the others see them.
#[derive(Debug, Clone, PartialEq, Eq)]
pub struct LobbyPlayerView {
    pub player_id: PlayerId,
    pub player_idx: PlayerIdx,
    pub username: String,
    pub is_ready: bool,
    pub is_disconnected: bool,
}

/// What a room is showing: the lobby with its players, or a finished game.
#[derive(Debug, Clone, PartialEq, Eq)]
pub enum RoomSnapshot {
    Lobby { game_id: GameId, players: Vec<LobbyPlayerView> },
    GameOver { winner_id: PlayerId, winner_idx: PlayerIdx, reason: String },
}

/// The snapshot a player gets on joining or coming back.
#[derive(Debug, Clone, PartialEq, Eq)]
pub struct FullState {
    pub player_id: PlayerId,
    pub player_idx: PlayerIdx,
    pub snapshot: RoomSnapshot,
}

/// Member `m` as the lobby shows it, `ready` being who said they are ready.
pub open spec fn lobby_player(m: MemberModel, ready: Seq<PlayerId>) -> (PlayerId, PlayerIdx, Seq<char>, bool, bool) {
    (m.player_id, m.player_idx, m.username, ready.contains(m.player_id), !m.connected)
}

impl LobbyPlayerView {
    pub open spec fn model(&self) -> (PlayerId, PlayerIdx, Seq<char>, bool, bool) {
        (self.player_id, self.player_idx, self.username@, self.is_ready, self.is_disconnected)
    }
}

/// The lobby of game `game_id` as the member `player_id` at seat
/// `player_idx` sees it: every member, in order, with their seat, name,
/// whether they said they are ready, and whether they are disconnected.
pub fn build_lobby_full_state(
    game_id: GameId,
    player_id: PlayerId,
    player_idx: PlayerIdx,
    members: &Vec<RoomMember>,
    ready: &Vec<PlayerId>,
) -> (r: FullState)
    ensures
        r.player_id == player_id,
        r.player_idx == player_idx,
        r.snapshot matches RoomSnapshot::Lobby { game_id: g, players } && g == game_id && players@.len()
            == members@.len() && forall|i: int|
            0 <= i < members@.len() ==> (#[trigger] players@[i]).model() == lobby_player(
                members_model(members@)[i],
                ready@,
            ),
{
    let mut players: Vec<LobbyPlayerView> = Vec::with_capacity(members.len());
    let mut i: usize = 0;
    while i < members.len()
        invariant
            i <= members@.len(),
            players@.len() == i,
            forall|k: int| 0 <= k < i ==> (#[trigger] players@[k]).model() == lobby_player(members_model(members@)[k], ready@),
        decreases members@.len() - i,
    {
        let m = &members[i];
        let view = LobbyPlayerView {
            player_id: m.player_id,
            player_idx: m.player_idx,
            username: m.username.clone(),
            is_ready: contains_id(ready, m.player_id),
            is_disconnected: !m.connected,
        };
        proof {
            assert(members_model(members@)[i as int] == members@[i as int].model());
        }
        players.push(view);
        i = i + 1;
    }
    FullState { player_id, player_idx, snapshot: RoomSnapshot::Lobby { game_id, players } }
}

/// The finished game as the player `player_id` at seat `player_idx` sees
/// it: who won, at which seat, and why.
pub fn build_game_over_full_state(
    player_id: PlayerId,
    player_idx: PlayerIdx,
    winner_id: PlayerId,
    winner_idx: PlayerIdx,
    reason: String,
) -> (r: FullState)
    ensures
        r == (FullState { player_id, player_idx, snapshot: RoomSnapshot::GameOver { winner_id, winner_idx, reason } }),
{
    FullState { player_id, player_idx, snapshot: RoomSnapshot::GameOver { winner_id, winner_idx, reason } }
}

} // verus!

verus! {

/// What a player is shown of the other player's personal pile is its top
/// card, the last one, with the pile's size: the same card that the pile's
/// owner is shown as the top of their own pile. (The other player is the
/// first board not seated at the viewer's seat; no two boards share a seat.)
pub proof fn law_opponent_sees_the_pile_top(
    g: GameState,
    id: PlayerId,
    idx: PlayerIdx,
    name: Seq<char>,
    j: int,
    owner_id: PlayerId,
    owner_name: Seq<char>,
)
    requires
        full_state_model(g, id, idx, name) is Some,
        forall|a: int, b: int| 0 <= a < b < g@.players.len() ==> g@.players[a].player_idx != g@.players[b].player_idx,
        0 <= j < g@.players.len(),
        g@.players[j].player_idx != idx.0,
        forall|k: int| 0 <= k < j ==> (#[trigger] g@.players[k]).player_idx == idx.0,
    ensures
        ({
            let pile = g@.players[j].personal;
            let top = if pile.len() > 0 { Some(pile[pile.len() - 1]) } else { None };
            &&& full_state_model(g, id, idx, name) matches Some(EventModel::FullState { opponent, .. })
                && opponent.personal_top == top && opponent.personal_count == pile.len()
            &&& full_state_model(g, owner_id, PlayerIdx(g@.players[j].player_idx), owner_name)
                matches Some(EventModel::FullState { your_board, .. }) && your_board.personal.top == top
        }),
{
    let ps = g@.players;
    lemma_find_other(ps, idx);
    assert(find_other(ps, idx) == j) by {
        let o = find_other(ps, idx);
        if o < j {
            assert(ps[o].player_idx == idx.0);
        }
        if j < o {
            assert(ps[j].player_idx == idx.0);
        }
    }
    let owner = PlayerIdx(ps[j].player_idx);
    lemma_find_player(ps, owner);
    assert(find_player(ps, owner) == j) by {
        let q = find_player(ps, owner);
        if q < j {
            assert(ps[q].player_idx == owner.0);
        }
    }
}

} // verus!
