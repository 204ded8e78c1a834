//! The lobby: players take the two seats, say they are ready, and the game
//! starts after a countdown.
use vstd::prelude::*;

use crate::board::BoardModel;
use crate::ids::{GameId, PlayerId, PlayerIdx, Seconds, Seed};
use crate::outside::random_seed;
use crate::protocol::{EventModel, ServerEvent};
use crate::room::{
    distinct_members, distinct_participants, effects_model, find_member, find_seat_holder, first_where,
    lemma_member_pos_unique, participants_from, participants_of, remove_id, seat_holder_pos, without_id, is_member, lemma_first_where, member_pos, members_model, seated_member_pos,
    EffectModel, InputModel, MemberModel, Participant, RoomEffect, RoomInput, RoomMember, BOARD_SIZE, HAND_SIZE, UNSEATED,
};
use crate::room_events::{full_state_effects, send_full_state, push_effect};
use crate::state::{started, GameState};
use crate::state_spec::GameModel;
use crate::playing::{playing_wf, PlayingModel, PlayingPhase};

verus! {

/// Whether the lobby is still waiting or has committed to starting.
#[derive(Debug, Clone, Copy, PartialEq, Eq, Structural)]
pub enum LobbyState {
    Waiting,
    Starting,
}

/// The lobby of a room.
#[derive(Debug)]
pub struct LobbyPhase {
    pub game_id: GameId,
    pub turn_seconds: Seconds,
    pub seed: Option<Seed>,
    pub state: LobbyState,
    pub ready: Vec<PlayerId>,
}

/// The lobby as plain values.
pub struct LobbyModel {
    pub game_id: Seq<char>,
    pub turn_seconds: Seconds,
    pub seed: Option<Seed>,
    pub state: LobbyState,
    pub ready: Seq<PlayerId>,
}

impl LobbyPhase {
    pub open spec fn model(&self) -> LobbyModel {
        LobbyModel {
            game_id: self.game_id.0@,
            turn_seconds: self.turn_seconds,
            seed: self.seed,
            state: self.state,
            ready: self.ready@,
        }
    }
}

/// Number of members who hold a seat.
pub open spec fn seated_count(ms: Seq<MemberModel>) -> nat
    decreases ms.len(),
{
    if ms.len() == 0 {
        0
    } else {
        seated_count(ms.drop_last()) + if ms.last().player_idx.0 != UNSEATED { 1nat } else { 0nat }
    }
}

/// Whether some member sits at `idx`.
pub open spec fn seat_taken(ms: Seq<MemberModel>, idx: PlayerIdx) -> bool {
    exists|i: int| 0 <= i < ms.len() && (#[trigger] ms[i]).player_idx == idx
}

/// The first free seat among 0 and 1, or the unseated mark.
pub open spec fn next_free_seat(ms: Seq<MemberModel>) -> PlayerIdx {
    if !seat_taken(ms, PlayerIdx(0)) {
        PlayerIdx(0)
    } else if !seat_taken(ms, PlayerIdx(1)) {
        PlayerIdx(1)
    } else {
        PlayerIdx(UNSEATED)
    }
}

/// Two members hold a seat and every member said they are ready.
pub open spec fn all_ready(ms: Seq<MemberModel>, ready: Seq<PlayerId>) -> bool {
    &&& seated_count(ms) == 2
    &&& forall|i: int| 0 <= i < ms.len() ==> ready.contains(#[trigger] ms[i].player_id)
}

/// The member at position `p`, with its connection flag set to `c`.
pub open spec fn set_connected(ms: Seq<MemberModel>, p: int, c: bool) -> Seq<MemberModel> {
    if 0 <= p < ms.len() { ms.update(p, MemberModel { connected: c, ..ms[p] }) } else { ms }
}

/// What the lobby does with `input`, except for the start of the game
/// itself (see `lobby_starts`).
pub open spec fn lobby_step(l: LobbyModel, ms: Seq<MemberModel>, input: InputModel) -> (LobbyModel, Seq<MemberModel>, Seq<EffectModel>) {
    let unchanged = (l, ms, Seq::<EffectModel>::empty());
    if l.state == LobbyState::Starting && !(input is StartGame) {
        unchanged
    } else {
        match input {
            InputModel::SubscribePlayer { player_id } => if is_member(ms, player_id) {
                unchanged
            } else {
                (l, ms.push(MemberModel {
                    player_id,
                    username: Seq::empty(),
                    player_idx: PlayerIdx(UNSEATED),
                    connected: false,
                }), Seq::empty())
            },
            InputModel::PlayerJoined { player_id, username } => {
                let before = seated_count(ms);
                let idx = next_free_seat(ms);
                let p = member_pos(ms, player_id);
                if before >= 2 || p >= ms.len() || ms[p].player_idx.0 != UNSEATED {
                    unchanged
                } else {
                    let ms2 = ms.update(p, MemberModel { player_idx: idx, connected: true, username, ..ms[p] });
                    let joined = seq![EffectModel::Broadcast(EventModel::PlayerJoined { player_id, player_idx: idx, username })];
                    (l, ms2, joined)
                }
            },
            InputModel::PlayerReady { player_id } => if !is_member(ms, player_id) {
                unchanged
            } else {
                let newly = !l.ready.contains(player_id);
                let ready2 = if newly { l.ready.push(player_id) } else { l.ready };
                let told = if newly {
                    seq![EffectModel::Broadcast(EventModel::PlayerReady { player_id })]
                } else {
                    Seq::empty()
                };
                if all_ready(ms, ready2) {
                    (LobbyModel { ready: ready2, state: LobbyState::Starting, ..l }, ms, told.push(EffectModel::StartCountdown))
                } else {
                    (LobbyModel { ready: ready2, ..l }, ms, told)
                }
            },
            InputModel::StartGame => if l.state == LobbyState::Starting && !all_ready(ms, l.ready) {
                (LobbyModel { state: LobbyState::Waiting, ..l }, ms, Seq::empty())
            } else {
                unchanged
            },
            InputModel::PlayerLeft { player_id } => {
                let p = member_pos(ms, player_id);
                if p < ms.len() {
                    let ms2 = ms.remove(p);
                    let left = seq![EffectModel::Broadcast(EventModel::PlayerLeft { player_id, player_idx: ms[p].player_idx })];
                    (LobbyModel { ready: without_id(l.ready, player_id), ..l }, ms2, if ms2.len() == 0 {
                        left.push(EffectModel::Shutdown)
                    } else {
                        left
                    })
                } else {
                    (l, ms, if ms.len() == 0 { seq![EffectModel::Shutdown] } else { Seq::empty() })
                }
            },
            InputModel::IsPlayerKnown { player_id } => (l, ms, seq![EffectModel::ReplyKnown(is_member(ms, player_id))]),
            InputModel::PlayerReconnected { player_id } => (l, set_connected(ms, member_pos(ms, player_id), true), Seq::empty()),
            InputModel::UnsubscribePlayer { player_id } => (l, set_connected(ms, member_pos(ms, player_id), false), Seq::empty()),
            InputModel::SetSeed(s) => (LobbyModel { seed: Some(s), ..l }, ms, Seq::empty()),
            _ => unchanged,
        }
    }
}

/// Whether `input` starts the game from lobby `l`.
pub open spec fn lobby_starts(l: LobbyModel, ms: Seq<MemberModel>, input: InputModel) -> bool {
    input is StartGame && l.state == LobbyState::Starting && all_ready(ms, l.ready)
}

/// The boards `players` after each of the first `n` owners claimed the
/// first board at their seat.
pub open spec fn with_owners(players: Seq<BoardModel>, owners: Seq<Participant>, n: int) -> Seq<BoardModel>
    decreases n,
{
    if n <= 0 {
        players
    } else {
        let prev = with_owners(players, owners, n - 1);
        let o = owners[n - 1];
        let k = first_where(prev, |b: BoardModel| b.player_idx == o.player_idx.0);
        if k < prev.len() {
            prev.update(k, BoardModel { player_id: Some(o.player_id), ..prev[k] })
        } else {
            prev
        }
    }
}

pub(crate) proof fn lemma_with_owners_seats(players: Seq<BoardModel>, owners: Seq<Participant>, n: int)
    ensures
        with_owners(players, owners, n).len() == players.len(),
        forall|k: int| 0 <= k < players.len() ==> (#[trigger] with_owners(players, owners, n)[k]).player_idx == players[k].player_idx,
        forall|k: int| 0 <= k < players.len() ==> {
            &&& with_owners(players, owners, n)[k].personal == players[k].personal
            &&& with_owners(players, owners, n)[k].hand == players[k].hand
            &&& with_owners(players, owners, n)[k].sides == players[k].sides
        },
    decreases n,
{
    if n > 0 {
        lemma_with_owners_seats(players, owners, n - 1);
        let prev = with_owners(players, owners, n - 1);
        let o = owners[n - 1];
        lemma_first_where(prev, |b: BoardModel| b.player_idx == o.player_idx.0);
    }
}

/// A game of two seats, dealt from a double deck shuffled with `seed` and
/// started.
pub open spec fn fresh_game(g: GameState, game_id: Seq<char>, seed: Seed, turn_seconds: Seconds) -> bool {
    &&& started(&g)
    &&& g@.players.len() == 2
    &&& g@.players[0].player_idx == 0
    &&& g@.players[1].player_idx == 1
    &&& g.game_id.0@ == game_id
    &&& g.seed == seed
    &&& g.turn_seconds == turn_seconds
}

/// `g2` is the game `g` with its boards claimed by `owners`.
pub open spec fn claimed(g: GameState, owners: Seq<Participant>, g2: GameState) -> bool {
    &&& g2@ == GameModel { players: with_owners(g@.players, owners, owners.len() as int), ..g@ }
    &&& g2.scale_manager == g.scale_manager
    &&& g2.same_setting(&g)
}

/// A new game for this room: a double deck shuffled with `seed`, thirteen
/// personal cards and five hand cards per seat, started.
pub fn new_started_game(game_id: GameId, seed: Seed, turn_seconds: Seconds) -> (r: GameState)
    ensures
        fresh_game(r, game_id.0@, seed, turn_seconds),
{
    let mut g = GameState::new(game_id, seed, BOARD_SIZE, HAND_SIZE, turn_seconds);
    g.start_game();
    g
}

/// Each owner in turn takes the first board at their seat.
pub fn claim_boards(game: &mut GameState, owners: &Vec<Participant>)
    ensures
        claimed(*old(game), owners@, *final(game)),
{
    let ghost g0 = *game;
    let mut i: usize = 0;
    while i < owners.len()
        invariant
            i <= owners@.len(),
            game@ == (GameModel { players: with_owners(g0@.players, owners@, i as int), ..g0@ }),
            game.scale_manager == g0.scale_manager,
            game.same_setting(&g0),
        decreases owners@.len() - i,
    {
        let o = owners[i];
        let ghost prev = game@.players;
        let ghost pred = |b: BoardModel| b.player_idx == o.player_idx.0;
        let mut k: usize = 0;
        while k < game.players.len()
            invariant
                k <= game.players@.len(),
                prev == game@.players,
                forall|j: int| 0 <= j < k ==> (#[trigger] game.players@[j]).player_idx != o.player_idx.0,
            ensures
                k <= game.players@.len(),
                forall|j: int| 0 <= j < k ==> (#[trigger] game.players@[j]).player_idx != o.player_idx.0,
                k < game.players@.len() ==> game.players@[k as int].player_idx == o.player_idx.0,
            decreases game.players@.len() - k,
        {
            if game.players[k].player_idx == o.player_idx.0 {
                break;
            }
            k = k + 1;
        }
        proof {
            lemma_first_where(prev, pred);
            let f = first_where(prev, pred);
            if f < k && f < prev.len() {
                assert(prev[f] == game.players@[f].model());
            }
            if (k as int) < f && k < game.players@.len() {
                assert(prev[k as int] == game.players@[k as int].model());
            }
        }
        if k < game.players.len() {
            let ghost before = game.players@;
            game.players[k].player_id = Some(o.player_id);
            proof {
                crate::state::lemma_models_update(before, k as int, game.players@[k as int]);
                assert(game.players@[k as int].model() == BoardModel { player_id: Some(o.player_id), ..prev[k as int] });
            }
        }
        i = i + 1;
        proof {
            assert(game@.players =~= with_owners(g0@.players, owners@, i as int));
        }
    }
}

/// How a game begins: every board owned by the member sitting at it, the
/// full state to every member, the announcement of the first player, and
/// that player's turn timer.
pub open spec fn game_start_effects(ms: Seq<MemberModel>, g: GameState, turn_seconds: Seconds, starter_id: PlayerId) -> Seq<EffectModel> {
    full_state_effects(ms, g, ms.len() as int) + seq![
        EffectModel::Broadcast(EventModel::GameStarted {
            current_player_id: starter_id,
            current_player_idx: g.current_turn,
            turn_seconds,
        }),
        EffectModel::StartTurnTimer { player_id: starter_id, seconds: turn_seconds },
        EffectModel::RestartTurnClock,
    ]
}

/// Number of members holding a seat.
fn joined_count(members: &Vec<RoomMember>) -> (r: usize)
    ensures
        r == seated_count(members_model(members@)),
{
    let ghost ms = members_model(members@);
    let mut n: usize = 0;
    let mut i: usize = 0;
    while i < members.len()
        invariant
            i <= members@.len(),
            ms == members_model(members@),
            n <= i,
            n == seated_count(ms.subrange(0, i as int)),
        decreases members@.len() - i,
    {
        proof {
            assert(ms.subrange(0, i + 1).drop_last() =~= ms.subrange(0, i as int));
            assert(ms[i as int] == members@[i as int].model());
        }
        if members[i].player_idx.as_usize() != UNSEATED {
            n = n + 1;
        }
        i = i + 1;
    }
    proof {
        assert(ms.subrange(0, ms.len() as int) =~= ms);
    }
    n
}

/// Whether some member sits at `idx`.
fn is_seat_taken(members: &Vec<RoomMember>, idx: PlayerIdx) -> (r: bool)
    ensures
        r == seat_taken(members_model(members@), idx),
{
    let ghost ms = members_model(members@);
    let mut i: usize = 0;
    while i < members.len()
        invariant
            i <= members@.len(),
            ms == members_model(members@),
            forall|j: int| 0 <= j < i ==> (#[trigger] ms[j]).player_idx != idx,
        decreases members@.len() - i,
    {
        proof {
            assert(ms[i as int] == members@[i as int].model());
        }
        if members[i].player_idx == idx {
            return true;
        }
        i = i + 1;
    }
    false
}

/// The first free seat among 0 and 1, or the unseated mark.
fn next_available_idx(members: &Vec<RoomMember>) -> (r: PlayerIdx)
    ensures
        r == next_free_seat(members_model(members@)),
{
    if !is_seat_taken(members, PlayerIdx(0)) {
        PlayerIdx(0)
    } else if !is_seat_taken(members, PlayerIdx(1)) {
        PlayerIdx(1)
    } else {
        PlayerIdx(UNSEATED)
    }
}

/// Whether `id` is among `ready`.
fn is_ready(ready: &Vec<PlayerId>, id: PlayerId) -> (r: bool)
    ensures
        r == ready@.contains(id),
{
    let mut i: usize = 0;
    while i < ready.len()
        invariant
            i <= ready@.len(),
            forall|j: int| 0 <= j < i ==> ready@[j] != id,
        decreases ready@.len() - i,
    {
        if ready[i] == id {
            return true;
        }
        i = i + 1;
    }
    false
}

impl LobbyPhase {
    /// A lobby waiting for players, with no seed chosen and nobody ready.
    pub fn new(game_id: GameId, turn_seconds: Seconds) -> (r: Self)
        ensures
            r.model() == (LobbyModel {
                game_id: game_id.0@,
                turn_seconds,
                seed: None,
                state: LobbyState::Waiting,
                ready: Seq::empty(),
            }),
    {
        LobbyPhase { game_id, turn_seconds, seed: None, state: LobbyState::Waiting, ready: Vec::new() }
    }

    /// Two members are seated and every member said they are ready.
    pub(crate) fn all_players_ready(&self, members: &Vec<RoomMember>) -> (r: bool)
        ensures
            r == all_ready(members_model(members@), self.ready@),
    {
        let ghost ms = members_model(members@);
        if joined_count(members) != 2 {
            return false;
        }
        let mut i: usize = 0;
        while i < members.len()
            invariant
                i <= members@.len(),
                ms == members_model(members@),
                forall|j: int| 0 <= j < i ==> self.ready@.contains(#[trigger] ms[j].player_id),
            decreases members@.len() - i,
        {
            proof {
                assert(ms[i as int] == members@[i as int].model());
            }
            if !is_ready(&self.ready, members[i].player_id) {
                proof {
                    assert(!self.ready@.contains(ms[i as int].player_id));
                }
                return false;
            }
            i = i + 1;
        }
        true
    }

    /// Handles every command but the one that starts the game (see
    /// `lobby_step`).
    #[verifier::rlimit(60)]
    pub fn handle_command(&mut self, members: &mut Vec<RoomMember>, input: RoomInput) -> (r: Vec<RoomEffect>)
        requires
            !lobby_starts(old(self).model(), members_model(old(members)@), input.model()),
            lobby_wf(members_model(old(members)@)),
        ensures
            lobby_wf(members_model(final(members)@)),
            ({
                let (l2, ms2, es) = lobby_step(old(self).model(), members_model(old(members)@), input.model());
                &&& final(self).model() == l2
                &&& members_model(final(members)@) == ms2
                &&& effects_model(r@) == es
            }),
            final(self).game_id == old(self).game_id,
    {
        let ghost ms = members_model(members@);
        let mut effects: Vec<RoomEffect> = Vec::new();
        proof {
            assert(effects_model(effects@) =~= Seq::<EffectModel>::empty());
        }
        let starting = match self.state {
            LobbyState::Starting => true,
            LobbyState::Waiting => false,
        };
        let is_start = match input {
            RoomInput::StartGame => true,
            _ => false,
        };
        if starting && !is_start {
            return effects;
        }
        match input {
            RoomInput::SubscribePlayer { player_id } => {
                match find_member(members, player_id) {
                    Some(_) => {},
                    None => {
                        members.push(RoomMember {
                            player_id,
                            username: String::new(),
                            player_idx: PlayerIdx(UNSEATED),
                            connected: false,
                        });
                        proof {
                            assert(members_model(members@) =~= ms.push(MemberModel {
                                player_id,
                                username: Seq::empty(),
                                player_idx: PlayerIdx(UNSEATED),
                                connected: false,
                            }));
                            lemma_first_where(ms, |m: MemberModel| m.player_id == player_id);
                            let ms2 = members_model(members@);
                            assert forall|i: int, j: int| 0 <= i < j < ms2.len() implies ms2[i].player_id != ms2[j].player_id by {
                                if j == ms.len() {
                                    assert(ms[i].player_id != player_id);
                                } else {
                                    assert(ms2[i] == ms[i] && ms2[j] == ms[j]);
                                }
                            }
                        }
                    },
                }
                return effects;
            },
            RoomInput::PlayerJoined { player_id, username } => {
                let before = joined_count(members);
                if before >= 2 {
                    return effects;
                }
                let idx = next_available_idx(members);
                let p = match find_member(members, player_id) {
                    Some(p) => p,
                    None => {
                        return effects;
                    },
                };
                proof {
                    assert(ms[p as int] == members@[p as int].model());
                }
                if members[p].player_idx.as_usize() != UNSEATED {
                    return effects;
                }
                let name = username.clone();
                let ghost old_members = members@;
                members[p].player_idx = idx;
                members[p].connected = true;
                members[p].username = username;
                proof {
                    assert(members_model(members@) =~= ms.update(p as int, MemberModel {
                        player_idx: idx,
                        connected: true,
                        username: name@,
                        ..ms[p as int]
                    }));
                }
                push_effect(&mut effects, RoomEffect::Broadcast(ServerEvent::PlayerJoined { player_id, player_idx: idx, username: name }));
                return effects;
            },
            RoomInput::PlayerReady { player_id } => {
                match find_member(members, player_id) {
                    Some(_) => {},
                    None => {
                        return effects;
                    },
                }
                if !is_ready(&self.ready, player_id) {
                    self.ready.push(player_id);
                    push_effect(&mut effects, RoomEffect::Broadcast(ServerEvent::PlayerReady { player_id }));
                }
                if self.all_players_ready(members) {
                    self.state = LobbyState::Starting;
                    push_effect(&mut effects, RoomEffect::StartCountdown);
                }
                return effects;
            },
            RoomInput::StartGame => {
                if !starting {
                    return effects;
                }
                if !self.all_players_ready(members) {
                    self.state = LobbyState::Waiting;
                }
                return effects;
            },
            RoomInput::GameStartingTick { seconds_remaining } => {
                if !starting {
                    return effects;
                }
                push_effect(&mut effects, RoomEffect::Broadcast(ServerEvent::GameStarting { seconds_remaining }));
                return effects;
            },
            RoomInput::PlayerLeft { player_id } => {
                match find_member(members, player_id) {
                    Some(p) => {
                        proof {
                            assert(ms[p as int] == members@[p as int].model());
                        }
                        let info = members.remove(p);
                        proof {
                            assert(members_model(members@) =~= ms.remove(p as int));
                        }
                        remove_id(&mut self.ready, player_id);
                        push_effect(&mut effects, RoomEffect::Broadcast(ServerEvent::PlayerLeft {
                            player_id,
                            player_idx: info.player_idx,
                        }));
                    },
                    None => {},
                }
                if members.len() == 0 {
                    push_effect(&mut effects, RoomEffect::Shutdown);
                }
                return effects;
            },
            RoomInput::IsPlayerKnown { player_id } => {
                let known = match find_member(members, player_id) {
                    Some(_) => true,
                    None => false,
                };
                push_effect(&mut effects, RoomEffect::ReplyKnown(known));
                return effects;
            },
            RoomInput::PlayerReconnected { player_id } => {
                match find_member(members, player_id) {
                    Some(p) => {
                        members[p].connected = true;
                        proof {
                            assert(members_model(members@) =~= crate::lobby::set_connected(ms, p as int, true));
                        }
                    },
                    None => {},
                }
                return effects;
            },
            RoomInput::UnsubscribePlayer { player_id } => {
                match find_member(members, player_id) {
                    Some(p) => {
                        members[p].connected = false;
                        proof {
                            assert(members_model(members@) =~= crate::lobby::set_connected(ms, p as int, false));
                        }
                    },
                    None => {},
                }
                return effects;
            },
            RoomInput::SetSeed(s) => {
                self.seed = Some(s);
                return effects;
            },
            _ => {},
        }
        effects
    }
}

/// The members fit a lobby: distinct ids, every member at seat 0, at seat 1
/// or unseated, and no seat held twice.
pub open spec fn lobby_wf(ms: Seq<MemberModel>) -> bool {
    &&& distinct_members(ms)
    &&& forall|i: int| 0 <= i < ms.len() ==> (#[trigger] ms[i]).player_idx.0 < 2 || ms[i].player_idx.0 == UNSEATED
    &&& forall|i: int, j: int| 0 <= i < j < ms.len() && (#[trigger] ms[i]).player_idx.0 < 2
        ==> ms[i].player_idx != (#[trigger] ms[j]).player_idx
}

/// In a lobby, at most the taken seats are counted.
proof fn lemma_seated_count_bound(ms: Seq<MemberModel>)
    requires
        lobby_wf(ms),
    ensures
        seated_count(ms) <= (if seat_taken(ms, PlayerIdx(0)) { 1nat } else { 0nat })
            + (if seat_taken(ms, PlayerIdx(1)) { 1nat } else { 0nat }),
    decreases ms.len(),
{
    if ms.len() > 0 {
        let init = ms.drop_last();
        assert forall|i: int| 0 <= i < init.len() implies init[i] == ms[i] by {}
        assert(lobby_wf(init));
        lemma_seated_count_bound(init);
        let last = ms.last();
        if last.player_idx.0 != UNSEATED {
            assert(!seat_taken(init, last.player_idx)) by {
                if seat_taken(init, last.player_idx) {
                    let i = choose|i: int| 0 <= i < init.len() && (#[trigger] init[i]).player_idx == last.player_idx;
                    assert(ms[i].player_idx == ms[ms.len() - 1].player_idx);
                }
            }
        }
        assert forall|s: PlayerIdx| seat_taken(init, s) implies seat_taken(ms, s) by {
            let i = choose|i: int| 0 <= i < init.len() && (#[trigger] init[i]).player_idx == s;
            assert(ms[i].player_idx == s);
        }
        if last.player_idx.0 != UNSEATED {
            assert(seat_taken(ms, last.player_idx)) by {
                assert(ms[ms.len() - 1].player_idx == last.player_idx);
            }
        }
    }
}

/// The game starts: a fresh game dealt from a deck shuffled with the
/// chosen seed (a random one when none was set), each board claimed by the
/// member at its seat, the room now playing with the members as
/// participants, and the opening messages sent.
pub open spec fn lobby_started(l: LobbyModel, ms: Seq<MemberModel>, p2: PlayingModel, g2: GameState, es: Seq<EffectModel>) -> bool {
    let ps = participants_of(ms);
    &&& exists|g0: GameState, seed: Seed| {
        &&& fresh_game(g0, l.game_id, seed, l.turn_seconds)
        &&& (l.seed matches Some(s) ==> seed == s)
        &&& claimed(g0, ps, g2)
    }
    &&& p2 == (PlayingModel {
        game_id: l.game_id,
        turn_seconds: l.turn_seconds,
        current_player: g2@.current_turn,
        participants: ps,
        pending: Seq::empty(),
    })
    &&& es == game_start_effects(ms, g2, l.turn_seconds, ps[seat_holder_pos(ps, g2@.current_turn)].player_id)
}

impl LobbyPhase {
    /// Starts the game once every member is ready (see `lobby_started`).
    pub fn start_game(&self, members: &Vec<RoomMember>) -> (r: (PlayingPhase, GameState, Vec<RoomEffect>))
        requires
            lobby_wf(members_model(members@)),
            all_ready(members_model(members@), self.ready@),
        ensures
            lobby_started(self.model(), members_model(members@), r.0.model(), r.1, effects_model(r.2@)),
            playing_wf(r.0.model(), members_model(members@), r.1),
    {
        let ghost ms = members_model(members@);
        let seed = match self.seed {
            Some(s) => s,
            None => Seed(random_seed()),
        };
        let mut g = new_started_game(self.game_id.clone(), seed, self.turn_seconds);
        let ghost g0 = g;
        let owners = participants_from(members);
        claim_boards(&mut g, &owners);
        proof {
            lemma_with_owners_seats(g0@.players, owners@, owners@.len() as int);
            lemma_seated_count_bound(ms);
            let ps = owners@;
            assert(ps.len() == ms.len());
            assert forall|i: int| 0 <= i < ps.len() implies #[trigger] ps[i] == (Participant {
                player_id: ms[i].player_id,
                player_idx: ms[i].player_idx,
            }) by {}
            let i0 = choose|i: int| 0 <= i < ms.len() && (#[trigger] ms[i]).player_idx == PlayerIdx(0);
            let i1 = choose|i: int| 0 <= i < ms.len() && (#[trigger] ms[i]).player_idx == PlayerIdx(1);
            assert(ps[i0].player_idx == PlayerIdx(0));
            assert(ps[i1].player_idx == PlayerIdx(1));
            lemma_first_where(ps, |q: Participant| q.player_idx == PlayerIdx(0));
            lemma_first_where(ps, |q: Participant| q.player_idx == PlayerIdx(1));
            assert(distinct_participants(ps)) by {
                assert forall|a: int, b: int| 0 <= a < b < ps.len() implies ps[a].player_id != ps[b].player_id by {
                    assert(ps[a].player_id == ms[a].player_id);
                    assert(ps[b].player_id == ms[b].player_id);
                }
            }
            assert forall|i: int| 0 <= i < ps.len() implies {
                &&& is_member(ms, (#[trigger] ps[i]).player_id)
                &&& ms[member_pos(ms, ps[i].player_id)].player_idx == ps[i].player_idx
            } by {
                lemma_member_pos_unique(ms, i);
            }
        }
        let starter_idx = g.current_turn;
        proof {
            lemma_first_where(owners@, |q: Participant| q.player_idx == PlayerIdx(0));
            lemma_first_where(owners@, |q: Participant| q.player_idx == PlayerIdx(1));
        }
        let sh = match find_seat_holder(&owners, starter_idx) {
            Some(sh) => sh,
            None => {
                proof {
                    assert(false);
                }
                0
            },
        };
        let starter_id = owners[sh].player_id;
        let mut effects = send_full_state(members, &g);
        push_effect(&mut effects, RoomEffect::Broadcast(ServerEvent::GameStarted {
            current_player_id: starter_id,
            current_player_idx: starter_idx,
            turn_seconds: self.turn_seconds,
        }));
        push_effect(&mut effects, RoomEffect::StartTurnTimer { player_id: starter_id, seconds: self.turn_seconds });
        push_effect(&mut effects, RoomEffect::RestartTurnClock);
        proof {
            assert(effects_model(effects@) =~= game_start_effects(ms, g, self.turn_seconds, starter_id));
        }
        let phase = PlayingPhase {
            game_id: self.game_id.clone(),
            turn_seconds: self.turn_seconds,
            current_player: starter_idx,
            participants: owners,
            pending_disconnects: Vec::new(),
        };
        proof {
            assert(phase.model().pending =~= Seq::<PlayerId>::empty());
            assert(fresh_game(g0, self.game_id.0@, seed, self.turn_seconds) && claimed(g0, participants_of(ms), g));
        }
        (phase, g, effects)
    }
}

} // verus!
