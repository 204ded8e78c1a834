//! A game room: who is in it, which phase it is in (lobby, playing, over),
//! and what the room does in answer to each command. Each answer is a list
//! of effects (messages to send, timers to start or stop) that the caller
//! carries out.
use vstd::prelude::*;
use vstd::string::*;

use crate::actions::Action;
use crate::ids::{GameId, PlayerId, PlayerIdx, Seconds, Seed};
use crate::outside::{parse_uuid, uuid_parse};
use crate::protocol::{ClientMessage, EventModel, LobbyAction, ServerEvent, WsQuery};
use crate::state::GameState;

verus! {

/// The seat of a member who has subscribed but not joined.
pub const UNSEATED: usize = usize::MAX;

/// How long a disconnected player has to come back.
pub const DISCONNECT_GRACE_SECONDS: u64 = 30;

/// Personal pile size dealt at the start of a game.
pub const BOARD_SIZE: usize = 13;

/// Hand size dealt at the start of a game.
pub const HAND_SIZE: usize = 5;

/// Position of the first element of `s` that satisfies `p`, or the length.
pub open spec fn first_where<T>(s: Seq<T>, p: spec_fn(T) -> bool) -> int
    decreases s.len(),
{
    if s.len() == 0 {
        0
    } else if first_where(s.drop_last(), p) < s.len() - 1 {
        first_where(s.drop_last(), p)
    } else if p(s.last()) {
        s.len() - 1
    } else {
        s.len() as int
    }
}

pub proof fn lemma_first_where<T>(s: Seq<T>, p: spec_fn(T) -> bool)
    ensures
        0 <= first_where(s, p) <= s.len(),
        first_where(s, p) < s.len() ==> p(s[first_where(s, p)]),
        forall|j: int| 0 <= j < first_where(s, p) ==> !p(#[trigger] s[j]),
    decreases s.len(),
{
    if s.len() > 0 {
        let init = s.drop_last();
        lemma_first_where(init, p);
        assert forall|j: int| 0 <= j < init.len() implies init[j] == s[j] by {}
    }
}

/// A player known to the room.
#[derive(Debug, Clone)]
pub struct RoomMember {
    pub player_id: PlayerId,
    pub username: String,
    pub player_idx: PlayerIdx,
    pub connected: bool,
}

/// A member as plain values.
pub struct MemberModel {
    pub player_id: PlayerId,
    pub username: Seq<char>,
    pub player_idx: PlayerIdx,
    pub connected: bool,
}

impl RoomMember {
    pub open spec fn model(&self) -> MemberModel {
        MemberModel {
            player_id: self.player_id,
            username: self.username@,
            player_idx: self.player_idx,
            connected: self.connected,
        }
    }
}

pub open spec fn members_model(ms: Seq<RoomMember>) -> Seq<MemberModel> {
    ms.map_values(|m: RoomMember| m.model())
}

/// Position of the member `id`, or the number of members.
pub open spec fn member_pos(ms: Seq<MemberModel>, id: PlayerId) -> int {
    first_where(ms, |m: MemberModel| m.player_id == id)
}

/// Whether `id` is a member.
pub open spec fn is_member(ms: Seq<MemberModel>, id: PlayerId) -> bool {
    member_pos(ms, id) < ms.len()
}

/// Position of the first member not seated at `idx`, or the number of members.
pub open spec fn other_member_pos(ms: Seq<MemberModel>, idx: PlayerIdx) -> int {
    first_where(ms, |m: MemberModel| m.player_idx != idx)
}

/// Position of the first member seated at `idx`, or the number of members.
pub open spec fn seated_member_pos(ms: Seq<MemberModel>, idx: PlayerIdx) -> int {
    first_where(ms, |m: MemberModel| m.player_idx == idx)
}

/// The members without the one at position `i`.
pub open spec fn without(ms: Seq<MemberModel>, i: int) -> Seq<MemberModel> {
    if 0 <= i < ms.len() { ms.remove(i) } else { ms }
}

/// A command to a room, as plain values.
#[derive(Debug, Clone)]
pub enum RoomInput {
    /// A connection opened for `player_id`.
    SubscribePlayer { player_id: PlayerId },
    /// Cleanup after a join that failed.
    UnsubscribePlayer { player_id: PlayerId },
    /// `player_id` asks to take a seat.
    PlayerJoined { player_id: PlayerId, username: String },
    /// The connection of `player_id` dropped.
    NetworkDisconnect { player_id: PlayerId },
    /// `player_id` came back within the grace period.
    PlayerReconnected { player_id: PlayerId },
    /// The grace period of `player_id` ran out.
    DisconnectTimeout { player_id: PlayerId },
    PlayerReady { player_id: PlayerId },
    PlayAgain { player_id: PlayerId },
    /// `player_id` left on purpose.
    PlayerLeft { player_id: PlayerId },
    PlayerAction { player_id: PlayerId, action: Action },
    /// Asks whether `player_id` belongs to the room.
    IsPlayerKnown { player_id: PlayerId },
    /// The start countdown ran out.
    StartGame,
    GameStartingTick { seconds_remaining: u8 },
    /// The turn timer of `player_id` ran out.
    TurnTimeout { player_id: PlayerId },
    SetSeed(Seed),
}

/// A command as plain values.
pub enum InputModel {
    SubscribePlayer { player_id: PlayerId },
    UnsubscribePlayer { player_id: PlayerId },
    PlayerJoined { player_id: PlayerId, username: Seq<char> },
    NetworkDisconnect { player_id: PlayerId },
    PlayerReconnected { player_id: PlayerId },
    DisconnectTimeout { player_id: PlayerId },
    PlayerReady { player_id: PlayerId },
    PlayAgain { player_id: PlayerId },
    PlayerLeft { player_id: PlayerId },
    PlayerAction { player_id: PlayerId, action: Action },
    IsPlayerKnown { player_id: PlayerId },
    StartGame,
    GameStartingTick { seconds_remaining: u8 },
    TurnTimeout { player_id: PlayerId },
    SetSeed(Seed),
}

impl RoomInput {
    pub open spec fn model(&self) -> InputModel {
        match *self {
            RoomInput::SubscribePlayer { player_id } => InputModel::SubscribePlayer { player_id },
            RoomInput::UnsubscribePlayer { player_id } => InputModel::UnsubscribePlayer { player_id },
            RoomInput::PlayerJoined { player_id, username } => InputModel::PlayerJoined { player_id, username: username@ },
            RoomInput::NetworkDisconnect { player_id } => InputModel::NetworkDisconnect { player_id },
            RoomInput::PlayerReconnected { player_id } => InputModel::PlayerReconnected { player_id },
            RoomInput::DisconnectTimeout { player_id } => InputModel::DisconnectTimeout { player_id },
            RoomInput::PlayerReady { player_id } => InputModel::PlayerReady { player_id },
            RoomInput::PlayAgain { player_id } => InputModel::PlayAgain { player_id },
            RoomInput::PlayerLeft { player_id } => InputModel::PlayerLeft { player_id },
            RoomInput::PlayerAction { player_id, action } => InputModel::PlayerAction { player_id, action },
            RoomInput::IsPlayerKnown { player_id } => InputModel::IsPlayerKnown { player_id },
            RoomInput::StartGame => InputModel::StartGame,
            RoomInput::GameStartingTick { seconds_remaining } => InputModel::GameStartingTick { seconds_remaining },
            RoomInput::TurnTimeout { player_id } => InputModel::TurnTimeout { player_id },
            RoomInput::SetSeed(s) => InputModel::SetSeed(s),
        }
    }
}

/// The command a message of `player_id` gives the room.
pub open spec fn client_input(message: ClientMessage, player_id: PlayerId) -> InputModel {
    match message {
        ClientMessage::Lobby(LobbyAction::PlayerReady) => InputModel::PlayerReady { player_id },
        ClientMessage::Lobby(LobbyAction::PlayAgain) => InputModel::PlayAgain { player_id },
        ClientMessage::Lobby(LobbyAction::Leave) => InputModel::PlayerLeft { player_id },
        ClientMessage::Game(action) => InputModel::PlayerAction { player_id, action },
    }
}

impl ClientMessage {
    /// The command this message of `player_id` gives the room: the lobby
    /// requests as they are, leaving as `PlayerLeft`, a move as a
    /// `PlayerAction`.
    pub fn input_for(self, player_id: PlayerId) -> (r: RoomInput)
        ensures
            r.model() == client_input(self, player_id),
    {
        match self {
            ClientMessage::Lobby(LobbyAction::PlayerReady) => RoomInput::PlayerReady { player_id },
            ClientMessage::Lobby(LobbyAction::PlayAgain) => RoomInput::PlayAgain { player_id },
            ClientMessage::Lobby(LobbyAction::Leave) => RoomInput::PlayerLeft { player_id },
            ClientMessage::Game(action) => RoomInput::PlayerAction { player_id, action },
        }
    }
}

/// The name a connecting player goes by when the query gives none.
pub open spec fn anonymous() -> Seq<char> {
    "Anonymous"@
}

impl WsQuery {
    /// The player who connects: the UUID in the query, when it parses.
    pub fn player(&self) -> (r: Option<PlayerId>)
        ensures
            r == match uuid_parse(self.player_id@) {
                Some(n) => Some(PlayerId(n)),
                None => None,
            },
    {
        match parse_uuid(self.player_id.as_str()) {
            Some(n) => Some(PlayerId(n)),
            None => None,
        }
    }

    /// The name the player goes by: the one in the query, or "Anonymous".
    pub fn display_name(&self) -> (r: String)
        ensures
            r@ == match self.username {
                Some(u) => u@,
                None => anonymous(),
            },
    {
        match &self.username {
            Some(u) => u.clone(),
            None => String::from_str("Anonymous"),
        }
    }
}

/// Something the room asks its caller to do.
#[derive(Debug, Clone)]
pub enum RoomEffect {
    /// Send the event to every member.
    Broadcast(ServerEvent),
    /// Send the event to this member only.
    SendTo(PlayerId, ServerEvent),
    /// Stop any running turn timer, then start one for this player.
    StartTurnTimer { player_id: PlayerId, seconds: Seconds },
    /// Stop the running turn timer, if any.
    CancelTurnTimer,
    /// The turn starts now: remaining turn time counts from here.
    RestartTurnClock,
    /// Send `GameStartingTick` for 3, 2 and 1, a second apart, then `StartGame`.
    StartCountdown,
    /// After the grace period, send `DisconnectTimeout` for this player.
    ScheduleDisconnectTimeout { player_id: PlayerId },
    /// Drop the pending `DisconnectTimeout` of this player.
    AbortDisconnectTimeout { player_id: PlayerId },
    /// Answer an `IsPlayerKnown`.
    ReplyKnown(bool),
    /// Close the room.
    Shutdown,
}

/// An effect as plain values.
pub enum EffectModel {
    Broadcast(EventModel),
    SendTo(PlayerId, EventModel),
    StartTurnTimer { player_id: PlayerId, seconds: Seconds },
    CancelTurnTimer,
    RestartTurnClock,
    StartCountdown,
    ScheduleDisconnectTimeout { player_id: PlayerId },
    AbortDisconnectTimeout { player_id: PlayerId },
    ReplyKnown(bool),
    Shutdown,
}

impl RoomEffect {
    pub open spec fn model(&self) -> EffectModel {
        match *self {
            RoomEffect::Broadcast(e) => EffectModel::Broadcast(e.model()),
            RoomEffect::SendTo(id, e) => EffectModel::SendTo(id, e.model()),
            RoomEffect::StartTurnTimer { player_id, seconds } => EffectModel::StartTurnTimer { player_id, seconds },
            RoomEffect::CancelTurnTimer => EffectModel::CancelTurnTimer,
            RoomEffect::RestartTurnClock => EffectModel::RestartTurnClock,
            RoomEffect::StartCountdown => EffectModel::StartCountdown,
            RoomEffect::ScheduleDisconnectTimeout { player_id } => EffectModel::ScheduleDisconnectTimeout { player_id },
            RoomEffect::AbortDisconnectTimeout { player_id } => EffectModel::AbortDisconnectTimeout { player_id },
            RoomEffect::ReplyKnown(b) => EffectModel::ReplyKnown(b),
            RoomEffect::Shutdown => EffectModel::Shutdown,
        }
    }
}

pub open spec fn effects_model(es: Seq<RoomEffect>) -> Seq<EffectModel> {
    es.map_values(|e: RoomEffect| e.model())
}

/// Position of the member `id` in `members`, if any.
pub fn find_member(members: &Vec<RoomMember>, id: PlayerId) -> (r: Option<usize>)
    ensures
        ({
            let p = member_pos(members_model(members@), id);
            &&& p < members@.len() ==> r == Some(p as usize)
            &&& p >= members@.len() ==> r is None
            &&& r matches Some(i) ==> i < members@.len() && i == p
        }),
{
    let ghost ms = members_model(members@);
    let ghost pred = |m: MemberModel| m.player_id == id;
    let mut i: usize = 0;
    while i < members.len()
        invariant
            i <= members@.len(),
            ms == members_model(members@),
            pred == (|m: MemberModel| m.player_id == id),
            forall|j: int| 0 <= j < i ==> (#[trigger] members@[j]).player_id != id,
        decreases members@.len() - i,
    {
        if members[i].player_id == id {
            proof {
                lemma_first_where(ms, pred);
                let p = first_where(ms, pred);
                assert(ms[i as int] == members@[i as int].model());
                if p < i {
                    assert(ms[p] == members@[p].model());
                }
            }
            return Some(i);
        }
        i = i + 1;
    }
    proof {
        lemma_first_where(ms, pred);
        let p = first_where(ms, pred);
        if p < ms.len() {
            assert(ms[p] == members@[p].model());
        }
    }
    None
}

/// A player of the current or last game, with their seat.
#[derive(Debug, Clone, Copy, PartialEq, Eq, Structural)]
pub struct Participant {
    pub player_id: PlayerId,
    pub player_idx: PlayerIdx,
}

/// The members as participants: each member's id and seat, in order.
pub open spec fn participants_of(ms: Seq<MemberModel>) -> Seq<Participant> {
    ms.map_values(|m: MemberModel| Participant { player_id: m.player_id, player_idx: m.player_idx })
}

/// Position of the participant `id`, or the number of participants.
pub open spec fn participant_pos(ps: Seq<Participant>, id: PlayerId) -> int {
    first_where(ps, |q: Participant| q.player_id == id)
}

/// Position of the first participant seated at `idx`, or the number of participants.
pub open spec fn seat_holder_pos(ps: Seq<Participant>, idx: PlayerIdx) -> int {
    first_where(ps, |q: Participant| q.player_idx == idx)
}

/// Position of the first participant other than `id`, or the number of participants.
pub open spec fn other_participant_pos(ps: Seq<Participant>, id: PlayerId) -> int {
    first_where(ps, |q: Participant| q.player_id != id)
}

/// No two participants share an id.
pub open spec fn distinct_participants(ps: Seq<Participant>) -> bool {
    forall|i: int, j: int| 0 <= i < j < ps.len() ==> ps[i].player_id != ps[j].player_id
}

/// Position of the participant `id`, if any.
pub fn find_participant(ps: &Vec<Participant>, id: PlayerId) -> (r: Option<usize>)
    ensures
        ({
            let p = participant_pos(ps@, id);
            &&& p < ps@.len() ==> r == Some(p as usize)
            &&& p >= ps@.len() ==> r is None
            &&& r matches Some(i) ==> i < ps@.len() && i == p
        }),
{
    let ghost pred = |q: Participant| q.player_id == id;
    let mut i: usize = 0;
    while i < ps.len()
        invariant
            i <= ps@.len(),
            pred == (|q: Participant| q.player_id == id),
            forall|j: int| 0 <= j < i ==> (#[trigger] ps@[j]).player_id != id,
        decreases ps@.len() - i,
    {
        if ps[i].player_id == id {
            proof {
                lemma_first_where(ps@, pred);
            }
            return Some(i);
        }
        i = i + 1;
    }
    proof {
        lemma_first_where(ps@, pred);
    }
    None
}

/// Position of the first participant seated at `idx`, if any.
pub fn find_seat_holder(ps: &Vec<Participant>, idx: PlayerIdx) -> (r: Option<usize>)
    ensures
        ({
            let p = seat_holder_pos(ps@, idx);
            &&& p < ps@.len() ==> r == Some(p as usize)
            &&& p >= ps@.len() ==> r is None
            &&& r matches Some(i) ==> i < ps@.len() && i == p
        }),
{
    let ghost pred = |q: Participant| q.player_idx == idx;
    let mut i: usize = 0;
    while i < ps.len()
        invariant
            i <= ps@.len(),
            pred == (|q: Participant| q.player_idx == idx),
            forall|j: int| 0 <= j < i ==> (#[trigger] ps@[j]).player_idx != idx,
        decreases ps@.len() - i,
    {
        if ps[i].player_idx == idx {
            proof {
                lemma_first_where(ps@, pred);
            }
            return Some(i);
        }
        i = i + 1;
    }
    proof {
        lemma_first_where(ps@, pred);
    }
    None
}

/// Position of the first participant other than `id`, if any.
pub fn find_other_participant(ps: &Vec<Participant>, id: PlayerId) -> (r: Option<usize>)
    ensures
        ({
            let p = other_participant_pos(ps@, id);
            &&& p < ps@.len() ==> r == Some(p as usize)
            &&& p >= ps@.len() ==> r is None
            &&& r matches Some(i) ==> i < ps@.len() && i == p
        }),
{
    let ghost pred = |q: Participant| q.player_id != id;
    let mut i: usize = 0;
    while i < ps.len()
        invariant
            i <= ps@.len(),
            pred == (|q: Participant| q.player_id != id),
            forall|j: int| 0 <= j < i ==> (#[trigger] ps@[j]).player_id == id,
        decreases ps@.len() - i,
    {
        if ps[i].player_id != id {
            proof {
                lemma_first_where(ps@, pred);
            }
            return Some(i);
        }
        i = i + 1;
    }
    proof {
        lemma_first_where(ps@, pred);
    }
    None
}

/// Each member's id and seat, in order.
pub fn participants_from(members: &Vec<RoomMember>) -> (r: Vec<Participant>)
    ensures
        r@ == participants_of(members_model(members@)),
{
    let ghost ms = members_model(members@);
    let mut r: Vec<Participant> = Vec::with_capacity(members.len());
    let mut i: usize = 0;
    while i < members.len()
        invariant
            i <= members@.len(),
            ms == members_model(members@),
            r@ == participants_of(ms).subrange(0, i as int),
        decreases members@.len() - i,
    {
        proof {
            assert(ms[i as int] == members@[i as int].model());
        }
        r.push(Participant { player_id: members[i].player_id, player_idx: members[i].player_idx });
        i = i + 1;
        proof {
            assert(r@ =~= participants_of(ms).subrange(0, i as int));
        }
    }
    proof {
        assert(r@ =~= participants_of(ms));
    }
    r
}

/// No two members share an id.
pub open spec fn distinct_members(ms: Seq<MemberModel>) -> bool {
    forall|i: int, j: int| 0 <= i < j < ms.len() ==> ms[i].player_id != ms[j].player_id
}

/// The test "is `id`".
pub open spec fn is_id(id: PlayerId) -> spec_fn(PlayerId) -> bool {
    |x: PlayerId| x == id
}

/// The ids in `ids` without the first occurrence of `id`.
pub open spec fn without_id(ids: Seq<PlayerId>, id: PlayerId) -> Seq<PlayerId> {
    let k = first_where(ids, is_id(id));
    if k < ids.len() { ids.remove(k) } else { ids }
}

/// The ids in `ids` with `id` added unless it is there already.
pub open spec fn with_id(ids: Seq<PlayerId>, id: PlayerId) -> Seq<PlayerId> {
    if ids.contains(id) { ids } else { ids.push(id) }
}

/// Whether `id` is in `ids`.
pub fn contains_id(ids: &Vec<PlayerId>, id: PlayerId) -> (r: bool)
    ensures
        r == ids@.contains(id),
{
    let mut i: usize = 0;
    while i < ids.len()
        invariant
            i <= ids@.len(),
            forall|j: int| 0 <= j < i ==> ids@[j] != id,
        decreases ids@.len() - i,
    {
        if ids[i] == id {
            return true;
        }
        i = i + 1;
    }
    false
}

/// Takes the first occurrence of `id` out of `ids`; tells whether there was one.
pub fn remove_id(ids: &mut Vec<PlayerId>, id: PlayerId) -> (r: bool)
    ensures
        final(ids)@ == without_id(old(ids)@, id),
        r == old(ids)@.contains(id),
{
    let ghost pred = is_id(id);
    let mut i: usize = 0;
    while i < ids.len()
        invariant
            i <= ids@.len(),
            ids@ == old(ids)@,
            pred == is_id(id),
            forall|j: int| 0 <= j < i ==> ids@[j] != id,
        decreases ids@.len() - i,
    {
        if ids[i] == id {
            proof {
                lemma_first_where(ids@, pred);
                let k = first_where(ids@, pred);
                if k < i {
                    assert(ids@[k] == id);
                }
            }
            ids.remove(i);
            return true;
        }
        i = i + 1;
    }
    proof {
        lemma_first_where(ids@, pred);
        let k = first_where(ids@, pred);
        if k < ids@.len() {
            assert(ids@[k] == id);
        }
    }
    false
}

/// Adds `id` to `ids` unless it is there already.
pub fn add_id(ids: &mut Vec<PlayerId>, id: PlayerId)
    ensures
        final(ids)@ == with_id(old(ids)@, id),
{
    if !contains_id(ids, id) {
        ids.push(id);
    }
}

/// In a row of members with distinct ids, each member is found at its own place.
pub proof fn lemma_member_pos_unique(ms: Seq<MemberModel>, i: int)
    requires
        distinct_members(ms),
        0 <= i < ms.len(),
    ensures
        member_pos(ms, ms[i].player_id) == i,
{
    let id = ms[i].player_id;
    lemma_first_where(ms, |m: MemberModel| m.player_id == id);
    let k = member_pos(ms, id);
    if k < i {
        assert(ms[k].player_id == id);
    }
}

/// Removing a member keeps the ids distinct and every other member findable.
pub proof fn lemma_remove_member(ms: Seq<MemberModel>, k: int)
    requires
        distinct_members(ms),
        0 <= k < ms.len(),
    ensures
        distinct_members(ms.remove(k)),
        forall|j: int| 0 <= j < ms.len() && j != k ==> {
            &&& is_member(ms.remove(k), #[trigger] ms[j].player_id)
            &&& ms.remove(k)[member_pos(ms.remove(k), ms[j].player_id)] == ms[j]
        },
{
    let r = ms.remove(k);
    assert forall|a: int, b: int| 0 <= a < b < r.len() implies r[a].player_id != r[b].player_id by {
        let a0 = if a < k { a } else { a + 1 };
        let b0 = if b < k { b } else { b + 1 };
        assert(r[a] == ms[a0]);
        assert(r[b] == ms[b0]);
    }
    assert forall|j: int| 0 <= j < ms.len() && j != k implies {
        &&& is_member(r, #[trigger] ms[j].player_id)
        &&& r[member_pos(r, ms[j].player_id)] == ms[j]
    } by {
        let j2 = if j < k { j } else { j - 1 };
        assert(r[j2] == ms[j]);
        lemma_member_pos_unique(r, j2);
    }
}

/// Changing a member's other fields keeps the ids distinct and every
/// member findable at its place.
pub proof fn lemma_update_member(ms: Seq<MemberModel>, k: int, m: MemberModel)
    requires
        distinct_members(ms),
        0 <= k < ms.len(),
        m.player_id == ms[k].player_id,
    ensures
        distinct_members(ms.update(k, m)),
        forall|j: int| 0 <= j < ms.len() ==> member_pos(ms.update(k, m), #[trigger] ms[j].player_id) == j,
{
    let r = ms.update(k, m);
    assert forall|a: int, b: int| 0 <= a < b < r.len() implies r[a].player_id != r[b].player_id by {
        assert(r[a].player_id == ms[a].player_id);
        assert(r[b].player_id == ms[b].player_id);
    }
    assert forall|j: int| 0 <= j < ms.len() implies member_pos(r, #[trigger] ms[j].player_id) == j by {
        assert(r[j].player_id == ms[j].player_id);
        lemma_member_pos_unique(r, j);
    }
}

} // verus!
