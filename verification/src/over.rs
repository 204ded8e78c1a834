//! After a game: the result stands, players may come and go, and when both
//! players of the last game ask for it, a rematch starts.
use vstd::prelude::*;

use crate::full_state::build_full_state;
use crate::ids::{GameId, PlayerId, PlayerIdx, Seconds, Seed};
use crate::lobby::{claim_boards, claimed, fresh_game, new_started_game, set_connected};
use crate::outside::random_seed;
use crate::playing::{own_full_state, playing_wf, PlayingModel, PlayingPhase};
use crate::protocol::{ErrorCode, EventModel, ServerEvent};
use crate::room::{
    add_id, contains_id, distinct_members, distinct_participants, effects_model, find_member, find_participant,
    find_seat_holder, first_where, is_member, lemma_first_where, lemma_member_pos_unique, lemma_remove_member,
    lemma_update_member, member_pos, members_model, participant_pos, remove_id, seat_holder_pos, with_id, without_id,
    EffectModel, InputModel, MemberModel, Participant, RoomEffect, RoomInput, RoomMember, DISCONNECT_GRACE_SECONDS,
    UNSEATED,
};
use crate::room_events::push_effect;
use crate::state::GameState;

verus! {

/// The room after a game.
#[derive(Debug)]
pub struct OverPhase {
    pub game_id: GameId,
    pub turn_seconds: Seconds,
    pub winner_id: PlayerId,
    pub winner_idx: PlayerIdx,
    pub reason: String,
    /// The players of the finished game; kept across disconnections.
    pub participants: Vec<Participant>,
    /// The players who asked for a rematch.
    pub play_again: Vec<PlayerId>,
    /// The players whose grace period is running.
    pub pending_disconnects: Vec<PlayerId>,
}

/// The over phase as plain values.
pub struct OverModel {
    pub game_id: Seq<char>,
    pub turn_seconds: Seconds,
    pub winner_id: PlayerId,
    pub winner_idx: PlayerIdx,
    pub reason: Seq<char>,
    pub participants: Seq<Participant>,
    pub play_again: Seq<PlayerId>,
    pub pending: Seq<PlayerId>,
}

impl OverPhase {
    pub open spec fn model(&self) -> OverModel {
        OverModel {
            game_id: self.game_id.0@,
            turn_seconds: self.turn_seconds,
            winner_id: self.winner_id,
            winner_idx: self.winner_idx,
            reason: self.reason@,
            participants: self.participants@,
            play_again: self.play_again@,
            pending: self.pending_disconnects@,
        }
    }
}

/// The result, told to every member in turn.
pub open spec fn result_effects(ms: Seq<MemberModel>, winner_id: PlayerId, winner_idx: PlayerIdx, reason: Seq<char>) -> Seq<EffectModel> {
    ms.map_values(|m: MemberModel| EffectModel::SendTo(m.player_id, EventModel::GameOver { winner_id, winner_idx, reason }))
}

/// The over phase that a finished game leads to.
pub open spec fn over_model(
    game_id: Seq<char>,
    participants: Seq<Participant>,
    turn_seconds: Seconds,
    winner_id: PlayerId,
    winner_idx: PlayerIdx,
    reason: Seq<char>,
) -> OverModel {
    OverModel {
        game_id,
        turn_seconds,
        winner_id,
        winner_idx,
        reason,
        participants,
        play_again: Seq::empty(),
        pending: Seq::empty(),
    }
}

pub open spec fn over_text() -> Seq<char> {
    "Game is already over"@
}

/// The members fit the over phase: distinct ids, distinct participants,
/// and every seated participant who is a member sits at the same seat.
pub open spec fn over_wf(o: OverModel, ms: Seq<MemberModel>) -> bool {
    &&& distinct_members(ms)
    &&& distinct_participants(o.participants)
    &&& forall|i: int| 0 <= i < o.participants.len() && is_member(ms, (#[trigger] o.participants[i]).player_id)
        ==> ms[member_pos(ms, o.participants[i].player_id)].player_idx == o.participants[i].player_idx
}

/// The participants without the first one whose id is `id`.
pub open spec fn without_participant(ps: Seq<Participant>, id: PlayerId) -> Seq<Participant> {
    let k = participant_pos(ps, id);
    if k < ps.len() { ps.remove(k) } else { ps }
}

/// The members without the first one whose id is `id`.
pub open spec fn without_member(ms: Seq<MemberModel>, id: PlayerId) -> Seq<MemberModel> {
    let k = member_pos(ms, id);
    if k < ms.len() { ms.remove(k) } else { ms }
}

/// Every participant is a member.
pub open spec fn all_present(ps: Seq<Participant>, ms: Seq<MemberModel>) -> bool {
    forall|i: int| 0 <= i < ps.len() ==> is_member(ms, (#[trigger] ps[i]).player_id)
}

/// Every participant asked for a rematch.
pub open spec fn all_agreed(ps: Seq<Participant>, pa: Seq<PlayerId>) -> bool {
    forall|i: int| 0 <= i < ps.len() ==> pa.contains((#[trigger] ps[i]).player_id)
}

/// Whether `id` asking to play again starts the rematch.
pub open spec fn rematch_starts(o: OverModel, ms: Seq<MemberModel>, id: PlayerId) -> bool {
    let ps = o.participants;
    &&& participant_pos(ps, id) < ps.len()
    &&& is_member(ms, id)
    &&& ps.len() >= 2
    &&& all_present(ps, ms)
    &&& all_agreed(ps, with_id(o.play_again, id))
}

/// The full state of the new game, for the first `n` members who took
/// part in it, each at their seat of the last game.
pub open spec fn rematch_states(ms: Seq<MemberModel>, ps: Seq<Participant>, g: GameState, n: int) -> Seq<EffectModel>
    decreases n,
{
    if n <= 0 {
        Seq::empty()
    } else {
        let prev = rematch_states(ms, ps, g, n - 1);
        let id = ms[n - 1].player_id;
        let q = participant_pos(ps, id);
        if q < ps.len() { prev + own_full_state(g, id, ps[q].player_idx) } else { prev }
    }
}

/// The rematch starts: a fresh game from a random seed with each board
/// claimed by its participant, the room now playing with the same
/// participants, and the opening messages sent.
pub open spec fn rematch_started(o: OverModel, ms: Seq<MemberModel>, p2: PlayingModel, g2: GameState, es: Seq<EffectModel>) -> bool {
    let ps = o.participants;
    let starter = ps[seat_holder_pos(ps, g2@.current_turn)].player_id;
    &&& exists|g0: GameState, seed: Seed| fresh_game(g0, o.game_id, seed, o.turn_seconds) && claimed(g0, ps, g2)
    &&& p2 == (PlayingModel {
        game_id: o.game_id,
        turn_seconds: o.turn_seconds,
        current_player: g2@.current_turn,
        participants: ps,
        pending: Seq::empty(),
    })
    &&& es == rematch_states(ms, ps, g2, ms.len() as int) + seq![
        EffectModel::Broadcast(EventModel::GameStarted {
            current_player_id: starter,
            current_player_idx: g2@.current_turn,
            turn_seconds: o.turn_seconds,
        }),
        EffectModel::StartTurnTimer { player_id: starter, seconds: o.turn_seconds },
        EffectModel::RestartTurnClock,
    ]
}

/// The full state of `g` for `id` at `idx`, if there is a game.
pub open spec fn maybe_full_state(g: Option<GameState>, id: PlayerId, idx: PlayerIdx) -> Seq<EffectModel> {
    match g {
        Some(gs) => own_full_state(gs, id, idx),
        None => Seq::empty(),
    }
}

/// What the room does with `input` after a game: the phase and members
/// after it (`o2`, `ms2`), what it asks its caller to do (`es`), and
/// whether a rematch started (`next`, with the new phase and game).
pub open spec fn over_handled(
    o: OverModel,
    ms: Seq<MemberModel>,
    g: Option<GameState>,
    input: InputModel,
    o2: OverModel,
    ms2: Seq<MemberModel>,
    es: Seq<EffectModel>,
    next: Option<(PlayingModel, GameState)>,
) -> bool {
    let ps = o.participants;
    let result = EventModel::GameOver { winner_id: o.winner_id, winner_idx: o.winner_idx, reason: o.reason };
    let quiet = o2 == o && ms2 == ms && es == Seq::<EffectModel>::empty() && next is None;
    match input {
        InputModel::SubscribePlayer { player_id } => {
            let q = participant_pos(ps, player_id);
            if q >= ps.len() {
                quiet
            } else {
                let idx = ps[q].player_idx;
                let m = MemberModel { player_id, username: Seq::empty(), player_idx: idx, connected: true };
                let k = member_pos(ms, player_id);
                &&& o2 == o && next is None
                &&& ms2 == (if k < ms.len() { ms.update(k, m) } else { ms.push(m) })
                &&& es == maybe_full_state(g, player_id, idx) + seq![
                    EffectModel::SendTo(player_id, result),
                    EffectModel::Broadcast(EventModel::PlayerReconnected { player_id, player_idx: idx, turn_seconds_remaining: Seconds(0) }),
                ]
            }
        },
        InputModel::UnsubscribePlayer { player_id } => {
            let k = member_pos(ms, player_id);
            &&& o2 == o && next is None && es == Seq::<EffectModel>::empty()
            &&& ms2 == (if k < ms.len() && ms[k].player_idx.0 == UNSEATED { ms.remove(k) } else { ms })
        },
        InputModel::NetworkDisconnect { player_id } => {
            let k = member_pos(ms, player_id);
            if k >= ms.len() {
                quiet
            } else {
                &&& ms2 == set_connected(ms, k, false) && next is None
                &&& o2 == OverModel { pending: with_id(o.pending, player_id), ..o }
                &&& es == seq![
                    EffectModel::Broadcast(EventModel::PlayerDisconnected {
                        player_id,
                        player_idx: ms[k].player_idx,
                        grace_period_seconds: DISCONNECT_GRACE_SECONDS,
                    }),
                    EffectModel::ScheduleDisconnectTimeout { player_id },
                ]
            }
        },
        InputModel::PlayerReconnected { player_id } => {
            let abort = if o.pending.contains(player_id) {
                seq![EffectModel::AbortDisconnectTimeout { player_id }]
            } else {
                Seq::empty()
            };
            let k = member_pos(ms, player_id);
            &&& o2 == OverModel { pending: without_id(o.pending, player_id), ..o }
            &&& next is None
            &&& if k >= ms.len() {
                ms2 == ms && es == abort
            } else {
                let idx = ms[k].player_idx;
                &&& ms2 == set_connected(ms, k, true)
                &&& es == abort + maybe_full_state(g, player_id, idx) + seq![
                    EffectModel::SendTo(player_id, result),
                    EffectModel::Broadcast(EventModel::PlayerReconnected { player_id, player_idx: idx, turn_seconds_remaining: Seconds(0) }),
                ]
            }
        },
        InputModel::PlayerLeft { player_id } => {
            let abort = if o.pending.contains(player_id) {
                seq![EffectModel::AbortDisconnectTimeout { player_id }]
            } else {
                Seq::empty()
            };
            let q = participant_pos(ps, player_id);
            let idx = if q < ps.len() { ps[q].player_idx } else { PlayerIdx(UNSEATED) };
            let ms3 = without_member(ms, player_id);
            &&& ms2 == ms3 && next is None
            &&& o2 == OverModel {
                pending: without_id(o.pending, player_id),
                play_again: without_id(o.play_again, player_id),
                participants: without_participant(ps, player_id),
                ..o
            }
            &&& es == abort + if ms3.len() == 0 {
                seq![EffectModel::Shutdown]
            } else {
                seq![EffectModel::Broadcast(EventModel::PlayerLeft { player_id, player_idx: idx })]
            }
        },
        InputModel::DisconnectTimeout { player_id } => {
            let k = member_pos(ms, player_id);
            let q = participant_pos(ps, player_id);
            let idx = if q < ps.len() { ps[q].player_idx } else { PlayerIdx(UNSEATED) };
            let ms3 = ms.remove(k);
            &&& next is None
            &&& if k >= ms.len() || ms[k].connected {
                &&& ms2 == ms && es == Seq::<EffectModel>::empty()
                &&& o2 == OverModel { pending: without_id(o.pending, player_id), ..o }
            } else {
                &&& ms2 == ms3
                &&& o2 == OverModel {
                    pending: without_id(o.pending, player_id),
                    play_again: without_id(o.play_again, player_id),
                    participants: without_participant(ps, player_id),
                    ..o
                }
                &&& es == if ms3.len() == 0 {
                    seq![EffectModel::Shutdown]
                } else {
                    seq![EffectModel::Broadcast(EventModel::PlayerLeft { player_id, player_idx: idx })]
                }
            }
        },
        InputModel::PlayAgain { player_id } => {
            if participant_pos(ps, player_id) >= ps.len() || !is_member(ms, player_id) || ps.len() < 2 {
                quiet
            } else {
                let told = if !o.play_again.contains(player_id) {
                    seq![EffectModel::Broadcast(EventModel::PlayAgainRequested { player_id })]
                } else {
                    Seq::empty()
                };
                &&& ms2 == ms
                &&& if rematch_starts(o, ms, player_id) {
                    next matches Some((p2, g2)) && {
                        let rest = es.subrange(told.len() as int, es.len() as int);
                        &&& es.subrange(0, told.len() as int) == told
                        &&& told.len() <= es.len()
                        &&& rematch_started(o, ms, p2, g2, rest)
                    }
                } else {
                    &&& next is None
                    &&& o2 == OverModel { play_again: with_id(o.play_again, player_id), ..o }
                    &&& es == told
                }
            }
        },
        InputModel::PlayerAction { player_id, .. } => {
            &&& o2 == o && ms2 == ms && next is None
            &&& es == seq![EffectModel::SendTo(player_id, EventModel::Error {
                code: ErrorCode::GameOver,
                message: Some(over_text()),
                details: None,
            })]
        },
        InputModel::IsPlayerKnown { player_id } => {
            &&& o2 == o && ms2 == ms && next is None
            &&& es == seq![EffectModel::ReplyKnown(participant_pos(ps, player_id) < ps.len())]
        },
        _ => quiet,
    }
}

/// A rematch may start only with both seats held: asking to play again
/// that would start one requires a participant at seat 0 and one at seat 1.
pub open spec fn rematch_seats_held(o: OverModel, ms: Seq<MemberModel>, input: InputModel) -> bool {
    input matches InputModel::PlayAgain { player_id } && rematch_starts(o, ms, player_id) ==> {
        &&& seat_holder_pos(o.participants, PlayerIdx(0)) < o.participants.len()
        &&& seat_holder_pos(o.participants, PlayerIdx(1)) < o.participants.len()
    }
}

impl OverPhase {
    /// The phase after a game won by `winner_id` (seat `winner_idx`) for
    /// `reason`, with the result told to every member.
    pub fn new(
        game_id: GameId,
        members: &Vec<RoomMember>,
        participants: Vec<Participant>,
        turn_seconds: Seconds,
        winner_id: PlayerId,
        winner_idx: PlayerIdx,
        reason: String,
    ) -> (r: (OverPhase, Vec<RoomEffect>))
        ensures
            r.0.model() == over_model(game_id.0@, participants@, turn_seconds, winner_id, winner_idx, reason@),
            effects_model(r.1@) == result_effects(members_model(members@), winner_id, winner_idx, reason@),
    {
        let ghost ms = members_model(members@);
        let mut effects: Vec<RoomEffect> = Vec::with_capacity(members.len());
        let mut i: usize = 0;
        while i < members.len()
            invariant
                i <= members@.len(),
                ms == members_model(members@),
                effects_model(effects@) == result_effects(ms, winner_id, winner_idx, reason@).subrange(0, i as int),
            decreases members@.len() - i,
        {
            proof {
                assert(ms[i as int] == members@[i as int].model());
            }
            push_effect(&mut effects, RoomEffect::SendTo(members[i].player_id, ServerEvent::GameOver {
                winner_id,
                winner_idx,
                reason: reason.clone(),
            }));
            i = i + 1;
            proof {
                assert(effects_model(effects@) =~= result_effects(ms, winner_id, winner_idx, reason@).subrange(0, i as int));
            }
        }
        proof {
            assert(effects_model(effects@) =~= result_effects(ms, winner_id, winner_idx, reason@));
        }
        let phase = OverPhase {
            game_id,
            turn_seconds,
            winner_id,
            winner_idx,
            reason,
            participants,
            play_again: Vec::new(),
            pending_disconnects: Vec::new(),
        };
        proof {
            assert(phase.model().play_again =~= Seq::<PlayerId>::empty());
            assert(phase.model().pending =~= Seq::<PlayerId>::empty());
        }
        (phase, effects)
    }
}

/// Changing a member's connection keeps the over phase well formed.
proof fn lemma_over_wf_connected(o: OverModel, ms: Seq<MemberModel>, k: int, c: bool)
    requires
        over_wf(o, ms),
        0 <= k < ms.len(),
    ensures
        over_wf(o, set_connected(ms, k, c)),
{
    let ms2 = set_connected(ms, k, c);
    lemma_update_member(ms, k, MemberModel { connected: c, ..ms[k] });
    let ps = o.participants;
    assert forall|i: int| 0 <= i < ps.len() && is_member(ms2, (#[trigger] ps[i]).player_id) implies
        ms2[member_pos(ms2, ps[i].player_id)].player_idx == ps[i].player_idx by {
        lemma_first_where(ms2, |x: MemberModel| x.player_id == ps[i].player_id);
        let j = member_pos(ms2, ps[i].player_id);
        assert(ms[j].player_id == ps[i].player_id);
        lemma_member_pos_unique(ms, j);
    }
}

/// Appends `more` to `effects`.
fn append_all(effects: &mut Vec<RoomEffect>, more: Vec<RoomEffect>)
    ensures
        effects_model(final(effects)@) == effects_model(old(effects)@) + effects_model(more@),
{
    let mut more = more;
    proof {
        assert(effects_model(effects@ + more@) =~= effects_model(effects@) + effects_model(more@));
    }
    effects.append(&mut more);
}

/// Appends the full state of `g` for `id` at `idx`, if there is a game.
fn push_full_state(effects: &mut Vec<RoomEffect>, g: &Option<GameState>, id: PlayerId, idx: PlayerIdx)
    ensures
        effects_model(final(effects)@) == effects_model(old(effects)@) + maybe_full_state(*g, id, idx),
{
    match g {
        Some(gs) => {
            match build_full_state(gs, id, idx, "Opponent".to_string()) {
                Some(e) => {
                    push_effect(effects, RoomEffect::SendTo(id, e));
                },
                None => {},
            }
        },
        None => {},
    }
    proof {
        assert(effects_model(effects@) =~= effects_model(old(effects)@) + maybe_full_state(*g, id, idx));
    }
}

impl OverPhase {
    /// The result of the last game.
    fn result_event(&self) -> (r: ServerEvent)
        ensures
            r.model() == (EventModel::GameOver { winner_id: self.winner_id, winner_idx: self.winner_idx, reason: self.reason@ }),
    {
        ServerEvent::GameOver { winner_id: self.winner_id, winner_idx: self.winner_idx, reason: self.reason.clone() }
    }

    /// Takes the first participant `id` out.
    fn remove_participant(&mut self, id: PlayerId)
        ensures
            final(self).participants@ == without_participant(old(self).participants@, id),
            final(self).game_id == old(self).game_id,
            final(self).turn_seconds == old(self).turn_seconds,
            final(self).winner_id == old(self).winner_id,
            final(self).winner_idx == old(self).winner_idx,
            final(self).reason == old(self).reason,
            final(self).play_again == old(self).play_again,
            final(self).pending_disconnects == old(self).pending_disconnects,
    {
        match find_participant(&self.participants, id) {
            Some(k) => {
                self.participants.remove(k);
            },
            None => {},
        }
    }

    /// Whether every participant asked for a rematch, counting `id` as asking.
    fn everyone_asked_with(&self, id: PlayerId) -> (r: bool)
        ensures
            r == all_agreed(self.participants@, with_id(self.play_again@, id)),
    {
        let ghost pa = with_id(self.play_again@, id);
        let mut i: usize = 0;
        while i < self.participants.len()
            invariant
                i <= self.participants@.len(),
                pa == with_id(self.play_again@, id),
                forall|j: int| 0 <= j < i ==> pa.contains((#[trigger] self.participants@[j]).player_id),
            decreases self.participants@.len() - i,
        {
            let q = self.participants[i].player_id;
            if q != id && !contains_id(&self.play_again, q) {
                proof {
                    if pa.contains(q) {
                        let k = choose|k: int| 0 <= k < pa.len() && pa[k] == q;
                        if !self.play_again@.contains(id) && k == self.play_again@.len() {
                            assert(pa[k] == id);
                        } else {
                            assert(self.play_again@[k] == q);
                        }
                    }
                }
                return false;
            }
            proof {
                if q == id {
                    if self.play_again@.contains(id) {
                    } else {
                        assert(pa[self.play_again@.len() as int] == id);
                    }
                } else {
                    let k = choose|k: int| 0 <= k < self.play_again@.len() && self.play_again@[k] == q;
                    assert(pa[k] == q);
                }
            }
            i = i + 1;
        }
        true
    }

    /// Whether the room can take `input` now: a request to play again that
    /// would start the rematch needs a participant at each seat.
    pub fn can_take(&self, members: &Vec<RoomMember>, input: &RoomInput) -> (r: bool)
        ensures
            r == rematch_seats_held(self.model(), members_model(members@), input.model()),
    {
        match input {
            RoomInput::PlayAgain { player_id } => {
                let id = *player_id;
                let starts = find_participant(&self.participants, id).is_some()
                    && find_member(members, id).is_some()
                    && self.participants.len() >= 2
                    && self.everyone_present(members)
                    && self.everyone_asked_with(id);
                if starts {
                    find_seat_holder(&self.participants, PlayerIdx(0)).is_some()
                        && find_seat_holder(&self.participants, PlayerIdx(1)).is_some()
                } else {
                    true
                }
            },
            _ => true,
        }
    }

    /// Whether every participant is a member of the room.
    fn everyone_present(&self, members: &Vec<RoomMember>) -> (r: bool)
        ensures
            r == all_present(self.participants@, members_model(members@)),
    {
        let ghost ms = members_model(members@);
        let mut i: usize = 0;
        while i < self.participants.len()
            invariant
                i <= self.participants@.len(),
                ms == members_model(members@),
                forall|j: int| 0 <= j < i ==> is_member(ms, (#[trigger] self.participants@[j]).player_id),
            decreases self.participants@.len() - i,
        {
            if find_member(members, self.participants[i].player_id).is_none() {
                return false;
            }
            i = i + 1;
        }
        true
    }

    /// Whether every participant is a member and asked for a rematch.
    fn everyone_agrees(&self, members: &Vec<RoomMember>) -> (r: bool)
        ensures
            r == (all_present(self.participants@, members_model(members@)) && all_agreed(self.participants@, self.play_again@)),
    {
        let ghost ms = members_model(members@);
        let mut i: usize = 0;
        while i < self.participants.len()
            invariant
                i <= self.participants@.len(),
                ms == members_model(members@),
                forall|j: int| 0 <= j < i ==> is_member(ms, (#[trigger] self.participants@[j]).player_id),
                forall|j: int| 0 <= j < i ==> self.play_again@.contains((#[trigger] self.participants@[j]).player_id),
            decreases self.participants@.len() - i,
        {
            let id = self.participants[i].player_id;
            match find_member(members, id) {
                Some(_) => {},
                None => {
                    proof {
                        assert(!is_member(ms, self.participants@[i as int].player_id));
                    }
                    return false;
                },
            }
            if !contains_id(&self.play_again, id) {
                proof {
                    assert(!self.play_again@.contains(self.participants@[i as int].player_id));
                }
                return false;
            }
            i = i + 1;
        }
        true
    }

    /// The rematch: a fresh game from a random seed, boards claimed by the
    /// participants, the full state to each member who took part, the
    /// announcement of the first player and their turn timer.
    fn start_rematch(&mut self, members: &Vec<RoomMember>) -> (r: (Vec<RoomEffect>, PlayingPhase, GameState))
        requires
            over_wf(old(self).model(), members_model(members@)),
            all_present(old(self).participants@, members_model(members@)),
            seat_holder_pos(old(self).participants@, PlayerIdx(0)) < old(self).participants@.len(),
            seat_holder_pos(old(self).participants@, PlayerIdx(1)) < old(self).participants@.len(),
        ensures
            rematch_started(old(self).model(), members_model(members@), r.1.model(), r.2, effects_model(r.0@)),
            playing_wf(r.1.model(), members_model(members@), r.2),
    {
        let ghost ms = members_model(members@);
        let ghost o0 = self.model();
        let seed = Seed(random_seed());
        let mut g = new_started_game(self.game_id.clone(), seed, self.turn_seconds);
        let ghost g0 = g;
        let mut owners: Vec<Participant> = Vec::with_capacity(self.participants.len());
        let mut j: usize = 0;
        while j < self.participants.len()
            invariant
                j <= self.participants@.len(),
                owners@ == self.participants@.subrange(0, j as int),
            decreases self.participants@.len() - j,
        {
            owners.push(self.participants[j]);
            j = j + 1;
            proof {
                assert(owners@ =~= self.participants@.subrange(0, j as int));
            }
        }
        proof {
            assert(owners@ =~= self.participants@);
        }
        claim_boards(&mut g, &owners);
        proof {
            crate::lobby::lemma_with_owners_seats(g0@.players, owners@, owners@.len() as int);
            lemma_first_where(owners@, |q: Participant| q.player_idx == PlayerIdx(0));
            lemma_first_where(owners@, |q: Participant| q.player_idx == PlayerIdx(1));
        }
        let starter_idx = g.current_turn;
        let sh = match find_seat_holder(&owners, starter_idx) {
            Some(sh) => sh,
            None => {
                proof {
                    assert(false);
                }
                0
            },
        };
        let starter_id = owners[sh].player_id;
        let mut effects: Vec<RoomEffect> = Vec::new();
        let mut i: usize = 0;
        proof {
            assert(effects_model(effects@) =~= rematch_states(ms, o0.participants, g, 0));
        }
        while i < members.len()
            invariant
                i <= members@.len(),
                ms == members_model(members@),
                owners@ == o0.participants,
                effects_model(effects@) == rematch_states(ms, o0.participants, g, i as int),
            decreases members@.len() - i,
        {
            let id = members[i].player_id;
            proof {
                assert(ms[i as int] == members@[i as int].model());
            }
            match find_participant(&owners, id) {
                Some(q) => {
                    let idx = owners[q].player_idx;
                    let ghost before = effects_model(effects@);
                    match build_full_state(&g, id, idx, "Opponent".to_string()) {
                        Some(e) => {
                            push_effect(&mut effects, RoomEffect::SendTo(id, e));
                        },
                        None => {},
                    }
                    proof {
                        assert(effects_model(effects@) =~= before + own_full_state(g, id, idx));
                    }
                },
                None => {},
            }
            i = i + 1;
        }
        push_effect(&mut effects, RoomEffect::Broadcast(ServerEvent::GameStarted {
            current_player_id: starter_id,
            current_player_idx: starter_idx,
            turn_seconds: self.turn_seconds,
        }));
        push_effect(&mut effects, RoomEffect::StartTurnTimer { player_id: starter_id, seconds: self.turn_seconds });
        push_effect(&mut effects, RoomEffect::RestartTurnClock);
        proof {
            let ps = o0.participants;
            assert(effects_model(effects@) =~= rematch_states(ms, ps, g, ms.len() as int) + seq![
                EffectModel::Broadcast(EventModel::GameStarted {
                    current_player_id: starter_id,
                    current_player_idx: g@.current_turn,
                    turn_seconds: o0.turn_seconds,
                }),
                EffectModel::StartTurnTimer { player_id: starter_id, seconds: o0.turn_seconds },
                EffectModel::RestartTurnClock,
            ]);
        }
        self.play_again = Vec::new();
        self.pending_disconnects = Vec::new();
        let phase = PlayingPhase {
            game_id: self.game_id.clone(),
            turn_seconds: self.turn_seconds,
            current_player: starter_idx,
            participants: owners,
            pending_disconnects: Vec::new(),
        };
        proof {
            assert(phase.model().pending =~= Seq::<PlayerId>::empty());
            assert(fresh_game(g0, o0.game_id, seed, o0.turn_seconds) && claimed(g0, o0.participants, g));
            let ps = o0.participants;
            assert forall|k: int| 0 <= k < ps.len() && (#[trigger] ps[k]).player_idx.0 < 2 implies {
                &&& is_member(ms, ps[k].player_id)
                &&& ms[member_pos(ms, ps[k].player_id)].player_idx == ps[k].player_idx
            } by {}
        }
        (effects, phase, g)
    }

    /// What the room does with `input` after a game (see `over_handled`).
    /// Returns what to do and, when a rematch starts, the new phase and game.
    #[verifier::rlimit(80)]
    pub fn handle_command(&mut self, members: &mut Vec<RoomMember>, state: &Option<GameState>, input: RoomInput)
        -> (r: (Vec<RoomEffect>, Option<(PlayingPhase, GameState)>))
        requires
            over_wf(old(self).model(), members_model(old(members)@)),
            rematch_seats_held(old(self).model(), members_model(old(members)@), input.model()),
        ensures
            over_handled(
                old(self).model(),
                members_model(old(members)@),
                *state,
                input.model(),
                final(self).model(),
                members_model(final(members)@),
                effects_model(r.0@),
                match r.1 {
                    Some((p, g)) => Some((p.model(), g)),
                    None => None,
                },
            ),
            r.1 is None ==> over_wf(final(self).model(), members_model(final(members)@)),
            r.1 matches Some((p, g)) ==> playing_wf(p.model(), members_model(final(members)@), g),
    {
        let ghost ms = members_model(members@);
        let ghost o0 = self.model();
        let mut effects: Vec<RoomEffect> = Vec::new();
        proof {
            assert(effects_model(effects@) =~= Seq::<EffectModel>::empty());
        }
        match input {
            RoomInput::SubscribePlayer { player_id } => {
                let q = match find_participant(&self.participants, player_id) {
                    Some(q) => q,
                    None => {
                        return (effects, None);
                    },
                };
                let idx = self.participants[q].player_idx;
                let m = RoomMember { player_id, username: String::new(), player_idx: idx, connected: true };
                let ghost mm = m.model();
                match find_member(members, player_id) {
                    Some(k) => {
                        proof {
                            assert(ms[k as int] == members@[k as int].model());
                            lemma_first_where(ms, |x: MemberModel| x.player_id == player_id);
                            lemma_update_member(ms, k as int, mm);
                        }
                        members.set(k, m);
                        proof {
                            assert(members_model(members@) =~= ms.update(k as int, mm));
                        }
                    },
                    None => {
                        members.push(m);
                        proof {
                            assert(members_model(members@) =~= ms.push(mm));
                            lemma_first_where(ms, |x: MemberModel| x.player_id == player_id);
                            let ms2 = ms.push(mm);
                            assert forall|a: int, b: int| 0 <= a < b < ms2.len() implies ms2[a].player_id != ms2[b].player_id by {
                                if b == ms.len() {
                                    assert(ms[a].player_id != player_id);
                                } else {
                                    assert(ms2[a] == ms[a] && ms2[b] == ms[b]);
                                }
                            }
                            lemma_member_pos_unique(ms2, ms.len() as int);
                            assert forall|i: int| 0 <= i < ms.len() implies member_pos(ms2, (#[trigger] ms[i]).player_id) == i by {
                                assert(ms2[i] == ms[i]);
                                lemma_member_pos_unique(ms2, i);
                            }
                        }
                    },
                }
                push_full_state(&mut effects, state, player_id, idx);
                push_effect(&mut effects, RoomEffect::SendTo(player_id, self.result_event()));
                push_effect(&mut effects, RoomEffect::Broadcast(ServerEvent::PlayerReconnected {
                    player_id,
                    player_idx: idx,
                    turn_seconds_remaining: Seconds(0),
                }));
                proof {
                    let result = EventModel::GameOver { winner_id: o0.winner_id, winner_idx: o0.winner_idx, reason: o0.reason };
                    assert(effects_model(effects@) =~= maybe_full_state(*state, player_id, idx) + seq![
                        EffectModel::SendTo(player_id, result),
                        EffectModel::Broadcast(EventModel::PlayerReconnected { player_id, player_idx: idx, turn_seconds_remaining: Seconds(0) }),
                    ]);
                    let ps = o0.participants;
                    let ms2 = members_model(members@);
                    assert forall|i: int| 0 <= i < ps.len() && is_member(ms2, (#[trigger] ps[i]).player_id) implies
                        ms2[member_pos(ms2, ps[i].player_id)].player_idx == ps[i].player_idx by {
                        if ps[i].player_id == player_id {
                            lemma_first_where(ps, |x: Participant| x.player_id == player_id);
                            if i != q {
                                if i < q {
                                    assert(ps[i].player_id != ps[q as int].player_id);
                                } else {
                                    assert(ps[q as int].player_id != ps[i].player_id);
                                }
                            }
                        } else {
                            lemma_first_where(ms, |x: MemberModel| x.player_id == ps[i].player_id);
                            lemma_first_where(ms2, |x: MemberModel| x.player_id == ps[i].player_id);
                            let k2 = member_pos(ms2, ps[i].player_id);
                            if k2 < ms.len() {
                                assert(is_member(ms, ps[i].player_id));
                            }
                        }
                    }
                }
                (effects, None)
            },
            RoomInput::UnsubscribePlayer { player_id } => {
                match find_member(members, player_id) {
                    Some(k) => {
                        proof {
                            assert(ms[k as int] == members@[k as int].model());
                        }
                        if members[k].player_idx.as_usize() == UNSEATED {
                            members.remove(k);
                            proof {
                                assert(members_model(members@) =~= ms.remove(k as int));
                                lemma_remove_member(ms, k as int);
                                let ms2 = ms.remove(k as int);
                                let ps = o0.participants;
                                assert forall|i: int| 0 <= i < ps.len() && is_member(ms2, (#[trigger] ps[i]).player_id) implies
                                    ms2[member_pos(ms2, ps[i].player_id)].player_idx == ps[i].player_idx by {
                                    lemma_first_where(ms2, |x: MemberModel| x.player_id == ps[i].player_id);
                                    let k2 = member_pos(ms2, ps[i].player_id);
                                    let k0 = if k2 < k { k2 } else { k2 + 1 };
                                    assert(ms2[k2] == ms[k0]);
                                    lemma_member_pos_unique(ms, k0);
                                }
                            }
                        }
                    },
                    None => {},
                }
                (effects, None)
            },
            RoomInput::NetworkDisconnect { player_id } => {
                let k = match find_member(members, player_id) {
                    Some(k) => k,
                    None => {
                        return (effects, None);
                    },
                };
                proof {
                    assert(ms[k as int] == members@[k as int].model());
                }
                let idx = members[k].player_idx;
                members[k].connected = false;
                proof {
                    assert(members_model(members@) =~= set_connected(ms, k as int, false));
                    lemma_update_member(ms, k as int, MemberModel { connected: false, ..ms[k as int] });
                }
                push_effect(&mut effects, RoomEffect::Broadcast(ServerEvent::PlayerDisconnected {
                    player_id,
                    player_idx: idx,
                    grace_period_seconds: DISCONNECT_GRACE_SECONDS,
                }));
                push_effect(&mut effects, RoomEffect::ScheduleDisconnectTimeout { player_id });
                add_id(&mut self.pending_disconnects, player_id);
                proof {
                    assert(effects_model(effects@) =~= seq![
                        EffectModel::Broadcast(EventModel::PlayerDisconnected {
                            player_id,
                            player_idx: idx,
                            grace_period_seconds: DISCONNECT_GRACE_SECONDS,
                        }),
                        EffectModel::ScheduleDisconnectTimeout { player_id },
                    ]);
                    lemma_over_wf_connected(o0, ms, k as int, false);
                }
                (effects, None)
            },
            RoomInput::PlayerReconnected { player_id } => {
                if remove_id(&mut self.pending_disconnects, player_id) {
                    push_effect(&mut effects, RoomEffect::AbortDisconnectTimeout { player_id });
                }
                let ghost abort = effects_model(effects@);
                proof {
                    let expected = if o0.pending.contains(player_id) {
                        seq![EffectModel::AbortDisconnectTimeout { player_id }]
                    } else {
                        Seq::<EffectModel>::empty()
                    };
                    assert(abort =~= expected);
                }
                let k = match find_member(members, player_id) {
                    Some(k) => k,
                    None => {
                        return (effects, None);
                    },
                };
                proof {
                    assert(ms[k as int] == members@[k as int].model());
                }
                let idx = members[k].player_idx;
                members[k].connected = true;
                proof {
                    assert(members_model(members@) =~= set_connected(ms, k as int, true));
                    lemma_update_member(ms, k as int, MemberModel { connected: true, ..ms[k as int] });
                }
                push_full_state(&mut effects, state, player_id, idx);
                push_effect(&mut effects, RoomEffect::SendTo(player_id, self.result_event()));
                push_effect(&mut effects, RoomEffect::Broadcast(ServerEvent::PlayerReconnected {
                    player_id,
                    player_idx: idx,
                    turn_seconds_remaining: Seconds(0),
                }));
                proof {
                    let result = EventModel::GameOver { winner_id: o0.winner_id, winner_idx: o0.winner_idx, reason: o0.reason };
                    assert(effects_model(effects@) =~= abort + maybe_full_state(*state, player_id, idx) + seq![
                        EffectModel::SendTo(player_id, result),
                        EffectModel::Broadcast(EventModel::PlayerReconnected { player_id, player_idx: idx, turn_seconds_remaining: Seconds(0) }),
                    ]);
                    lemma_over_wf_connected(o0, ms, k as int, true);
                }
                (effects, None)
            },
            RoomInput::PlayerLeft { player_id } => {
                if remove_id(&mut self.pending_disconnects, player_id) {
                    push_effect(&mut effects, RoomEffect::AbortDisconnectTimeout { player_id });
                }
                proof {
                    let expected = if o0.pending.contains(player_id) {
                        seq![EffectModel::AbortDisconnectTimeout { player_id }]
                    } else {
                        Seq::<EffectModel>::empty()
                    };
                    assert(effects_model(effects@) =~= expected);
                }
                let idx = match find_participant(&self.participants, player_id) {
                    Some(q) => self.participants[q].player_idx,
                    None => PlayerIdx(UNSEATED),
                };
                self.remove_member_everywhere(members, player_id);
                proof {
                    assert(self.model() == (OverModel {
                        pending: without_id(o0.pending, player_id),
                        play_again: without_id(o0.play_again, player_id),
                        participants: without_participant(o0.participants, player_id),
                        ..o0
                    }));
                    assert(members_model(members@) == without_member(ms, player_id));
                }
                let ghost abort = effects_model(effects@);
                if members.len() == 0 {
                    push_effect(&mut effects, RoomEffect::Shutdown);
                    proof {
                        assert(effects_model(effects@) =~= abort + seq![EffectModel::Shutdown]);
                    }
                    return (effects, None);
                }
                push_effect(&mut effects, RoomEffect::Broadcast(ServerEvent::PlayerLeft { player_id, player_idx: idx }));
                proof {
                    assert(effects_model(effects@) =~= abort + seq![
                        EffectModel::Broadcast(EventModel::PlayerLeft { player_id, player_idx: idx }),
                    ]);
                }
                (effects, None)
            },
            RoomInput::DisconnectTimeout { player_id } => {
                let _ = remove_id(&mut self.pending_disconnects, player_id);
                let k = match find_member(members, player_id) {
                    Some(k) => k,
                    None => {
                        return (effects, None);
                    },
                };
                proof {
                    assert(ms[k as int] == members@[k as int].model());
                }
                if members[k].connected {
                    return (effects, None);
                }
                let idx = match find_participant(&self.participants, player_id) {
                    Some(q) => self.participants[q].player_idx,
                    None => PlayerIdx(UNSEATED),
                };
                self.remove_member_everywhere(members, player_id);
                proof {
                    assert(members_model(members@) =~= ms.remove(k as int));
                }
                if members.len() == 0 {
                    push_effect(&mut effects, RoomEffect::Shutdown);
                    proof {
                        assert(effects_model(effects@) =~= seq![EffectModel::Shutdown]);
                    }
                    return (effects, None);
                }
                push_effect(&mut effects, RoomEffect::Broadcast(ServerEvent::PlayerLeft { player_id, player_idx: idx }));
                proof {
                    assert(effects_model(effects@) =~= seq![
                        EffectModel::Broadcast(EventModel::PlayerLeft { player_id, player_idx: idx }),
                    ]);
                }
                (effects, None)
            },
            RoomInput::PlayAgain { player_id } => {
                match find_participant(&self.participants, player_id) {
                    Some(_) => {},
                    None => {
                        return (effects, None);
                    },
                }
                match find_member(members, player_id) {
                    Some(_) => {},
                    None => {
                        return (effects, None);
                    },
                }
                if self.participants.len() < 2 {
                    return (effects, None);
                }
                if !contains_id(&self.play_again, player_id) {
                    self.play_again.push(player_id);
                    push_effect(&mut effects, RoomEffect::Broadcast(ServerEvent::PlayAgainRequested { player_id }));
                }
                let ghost told = effects_model(effects@);
                proof {
                    let expected = if !o0.play_again.contains(player_id) {
                        seq![EffectModel::Broadcast(EventModel::PlayAgainRequested { player_id })]
                    } else {
                        Seq::<EffectModel>::empty()
                    };
                    assert(told =~= expected);
                    assert(self.play_again@ == with_id(o0.play_again, player_id));
                }
                if !self.everyone_agrees(members) {
                    return (effects, None);
                }
                let (more, phase, game) = self.start_rematch(members);
                append_all(&mut effects, more);
                proof {
                    let es = effects_model(effects@);
                    assert(es.subrange(0, told.len() as int) =~= told);
                    assert(es.subrange(told.len() as int, es.len() as int) =~= effects_model(more@));
                }
                (effects, Some((phase, game)))
            },
            RoomInput::PlayerAction { player_id, .. } => {
                push_effect(&mut effects, RoomEffect::SendTo(player_id, ServerEvent::Error {
                    code: ErrorCode::GameOver,
                    message: Some("Game is already over".to_string()),
                    details: None,
                }));
                proof {
                    assert(effects_model(effects@) =~= seq![EffectModel::SendTo(player_id, EventModel::Error {
                        code: ErrorCode::GameOver,
                        message: Some(over_text()),
                        details: None,
                    })]);
                }
                (effects, None)
            },
            RoomInput::IsPlayerKnown { player_id } => {
                let known = match find_participant(&self.participants, player_id) {
                    Some(_) => true,
                    None => false,
                };
                push_effect(&mut effects, RoomEffect::ReplyKnown(known));
                proof {
                    assert(effects_model(effects@) =~= seq![EffectModel::ReplyKnown(known)]);
                }
                (effects, None)
            },
            _ => (effects, None),
        }
    }

    /// Takes `id` out of the members, the rematch requests and the participants.
    fn remove_member_everywhere(&mut self, members: &mut Vec<RoomMember>, id: PlayerId)
        requires
            over_wf(old(self).model(), members_model(old(members)@)),
        ensures
            members_model(final(members)@) == without_member(members_model(old(members)@), id),
            final(self).model() == (OverModel {
                play_again: without_id(old(self).model().play_again, id),
                participants: without_participant(old(self).model().participants, id),
                ..old(self).model()
            }),
            over_wf(final(self).model(), members_model(final(members)@)),
    {
        let ghost ms = members_model(members@);
        let ghost ps = self.participants@;
        match find_member(members, id) {
            Some(k) => {
                members.remove(k);
                proof {
                    assert(members_model(members@) =~= ms.remove(k as int));
                    lemma_remove_member(ms, k as int);
                }
            },
            None => {},
        }
        let _ = remove_id(&mut self.play_again, id);
        self.remove_participant(id);
        proof {
            let ms2 = members_model(members@);
            let ps2 = self.participants@;
            lemma_first_where(ps, |x: Participant| x.player_id == id);
            let q = participant_pos(ps, id);
            assert(distinct_participants(ps2)) by {
                if q < ps.len() {
                    assert forall|a: int, b: int| 0 <= a < b < ps2.len() implies ps2[a].player_id != ps2[b].player_id by {
                        let a0 = if a < q { a } else { a + 1 };
                        let b0 = if b < q { b } else { b + 1 };
                        assert(ps2[a] == ps[a0] && ps2[b] == ps[b0]);
                    }
                }
            }
            assert forall|i: int| 0 <= i < ps2.len() && is_member(ms2, (#[trigger] ps2[i]).player_id) implies
                ms2[member_pos(ms2, ps2[i].player_id)].player_idx == ps2[i].player_idx by {
                let i0 = if q < ps.len() && i >= q { i + 1 } else { i };
                assert(ps2[i] == ps[i0]);
                let k = member_pos(ms, id);
                lemma_first_where(ms, |x: MemberModel| x.player_id == id);
                lemma_first_where(ms2, |x: MemberModel| x.player_id == ps2[i].player_id);
                let k2 = member_pos(ms2, ps2[i].player_id);
                if k < ms.len() {
                    let k0 = if k2 < k { k2 } else { k2 + 1 };
                    assert(ms2[k2] == ms[k0]);
                    lemma_member_pos_unique(ms, k0);
                } else {
                    lemma_member_pos_unique(ms, k2);
                }
            }
        }
    }
}

} // verus!
