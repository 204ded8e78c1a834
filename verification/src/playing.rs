//! A game in progress: moves, turn timers, disconnections and departures.
use vstd::prelude::*;

use crate::actions::{action_debug_text, Action, MoveError, MoveResult, MoveSuccess, TurnPhase};
use crate::full_state::{build_full_state, full_state_model, opt_event_model};
use crate::game_laws::{law_moves_keep_the_seats, law_turn_end_passes_the_turn};
use crate::ids::{GameId, PlayerId, PlayerIdx, Seconds};
use crate::lobby::set_connected;
use crate::over::{over_model, result_effects, OverModel, OverPhase};
use crate::protocol::{DetailsModel, ErrorCode, ErrorDetails, EventModel, ServerEvent};
use crate::room::{
    add_id, distinct_members, distinct_participants, effects_model, find_member, find_other_participant,
    find_participant, find_seat_holder, first_where, is_member, lemma_first_where, lemma_member_pos_unique, lemma_remove_member,
    lemma_update_member, member_pos, members_model,
    other_participant_pos, participant_pos, remove_id, seat_holder_pos, with_id, without_id, EffectModel,
    InputModel, MemberModel, Participant, RoomEffect, RoomInput, RoomMember, DISCONNECT_GRACE_SECONDS, UNSEATED,
};
use crate::room_events::{
    action_events, process_action, card_taken, full_state_effects, send_full_state, push_effect, routed,
    taken_card,
};
use crate::state::{outcome_of, GameState};
use crate::state_spec::{next_move, GameModel, GamePhase, Outcome, Refusal};

verus! {

/// The room while a game runs.
#[derive(Debug)]
pub struct PlayingPhase {
    pub game_id: GameId,
    pub turn_seconds: Seconds,
    /// The seat on turn, as the room sees it.
    pub current_player: PlayerIdx,
    /// The players of the game with their seats.
    pub participants: Vec<Participant>,
    /// The players whose grace period is running.
    pub pending_disconnects: Vec<PlayerId>,
}

/// The playing phase as plain values.
pub struct PlayingModel {
    pub game_id: Seq<char>,
    pub turn_seconds: Seconds,
    pub current_player: PlayerIdx,
    pub participants: Seq<Participant>,
    pub pending: Seq<PlayerId>,
}

impl PlayingPhase {
    pub open spec fn model(&self) -> PlayingModel {
        PlayingModel {
            game_id: self.game_id.0@,
            turn_seconds: self.turn_seconds,
            current_player: self.current_player,
            participants: self.participants@,
            pending: self.pending_disconnects@,
        }
    }
}

/// What is left of a turn of `turn_seconds` after `elapsed`.
pub open spec fn remaining(turn_seconds: Seconds, elapsed: Seconds) -> Seconds {
    Seconds(if turn_seconds.0 >= elapsed.0 { (turn_seconds.0 - elapsed.0) as u64 } else { 0 })
}

/// The room is in a state a running game can be in: a running two-seat
/// game (seats 0 and 1) with the turn on a board, both seats held by
/// participants with distinct ids, and every seated participant a member
/// at the same seat.
pub open spec fn playing_wf(p: PlayingModel, ms: Seq<MemberModel>, g: GameState) -> bool {
    &&& g.wf()
    &&& g@.phase == GamePhase::Playing
    &&& g@.players.len() == 2
    &&& g@.players[0].player_idx == 0
    &&& g@.players[1].player_idx == 1
    &&& g@.current_turn.0 < 2
    &&& p.current_player.0 < 2
    &&& distinct_participants(p.participants)
    &&& distinct_members(ms)
    &&& seat_holder_pos(p.participants, PlayerIdx(0)) < p.participants.len()
    &&& seat_holder_pos(p.participants, PlayerIdx(1)) < p.participants.len()
    &&& forall|i: int| 0 <= i < p.participants.len() && (#[trigger] p.participants[i]).player_idx.0 < 2
        ==> is_member(ms, p.participants[i].player_id)
    &&& forall|i: int| 0 <= i < p.participants.len() && is_member(ms, (#[trigger] p.participants[i]).player_id)
        ==> ms[member_pos(ms, p.participants[i].player_id)].player_idx == p.participants[i].player_idx
}

/// Changing a member's connection keeps the room well formed.
proof fn lemma_wf_connected(p: PlayingModel, ms: Seq<MemberModel>, g: GameState, k: int, c: bool)
    requires
        playing_wf(p, ms, g),
        0 <= k < ms.len(),
    ensures
        playing_wf(p, set_connected(ms, k, c), g),
{
    let ms2 = set_connected(ms, k, c);
    lemma_update_member(ms, k, MemberModel { connected: c, ..ms[k] });
    let ps = p.participants;
    assert forall|i: int| 0 <= i < ps.len() && (#[trigger] ps[i]).player_idx.0 < 2 implies is_member(ms2, ps[i].player_id) by {
        lemma_first_where(ms, |m: MemberModel| m.player_id == ps[i].player_id);
        let j = member_pos(ms, ps[i].player_id);
        assert(ms[j].player_id == ps[i].player_id);
    }
    assert forall|i: int| 0 <= i < ps.len() && is_member(ms2, (#[trigger] ps[i]).player_id) implies
        ms2[member_pos(ms2, ps[i].player_id)].player_idx == ps[i].player_idx by {
        lemma_first_where(ms2, |m: MemberModel| m.player_id == ps[i].player_id);
        let j = member_pos(ms2, ps[i].player_id);
        assert(ms[j].player_id == ps[i].player_id);
        lemma_member_pos_unique(ms, j);
    }
}

/// Removing a member keeps every other member at its seat.
proof fn lemma_seats_after_remove(ps: Seq<Participant>, ms: Seq<MemberModel>, k: int)
    requires
        distinct_members(ms),
        0 <= k < ms.len(),
        forall|i: int| 0 <= i < ps.len() && is_member(ms, (#[trigger] ps[i]).player_id)
            ==> ms[member_pos(ms, ps[i].player_id)].player_idx == ps[i].player_idx,
    ensures
        distinct_members(ms.remove(k)),
        forall|i: int| 0 <= i < ps.len() && is_member(ms.remove(k), (#[trigger] ps[i]).player_id)
            ==> ms.remove(k)[member_pos(ms.remove(k), ps[i].player_id)].player_idx == ps[i].player_idx,
{
    let ms2 = ms.remove(k);
    lemma_remove_member(ms, k);
    assert forall|i: int| 0 <= i < ps.len() && is_member(ms2, (#[trigger] ps[i]).player_id) implies
        ms2[member_pos(ms2, ps[i].player_id)].player_idx == ps[i].player_idx by {
        lemma_first_where(ms2, |m: MemberModel| m.player_id == ps[i].player_id);
        let j2 = member_pos(ms2, ps[i].player_id);
        let j0 = if j2 < k { j2 } else { j2 + 1 };
        assert(ms2[j2] == ms[j0]);
        lemma_member_pos_unique(ms, j0);
    }
}

/// Removing an unseated member keeps the room well formed.
proof fn lemma_wf_remove_unseated(p: PlayingModel, ms: Seq<MemberModel>, g: GameState, k: int)
    requires
        playing_wf(p, ms, g),
        0 <= k < ms.len(),
        ms[k].player_idx.0 == UNSEATED,
    ensures
        playing_wf(p, ms.remove(k), g),
{
    let ms2 = ms.remove(k);
    lemma_seats_after_remove(p.participants, ms, k);
    let ps = p.participants;
    assert forall|i: int| 0 <= i < ps.len() && (#[trigger] ps[i]).player_idx.0 < 2 implies is_member(ms2, ps[i].player_id) by {
        lemma_first_where(ms, |m: MemberModel| m.player_id == ps[i].player_id);
        let j = member_pos(ms, ps[i].player_id);
        assert(ms[j].player_id == ps[i].player_id);
        assert(j != k);
        lemma_remove_member(ms, k);
        assert(is_member(ms2, ms[j].player_id));
    }
}

/// When a game ends, the members fit the phase that follows.
proof fn lemma_over_after(
    p: PlayingModel,
    ms: Seq<MemberModel>,
    g: GameState,
    ms2: Seq<MemberModel>,
    k: int,
    wid: PlayerId,
    widx: PlayerIdx,
    reason: Seq<char>,
)
    requires
        playing_wf(p, ms, g),
        ms2 == ms || (0 <= k < ms.len() && ms2 == ms.remove(k)),
    ensures
        crate::over::over_wf(over_model(p.game_id, p.participants, p.turn_seconds, wid, widx, reason), ms2),
{
    if ms2 != ms {
        lemma_seats_after_remove(p.participants, ms, k);
    }
}

/// The error code a refusal is reported with.
pub open spec fn code_of(why: Refusal) -> ErrorCode {
    match why {
        Refusal::DoesNotFit => ErrorCode::InvalidMove,
        Refusal::NotAllowed => ErrorCode::InvalidMove,
        Refusal::InvalidIndex(_) => ErrorCode::CardNotFound,
        Refusal::NotYourTurn => ErrorCode::NotYourTurn,
    }
}

/// The context sent with a refused move.
pub open spec fn move_details(id: PlayerId, action: Action) -> DetailsModel {
    DetailsModel { player_id: Some(id), action: Some(action_debug_text(action)), card_id: None }
}

pub open spec fn not_your_turn_text() -> Seq<char> {
    "It's not your turn"@
}

pub open spec fn opponent_text() -> Seq<char> {
    "Opponent"@
}

pub open spec fn left_reason() -> Seq<char> {
    "Opponent left the game"@
}

pub open spec fn timeout_reason() -> Seq<char> {
    "Opponent did not reconnect in time"@
}

pub open spec fn cleared_text() -> Seq<char> {
    "All cards cleared"@
}

/// At most one full-state message, for `id` at seat `idx`.
pub open spec fn own_full_state(g: GameState, id: PlayerId, idx: PlayerIdx) -> Seq<EffectModel> {
    match full_state_model(g, id, idx, opponent_text()) {
        Some(e) => seq![EffectModel::SendTo(id, e)],
        None => Seq::empty(),
    }
}

/// Nothing changes and nothing is sent.
pub open spec fn quiet(
    p: PlayingModel,
    ms: Seq<MemberModel>,
    g: GameState,
    p2: PlayingModel,
    ms2: Seq<MemberModel>,
    g2: GameState,
    es: Seq<EffectModel>,
    over: Option<OverModel>,
) -> bool {
    p2 == p && ms2 == ms && g2 == g && es == Seq::<EffectModel>::empty() && over is None
}

/// What a move request by `id` does (see `playing_handled`).
pub open spec fn action_handled(
    p: PlayingModel,
    ms: Seq<MemberModel>,
    g: GameState,
    id: PlayerId,
    action: Action,
    rem: Seconds,
    p2: PlayingModel,
    ms2: Seq<MemberModel>,
    g2: GameState,
    es: Seq<EffectModel>,
    over: Option<OverModel>,
) -> bool {
    let ps = p.participants;
    let q = participant_pos(ps, id);
    if q >= ps.len() {
        quiet(p, ms, g, p2, ms2, g2, es, over)
    } else if ps[q].player_idx != p.current_player {
        &&& p2 == p && ms2 == ms && g2 == g && over is None
        &&& es == seq![EffectModel::SendTo(id, EventModel::Error {
            code: ErrorCode::NotYourTurn,
            message: Some(not_your_turn_text()),
            details: Some(move_details(id, action)),
        })]
    } else {
        let idx = ps[q].player_idx;
        let (m2, out) = next_move(g@, idx, action);
        &&& g2@ == m2
        &&& g2.same_setting(&g)
        &&& ms2 == ms
        &&& match out {
            Outcome::Refused(why) => {
                &&& p2 == p && over is None
                &&& es == seq![EffectModel::SendTo(id, EventModel::Error {
                    code: code_of(why),
                    message: None,
                    details: Some(move_details(id, action)),
                })]
            },
            Outcome::Done(success, drawn, _) => {
                let base = seq![EffectModel::CancelTurnTimer] + match drawn {
                    Some(cs) => seq![EffectModel::SendTo(id, EventModel::HandRefill {
                        player_id: id,
                        player_idx: idx,
                        cards: cs,
                        turn_seconds_remaining: rem,
                    })],
                    None => Seq::empty(),
                } + routed(action_events(
                    ms,
                    m2,
                    action,
                    success,
                    taken_card(g@, idx, action),
                    id,
                    ms[member_pos(ms, id)].player_idx,
                    rem,
                ));
                match success {
                    MoveSuccess::GameWon { winner_idx } => {
                        let wid = ps[seat_holder_pos(ps, winner_idx)].player_id;
                        &&& p2 == p
                        &&& es == base + result_effects(ms, wid, winner_idx, cleared_text())
                        &&& over == Some(over_model(p.game_id, ps, p.turn_seconds, wid, winner_idx, cleared_text()))
                    },
                    MoveSuccess::TurnEnded => {
                        let next = m2.current_turn;
                        let nid = ps[seat_holder_pos(ps, next)].player_id;
                        &&& p2 == PlayingModel { current_player: next, ..p }
                        &&& over is None
                        &&& es == base + seq![
                            EffectModel::RestartTurnClock,
                            EffectModel::Broadcast(EventModel::TurnEnded {
                                next_player_id: nid,
                                next_player_idx: next,
                                turn_seconds: p.turn_seconds,
                                timed_out_player_id: None,
                                timed_out_player_idx: None,
                            }),
                        ] + full_state_effects(ms, g2, ms.len() as int) + seq![
                            EffectModel::StartTurnTimer { player_id: nid, seconds: p.turn_seconds },
                        ]
                    },
                    _ => p2 == p && over is None && es == base,
                }
            },
        }
    }
}

/// What the room does with `input` while a game runs: the phase, members
/// and game after it (`p2`, `ms2`, `g2`), what it asks its caller to do
/// (`es`), and, when the game ends, the phase that follows (`over`).
pub open spec fn playing_handled(
    p: PlayingModel,
    ms: Seq<MemberModel>,
    g: GameState,
    input: InputModel,
    rem: Seconds,
    p2: PlayingModel,
    ms2: Seq<MemberModel>,
    g2: GameState,
    es: Seq<EffectModel>,
    over: Option<OverModel>,
) -> bool {
    let ps = p.participants;
    match input {
        InputModel::UnsubscribePlayer { player_id } => {
            let k = member_pos(ms, player_id);
            &&& p2 == p && g2 == g && over is None && es == Seq::<EffectModel>::empty()
            &&& ms2 == (if k < ms.len() && ms[k].player_idx.0 == UNSEATED { ms.remove(k) } else { ms })
        },
        InputModel::PlayerAction { player_id, action } => action_handled(p, ms, g, player_id, action, rem, p2, ms2, g2, es, over),
        InputModel::TurnTimeout { player_id } => {
            let h = seat_holder_pos(ps, p.current_player);
            if h >= ps.len() || ps[h].player_id != player_id {
                quiet(p, ms, g, p2, ms2, g2, es, over)
            } else {
                let next = (g@.current_turn.0 + 1) % (g@.players.len() as int);
                let next_idx = PlayerIdx(g@.players[next].player_idx);
                let nid = ps[seat_holder_pos(ps, next_idx)].player_id;
                &&& g2@ == GameModel { current_turn: PlayerIdx(next as usize), turn_phase: TurnPhase::Draw, ..g@ }
                &&& g2.same_setting(&g)
                &&& g2.scale_manager.scales@ == g.scale_manager.scales@
                &&& g2.players@ == g.players@
                &&& p2 == PlayingModel { current_player: next_idx, ..p }
                &&& ms2 == ms && over is None
                &&& es == seq![
                    EffectModel::CancelTurnTimer,
                    EffectModel::Broadcast(EventModel::TurnEnded {
                        next_player_id: nid,
                        next_player_idx: next_idx,
                        turn_seconds: p.turn_seconds,
                        timed_out_player_id: Some(player_id),
                        timed_out_player_idx: Some(p.current_player),
                    }),
                ] + full_state_effects(ms, g2, ms.len() as int) + seq![
                    EffectModel::StartTurnTimer { player_id: nid, seconds: p.turn_seconds },
                ]
            }
        },
        InputModel::NetworkDisconnect { player_id } => {
            let k = member_pos(ms, player_id);
            if k >= ms.len() {
                quiet(p, ms, g, p2, ms2, g2, es, over)
            } else {
                let idx = ms[k].player_idx;
                &&& ms2 == set_connected(ms, k, false) && g2 == g && over is None
                &&& p2 == PlayingModel { pending: with_id(p.pending, player_id), ..p }
                &&& es == (if idx == p.current_player { seq![EffectModel::CancelTurnTimer] } else { Seq::empty() }) + seq![
                    EffectModel::Broadcast(EventModel::PlayerDisconnected {
                        player_id,
                        player_idx: idx,
                        grace_period_seconds: DISCONNECT_GRACE_SECONDS,
                    }),
                    EffectModel::ScheduleDisconnectTimeout { player_id },
                ]
            }
        },
        InputModel::PlayerReconnected { player_id } => {
            let abort = if p.pending.contains(player_id) {
                seq![EffectModel::AbortDisconnectTimeout { player_id }]
            } else {
                Seq::empty()
            };
            let k = member_pos(ms, player_id);
            &&& p2 == PlayingModel { pending: without_id(p.pending, player_id), ..p }
            &&& g2 == g && over is None
            &&& if k >= ms.len() {
                ms2 == ms && es == abort
            } else {
                let idx = ms[k].player_idx;
                &&& ms2 == set_connected(ms, k, true)
                &&& es == abort + own_full_state(g, player_id, idx) + seq![
                    EffectModel::Broadcast(EventModel::PlayerReconnected { player_id, player_idx: idx, turn_seconds_remaining: rem }),
                ] + if idx == p.current_player {
                    seq![EffectModel::StartTurnTimer { player_id, seconds: p.turn_seconds }]
                } else {
                    Seq::empty()
                }
            }
        },
        InputModel::PlayerLeft { player_id } => {
            let abort = if p.pending.contains(player_id) {
                seq![EffectModel::AbortDisconnectTimeout { player_id }]
            } else {
                Seq::empty()
            };
            let k = member_pos(ms, player_id);
            let w = other_participant_pos(ps, player_id);
            &&& p2 == PlayingModel { pending: without_id(p.pending, player_id), ..p }
            &&& g2 == g
            &&& if k >= ms.len() {
                ms2 == ms && es == abort && over is None
            } else if w >= ps.len() {
                ms2 == ms.remove(k) && es == abort + seq![EffectModel::CancelTurnTimer] && over is None
            } else {
                let ms3 = ms.remove(k);
                &&& ms2 == ms3
                &&& es == abort + seq![
                    EffectModel::CancelTurnTimer,
                    EffectModel::Broadcast(EventModel::PlayerLeft { player_id, player_idx: ms[k].player_idx }),
                ] + result_effects(ms3, ps[w].player_id, ps[w].player_idx, left_reason())
                &&& over == Some(over_model(p.game_id, ps, p.turn_seconds, ps[w].player_id, ps[w].player_idx, left_reason()))
            }
        },
        InputModel::DisconnectTimeout { player_id } => {
            let k = member_pos(ms, player_id);
            let w = other_participant_pos(ps, player_id);
            &&& p2 == PlayingModel { pending: without_id(p.pending, player_id), ..p }
            &&& g2 == g
            &&& if k >= ms.len() || ms[k].connected {
                ms2 == ms && es == Seq::<EffectModel>::empty() && over is None
            } else if w >= ps.len() {
                ms2 == ms && es == seq![EffectModel::CancelTurnTimer] && over is None
            } else {
                let ms3 = ms.remove(k);
                &&& ms2 == ms3
                &&& es == seq![EffectModel::CancelTurnTimer] + result_effects(ms3, ps[w].player_id, ps[w].player_idx, timeout_reason())
                &&& over == Some(over_model(p.game_id, ps, p.turn_seconds, ps[w].player_id, ps[w].player_idx, timeout_reason()))
            }
        },
        InputModel::IsPlayerKnown { player_id } => {
            &&& p2 == p && ms2 == ms && g2 == g && over is None
            &&& es == seq![EffectModel::ReplyKnown(is_member(ms, player_id))]
        },
        _ => quiet(p, ms, g, p2, ms2, g2, es, over),
    }
}

/// The over phase a transition leads to, as plain values.
pub open spec fn opt_over_model(o: Option<OverPhase>) -> Option<OverModel> {
    match o {
        Some(x) => Some(x.model()),
        None => None,
    }
}

/// Appends `more` to `effects`.
fn append_effects(effects: &mut Vec<RoomEffect>, more: Vec<RoomEffect>)
    ensures
        effects_model(final(effects)@) == effects_model(old(effects)@) + effects_model(more@),
{
    let mut more = more;
    proof {
        assert(effects_model(effects@ + more@) =~= effects_model(effects@) + effects_model(more@));
    }
    effects.append(&mut more);
}

/// The error code a refused move is reported with.
fn error_code(e: &MoveError) -> (r: ErrorCode)
    ensures
        r == code_of(outcome_of(Err::<MoveResult, MoveError>(*e))->Refused_0),
{
    match e {
        MoveError::DoesNotFit => ErrorCode::InvalidMove,
        MoveError::NotAllowed => ErrorCode::InvalidMove,
        MoveError::InvalidIndex { .. } => ErrorCode::CardNotFound,
        MoveError::NotYourTurn => ErrorCode::NotYourTurn,
    }
}

/// The context sent with a refused move.
fn details_for(id: PlayerId, action: &Action) -> (r: ErrorDetails)
    ensures
        r.model() == move_details(id, *action),
{
    ErrorDetails { player_id: Some(id), action: Some(action.debug_text()), card_id: None }
}

impl PlayingPhase {
    /// What is left of the current turn once `elapsed` of it has run.
    pub fn turn_seconds_remaining(&self, elapsed: Seconds) -> (r: Seconds)
        ensures
            r == remaining(self.turn_seconds, elapsed),
    {
        self.turn_seconds.saturating_sub(elapsed)
    }

    /// What the room does with `input` while a game runs (see
    /// `playing_handled`); `elapsed` is how long the current turn has run.
    /// Returns what to do and, when the game ends, the phase that follows.
    #[verifier::rlimit(80)]
    pub fn handle_command(
        &mut self,
        members: &mut Vec<RoomMember>,
        game: &mut GameState,
        input: RoomInput,
        elapsed: Seconds,
    ) -> (r: (Vec<RoomEffect>, Option<OverPhase>))
        requires
            playing_wf(old(self).model(), members_model(old(members)@), *old(game)),
        ensures
            playing_handled(
                old(self).model(),
                members_model(old(members)@),
                *old(game),
                input.model(),
                remaining(old(self).turn_seconds, elapsed),
                final(self).model(),
                members_model(final(members)@),
                *final(game),
                effects_model(r.0@),
                opt_over_model(r.1),
            ),
            r.1 is None ==> playing_wf(final(self).model(), members_model(final(members)@), *final(game)),
            r.1 matches Some(o) ==> crate::over::over_wf(o.model(), members_model(final(members)@)),
    {
        let rem = self.turn_seconds_remaining(elapsed);
        match input {
            RoomInput::UnsubscribePlayer { player_id } => {
                let effects = self.unsubscribe(members, game, player_id);
                (effects, None)
            },
            RoomInput::PlayerAction { player_id, action } => self.player_action(members, game, player_id, action, rem),
            RoomInput::TurnTimeout { player_id } => {
                let effects = self.turn_timeout(members, game, player_id);
                (effects, None)
            },
            RoomInput::NetworkDisconnect { player_id } => {
                let effects = self.network_disconnect(members, game, player_id);
                (effects, None)
            },
            RoomInput::PlayerReconnected { player_id } => {
                let effects = self.player_reconnected(members, game, player_id, rem);
                (effects, None)
            },
            RoomInput::PlayerLeft { player_id } => self.player_left(members, game, player_id),
            RoomInput::DisconnectTimeout { player_id } => self.disconnect_timeout(members, game, player_id),
            RoomInput::IsPlayerKnown { player_id } => {
                let mut effects: Vec<RoomEffect> = Vec::new();
                let known = match find_member(members, player_id) {
                    Some(_) => true,
                    None => false,
                };
                push_effect(&mut effects, RoomEffect::ReplyKnown(known));
                proof {
                    assert(effects_model(effects@) =~= seq![EffectModel::ReplyKnown(known)]);
                }
                (effects, None)
            },
            _ => {
                let effects: Vec<RoomEffect> = Vec::new();
                proof {
                    assert(effects_model(effects@) =~= Seq::<EffectModel>::empty());
                }
                (effects, None)
            },
        }
    }

    /// A copy of the participants.
    fn copy_participants(&self) -> (r: Vec<Participant>)
        ensures
            r@ == self.participants@,
    {
        let mut r: Vec<Participant> = Vec::with_capacity(self.participants.len());
        let mut i: usize = 0;
        while i < self.participants.len()
            invariant
                i <= self.participants@.len(),
                r@ == self.participants@.subrange(0, i as int),
            decreases self.participants@.len() - i,
        {
            r.push(self.participants[i]);
            i = i + 1;
            proof {
                assert(r@ =~= self.participants@.subrange(0, i as int));
            }
        }
        proof {
            assert(r@ =~= self.participants@);
        }
        r
    }

    /// Under the room's invariant, some participant is not `id`.
    proof fn lemma_someone_else(&self, ms: Seq<MemberModel>, g: GameState, id: PlayerId)
        requires
            playing_wf(self.model(), ms, g),
        ensures
            other_participant_pos(self.participants@, id) < self.participants@.len(),
    {
        let ps = self.participants@;
        lemma_first_where(ps, |q: Participant| q.player_idx == PlayerIdx(0));
        lemma_first_where(ps, |q: Participant| q.player_idx == PlayerIdx(1));
        lemma_first_where(ps, |q: Participant| q.player_id != id);
        let a = seat_holder_pos(ps, PlayerIdx(0));
        let b = seat_holder_pos(ps, PlayerIdx(1));
        if other_participant_pos(ps, id) >= ps.len() {
            assert(ps[a].player_id == id);
            assert(ps[b].player_id == id);
            if a < b {
                assert(ps[a].player_id != ps[b].player_id);
            } else {
                assert(ps[b].player_id != ps[a].player_id);
            }
        }
    }

    fn player_reconnected(&mut self, members: &mut Vec<RoomMember>, game: &GameState, player_id: PlayerId, rem: Seconds) -> (r: Vec<RoomEffect>)
        requires
            playing_wf(old(self).model(), members_model(old(members)@), *game),
        ensures
            playing_handled(
                old(self).model(),
                members_model(old(members)@),
                *game,
                InputModel::PlayerReconnected { player_id },
                rem,
                final(self).model(),
                members_model(final(members)@),
                *game,
                effects_model(r@),
                None,
            ),
            playing_wf(final(self).model(), members_model(final(members)@), *game),
    {
        let ghost ms = members_model(members@);
        let ghost p0 = self.model();
        let mut effects: Vec<RoomEffect> = Vec::new();
        proof {
            assert(effects_model(effects@) =~= Seq::<EffectModel>::empty());
        }
        if remove_id(&mut self.pending_disconnects, player_id) {
            push_effect(&mut effects, RoomEffect::AbortDisconnectTimeout { player_id });
        }
        let ghost abort = effects_model(effects@);
        proof {
            let expected = if p0.pending.contains(player_id) {
                seq![EffectModel::AbortDisconnectTimeout { player_id }]
            } else {
                Seq::<EffectModel>::empty()
            };
            assert(abort =~= expected);
        }
        let k = match find_member(members, player_id) {
            Some(k) => k,
            None => {
                return effects;
            },
        };
        proof {
            assert(ms[k as int] == members@[k as int].model());
        }
        let idx = members[k].player_idx;
        members[k].connected = true;
        proof {
            assert(members_model(members@) =~= set_connected(ms, k as int, true));
            lemma_update_member(ms, k as int, MemberModel { connected: true, ..ms[k as int] });
        }
        match build_full_state(game, player_id, idx, "Opponent".to_string()) {
            Some(e) => {
                push_effect(&mut effects, RoomEffect::SendTo(player_id, e));
            },
            None => {},
        }
        let ghost with_state = effects_model(effects@);
        proof {
            assert(with_state =~= abort + own_full_state(*game, player_id, idx));
        }
        push_effect(&mut effects, RoomEffect::Broadcast(ServerEvent::PlayerReconnected {
            player_id,
            player_idx: idx,
            turn_seconds_remaining: rem,
        }));
        if idx == self.current_player {
            push_effect(&mut effects, RoomEffect::StartTurnTimer { player_id, seconds: self.turn_seconds });
        }
        proof {
            lemma_wf_connected(self.model(), ms, *game, k as int, true);
            let expected = with_state + seq![
                EffectModel::Broadcast(EventModel::PlayerReconnected { player_id, player_idx: idx, turn_seconds_remaining: rem }),
            ] + if idx == p0.current_player {
                seq![EffectModel::StartTurnTimer { player_id, seconds: p0.turn_seconds }]
            } else {
                Seq::<EffectModel>::empty()
            };
            assert(effects_model(effects@) =~= expected);
        }
        effects
    }

    fn player_left(&mut self, members: &mut Vec<RoomMember>, game: &GameState, player_id: PlayerId)
        -> (r: (Vec<RoomEffect>, Option<OverPhase>))
        requires
            playing_wf(old(self).model(), members_model(old(members)@), *game),
        ensures
            playing_handled(
                old(self).model(),
                members_model(old(members)@),
                *game,
                InputModel::PlayerLeft { player_id },
                Seconds(0),
                final(self).model(),
                members_model(final(members)@),
                *game,
                effects_model(r.0@),
                opt_over_model(r.1),
            ),
            r.1 is None ==> playing_wf(final(self).model(), members_model(final(members)@), *game),
            r.1 matches Some(o) ==> crate::over::over_wf(o.model(), members_model(final(members)@)),
    {
        let ghost ms = members_model(members@);
        let ghost p0 = self.model();
        proof {
            self.lemma_someone_else(ms, *game, player_id);
        }
        let mut effects: Vec<RoomEffect> = Vec::new();
        proof {
            assert(effects_model(effects@) =~= Seq::<EffectModel>::empty());
        }
        if remove_id(&mut self.pending_disconnects, player_id) {
            push_effect(&mut effects, RoomEffect::AbortDisconnectTimeout { player_id });
        }
        let ghost abort = effects_model(effects@);
        proof {
            let expected = if p0.pending.contains(player_id) {
                seq![EffectModel::AbortDisconnectTimeout { player_id }]
            } else {
                Seq::<EffectModel>::empty()
            };
            assert(abort =~= expected);
        }
        let k = match find_member(members, player_id) {
            Some(k) => k,
            None => {
                return (effects, None);
            },
        };
        proof {
            assert(ms[k as int] == members@[k as int].model());
        }
        let leaving_idx = members[k].player_idx;
        push_effect(&mut effects, RoomEffect::CancelTurnTimer);
        let w = match find_other_participant(&self.participants, player_id) {
            Some(w) => w,
            None => {
                members.remove(k);
                return (effects, None);
            },
        };
        let winner = self.participants[w];
        let participants = self.copy_participants();
        members.remove(k);
        proof {
            assert(members_model(members@) =~= ms.remove(k as int));
        }
        push_effect(&mut effects, RoomEffect::Broadcast(ServerEvent::PlayerLeft { player_id, player_idx: leaving_idx }));
        let (over, told) = OverPhase::new(
            self.game_id.clone(),
            members,
            participants,
            self.turn_seconds,
            winner.player_id,
            winner.player_idx,
            "Opponent left the game".to_string(),
        );
        let ghost before_told = effects_model(effects@);
        append_effects(&mut effects, told);
        proof {
            lemma_over_after(p0, ms, *game, ms.remove(k as int), k as int, winner.player_id, winner.player_idx, "Opponent left the game"@);
        }
        proof {
            assert(before_told =~= abort + seq![
                EffectModel::CancelTurnTimer,
                EffectModel::Broadcast(EventModel::PlayerLeft { player_id, player_idx: ms[k as int].player_idx }),
            ]);
        }
        (effects, Some(over))
    }

    fn disconnect_timeout(&mut self, members: &mut Vec<RoomMember>, game: &GameState, player_id: PlayerId)
        -> (r: (Vec<RoomEffect>, Option<OverPhase>))
        requires
            playing_wf(old(self).model(), members_model(old(members)@), *game),
        ensures
            playing_handled(
                old(self).model(),
                members_model(old(members)@),
                *game,
                InputModel::DisconnectTimeout { player_id },
                Seconds(0),
                final(self).model(),
                members_model(final(members)@),
                *game,
                effects_model(r.0@),
                opt_over_model(r.1),
            ),
            r.1 is None ==> playing_wf(final(self).model(), members_model(final(members)@), *game),
            r.1 matches Some(o) ==> crate::over::over_wf(o.model(), members_model(final(members)@)),
    {
        let ghost ms = members_model(members@);
        let ghost p0 = self.model();
        proof {
            self.lemma_someone_else(ms, *game, player_id);
        }
        let mut effects: Vec<RoomEffect> = Vec::new();
        proof {
            assert(effects_model(effects@) =~= Seq::<EffectModel>::empty());
        }
        let _ = remove_id(&mut self.pending_disconnects, player_id);
        let k = match find_member(members, player_id) {
            Some(k) => k,
            None => {
                return (effects, None);
            },
        };
        proof {
            assert(ms[k as int] == members@[k as int].model());
        }
        if members[k].connected {
            return (effects, None);
        }
        push_effect(&mut effects, RoomEffect::CancelTurnTimer);
        let w = match find_other_participant(&self.participants, player_id) {
            Some(w) => w,
            None => {
                return (effects, None);
            },
        };
        let winner = self.participants[w];
        let participants = self.copy_participants();
        members.remove(k);
        proof {
            assert(members_model(members@) =~= ms.remove(k as int));
        }
        let (over, told) = OverPhase::new(
            self.game_id.clone(),
            members,
            participants,
            self.turn_seconds,
            winner.player_id,
            winner.player_idx,
            "Opponent did not reconnect in time".to_string(),
        );
        append_effects(&mut effects, told);
        proof {
            lemma_over_after(p0, ms, *game, ms.remove(k as int), k as int, winner.player_id, winner.player_idx, "Opponent did not reconnect in time"@);
        }
        (effects, Some(over))
    }

    fn turn_timeout(&mut self, members: &mut Vec<RoomMember>, game: &mut GameState, player_id: PlayerId) -> (r: Vec<RoomEffect>)
        requires
            playing_wf(old(self).model(), members_model(old(members)@), *old(game)),
        ensures
            playing_handled(
                old(self).model(),
                members_model(old(members)@),
                *old(game),
                InputModel::TurnTimeout { player_id },
                Seconds(0),
                final(self).model(),
                members_model(final(members)@),
                *final(game),
                effects_model(r@),
                None,
            ),
            playing_wf(final(self).model(), members_model(final(members)@), *final(game)),
    {
        let ghost ms = members_model(members@);
        let ghost p0 = self.model();
        let ghost g0 = *game;
        let mut effects: Vec<RoomEffect> = Vec::new();
        proof {
            assert(effects_model(effects@) =~= Seq::<EffectModel>::empty());
        }
        let h = match find_seat_holder(&self.participants, self.current_player) {
            Some(h) => h,
            None => {
                return effects;
            },
        };
        if self.participants[h].player_id != player_id {
            return effects;
        }
        let timed_out_idx = self.current_player;
        push_effect(&mut effects, RoomEffect::CancelTurnTimer);
        let next_idx = game.advance_turn();
        proof {
            let next = (g0@.current_turn.0 + 1) % 2;
            assert(next == 0 || next == 1);
            assert(next_idx.0 < 2);
            lemma_first_where(self.participants@, |q: Participant| q.player_idx == PlayerIdx(0));
            lemma_first_where(self.participants@, |q: Participant| q.player_idx == PlayerIdx(1));
        }
        let nh = match find_seat_holder(&self.participants, next_idx) {
            Some(nh) => nh,
            None => {
                return effects;
            },
        };
        let nid = self.participants[nh].player_id;
        self.current_player = next_idx;
        push_effect(&mut effects, RoomEffect::Broadcast(ServerEvent::TurnEnded {
            next_player_id: nid,
            next_player_idx: next_idx,
            turn_seconds: self.turn_seconds,
            timed_out_player_id: Some(player_id),
            timed_out_player_idx: Some(timed_out_idx),
        }));
        append_effects(&mut effects, send_full_state(members, game));
        push_effect(&mut effects, RoomEffect::StartTurnTimer { player_id: nid, seconds: self.turn_seconds });
        proof {
            let expected = seq![
                EffectModel::CancelTurnTimer,
                EffectModel::Broadcast(EventModel::TurnEnded {
                    next_player_id: nid,
                    next_player_idx: next_idx,
                    turn_seconds: p0.turn_seconds,
                    timed_out_player_id: Some(player_id),
                    timed_out_player_idx: Some(p0.current_player),
                }),
            ] + full_state_effects(ms, *game, ms.len() as int) + seq![
                EffectModel::StartTurnTimer { player_id: nid, seconds: p0.turn_seconds },
            ];
            assert(effects_model(effects@) =~= expected);
        }
        effects
    }

    fn player_action(&mut self, members: &mut Vec<RoomMember>, game: &mut GameState, player_id: PlayerId, action: Action, rem: Seconds)
        -> (r: (Vec<RoomEffect>, Option<OverPhase>))
        requires
            playing_wf(old(self).model(), members_model(old(members)@), *old(game)),
        ensures
            action_handled(
                old(self).model(),
                members_model(old(members)@),
                *old(game),
                player_id,
                action,
                rem,
                final(self).model(),
                members_model(final(members)@),
                *final(game),
                effects_model(r.0@),
                opt_over_model(r.1),
            ),
            r.1 is None ==> playing_wf(final(self).model(), members_model(final(members)@), *final(game)),
            r.1 matches Some(o) ==> crate::over::over_wf(o.model(), members_model(final(members)@)),
    {
        let ghost ms = members_model(members@);
        let ghost p0 = self.model();
        let ghost g0 = *game;
        let mut effects: Vec<RoomEffect> = Vec::new();
        proof {
            assert(effects_model(effects@) =~= Seq::<EffectModel>::empty());
        }
        let q = match find_participant(&self.participants, player_id) {
            Some(q) => q,
            None => {
                return (effects, None);
            },
        };
        let idx = self.participants[q].player_idx;
        if idx != self.current_player {
            push_effect(&mut effects, RoomEffect::SendTo(player_id, ServerEvent::Error {
                code: ErrorCode::NotYourTurn,
                message: Some("It's not your turn".to_string()),
                details: Some(details_for(player_id, &action)),
            }));
            proof {
                assert(effects_model(effects@) =~= seq![EffectModel::SendTo(player_id, EventModel::Error {
                    code: ErrorCode::NotYourTurn,
                    message: Some(not_your_turn_text()),
                    details: Some(move_details(player_id, action)),
                })]);
            }
            return (effects, None);
        }
        let played = card_taken(game, idx, &action);
        proof {
            law_moves_keep_the_seats(g0@, idx, action);
        }
        let result = game.apply_move(idx, action);
        let (success, drawn) = match result {
            Err(e) => {
                push_effect(&mut effects, RoomEffect::SendTo(player_id, ServerEvent::Error {
                    code: error_code(&e),
                    message: None,
                    details: Some(details_for(player_id, &action)),
                }));
                proof {
                    let why = outcome_of(Err::<MoveResult, MoveError>(e))->Refused_0;
                    assert(effects_model(effects@) =~= seq![EffectModel::SendTo(player_id, EventModel::Error {
                        code: code_of(why),
                        message: None,
                        details: Some(move_details(player_id, action)),
                    })]);
                }
                return (effects, None);
            },
            Ok(MoveResult { success, drawn_cards, discarded_cards: _ }) => (success, drawn_cards),
        };
        let ghost drawn_m: Option<Seq<crate::card::Card>> = if drawn is Some { Some(drawn->0@) } else { None };
        proof {
            assert(next_move(g0@, idx, action).1 matches Outcome::Done(s0, d0, _) && s0 == success && d0 == drawn_m);
        }
        push_effect(&mut effects, RoomEffect::CancelTurnTimer);
        match drawn {
            Some(cards) => {
                push_effect(&mut effects, RoomEffect::SendTo(player_id, ServerEvent::HandRefill {
                    player_id,
                    player_idx: idx,
                    cards,
                    turn_seconds_remaining: rem,
                }));
            },
            None => {},
        }
        proof {
            let ps = p0.participants;
            assert(ps[q as int].player_idx.0 < 2);
            assert(ps[q as int].player_id == player_id) by {
                lemma_first_where(ps, |x: Participant| x.player_id == player_id);
            }
        }
        let ghost before_msgs = effects_model(effects@);
        proof {
            let refill = match drawn_m {
                Some(cs) => seq![EffectModel::SendTo(player_id, EventModel::HandRefill {
                    player_id,
                    player_idx: idx,
                    cards: cs,
                    turn_seconds_remaining: rem,
                })],
                None => Seq::<EffectModel>::empty(),
            };
            assert(before_msgs =~= seq![EffectModel::CancelTurnTimer] + refill);
        }
        append_effects(&mut effects, process_action(members, game, &action, &success, played, player_id, rem));
        let ghost base = effects_model(effects@);
        match success {
            MoveSuccess::GameWon { winner_idx } => {
                proof {
                    crate::game_laws::law_win_needs_empty_pile_and_hand(g0@, idx, action);
                    lemma_first_where(self.participants@, |x: Participant| x.player_idx == winner_idx);
                }
                let wh = match find_seat_holder(&self.participants, winner_idx) {
                    Some(wh) => wh,
                    None => {
                        return (effects, None);
                    },
                };
                let wid = self.participants[wh].player_id;
                let participants = self.copy_participants();
                let (over, told) = OverPhase::new(
                    self.game_id.clone(),
                    members,
                    participants,
                    self.turn_seconds,
                    wid,
                    winner_idx,
                    "All cards cleared".to_string(),
                );
                append_effects(&mut effects, told);
                proof {
                    lemma_over_after(p0, ms, g0, ms, 0, wid, winner_idx, "All cards cleared"@);
                }
                (effects, Some(over))
            },
            MoveSuccess::TurnEnded => {
                let next = game.current_turn;
                proof {
                    lemma_first_where(self.participants@, |x: Participant| x.player_idx == PlayerIdx(0));
                    lemma_first_where(self.participants@, |x: Participant| x.player_idx == PlayerIdx(1));
                }
                let nh = match find_seat_holder(&self.participants, next) {
                    Some(nh) => nh,
                    None => {
                        return (effects, None);
                    },
                };
                let nid = self.participants[nh].player_id;
                self.current_player = next;
                push_effect(&mut effects, RoomEffect::RestartTurnClock);
                push_effect(&mut effects, RoomEffect::Broadcast(ServerEvent::TurnEnded {
                    next_player_id: nid,
                    next_player_idx: next,
                    turn_seconds: self.turn_seconds,
                    timed_out_player_id: None,
                    timed_out_player_idx: None,
                }));
                append_effects(&mut effects, send_full_state(members, game));
                push_effect(&mut effects, RoomEffect::StartTurnTimer { player_id: nid, seconds: self.turn_seconds });
                proof {
                    let expected = base + seq![
                        EffectModel::RestartTurnClock,
                        EffectModel::Broadcast(EventModel::TurnEnded {
                            next_player_id: nid,
                            next_player_idx: next,
                            turn_seconds: p0.turn_seconds,
                            timed_out_player_id: None,
                            timed_out_player_idx: None,
                        }),
                    ] + full_state_effects(ms, *game, ms.len() as int) + seq![
                        EffectModel::StartTurnTimer { player_id: nid, seconds: p0.turn_seconds },
                    ];
                    assert(effects_model(effects@) =~= expected);
                }
                (effects, None)
            },
            _ => (effects, None),
        }
    }

    fn unsubscribe(&mut self, members: &mut Vec<RoomMember>, game: &GameState, player_id: PlayerId) -> (r: Vec<RoomEffect>)
        requires
            playing_wf(old(self).model(), members_model(old(members)@), *game),
        ensures
            playing_handled(
                old(self).model(),
                members_model(old(members)@),
                *game,
                InputModel::UnsubscribePlayer { player_id },
                Seconds(0),
                final(self).model(),
                members_model(final(members)@),
                *game,
                effects_model(r@),
                None,
            ),
            playing_wf(final(self).model(), members_model(final(members)@), *game),
    {
        let ghost ms = members_model(members@);
        let effects: Vec<RoomEffect> = Vec::new();
        proof {
            assert(effects_model(effects@) =~= Seq::<EffectModel>::empty());
        }
        match find_member(members, player_id) {
            Some(k) => {
                proof {
                    assert(ms[k as int] == members@[k as int].model());
                }
                if members[k].player_idx.as_usize() == UNSEATED {
                    members.remove(k);
                    proof {
                        assert(members_model(members@) =~= ms.remove(k as int));
                        lemma_wf_remove_unseated(self.model(), ms, *game, k as int);
                    }
                }
            },
            None => {},
        }
        effects
    }

    fn network_disconnect(&mut self, members: &mut Vec<RoomMember>, game: &GameState, player_id: PlayerId) -> (r: Vec<RoomEffect>)
        requires
            playing_wf(old(self).model(), members_model(old(members)@), *game),
        ensures
            playing_handled(
                old(self).model(),
                members_model(old(members)@),
                *game,
                InputModel::NetworkDisconnect { player_id },
                Seconds(0),
                final(self).model(),
                members_model(final(members)@),
                *game,
                effects_model(r@),
                None,
            ),
            playing_wf(final(self).model(), members_model(final(members)@), *game),
    {
        let ghost ms = members_model(members@);
        let mut effects: Vec<RoomEffect> = Vec::new();
        proof {
            assert(effects_model(effects@) =~= Seq::<EffectModel>::empty());
        }
        let k = match find_member(members, player_id) {
            Some(k) => k,
            None => {
                return effects;
            },
        };
        proof {
            assert(ms[k as int] == members@[k as int].model());
        }
        let idx = members[k].player_idx;
        members[k].connected = false;
        proof {
            assert(members_model(members@) =~= set_connected(ms, k as int, false));
            lemma_update_member(ms, k as int, MemberModel { connected: false, ..ms[k as int] });
        }
        if idx == self.current_player {
            push_effect(&mut effects, RoomEffect::CancelTurnTimer);
        }
        push_effect(&mut effects, RoomEffect::Broadcast(ServerEvent::PlayerDisconnected {
            player_id,
            player_idx: idx,
            grace_period_seconds: DISCONNECT_GRACE_SECONDS,
        }));
        push_effect(&mut effects, RoomEffect::ScheduleDisconnectTimeout { player_id });
        add_id(&mut self.pending_disconnects, player_id);
        proof {
            lemma_wf_connected(self.model(), ms, *game, k as int, false);
            let expected = (if idx == self.current_player { seq![EffectModel::CancelTurnTimer] } else { Seq::empty() }) + seq![
                EffectModel::Broadcast(EventModel::PlayerDisconnected {
                    player_id,
                    player_idx: idx,
                    grace_period_seconds: DISCONNECT_GRACE_SECONDS,
                }),
                EffectModel::ScheduleDisconnectTimeout { player_id },
            ];
            assert(effects_model(effects@) =~= expected);
        }
        effects
    }
}

} // verus!

verus! {

/// Every turn-timer start among `es` is for `id`.
pub open spec fn timers_only_for(es: Seq<EffectModel>, id: PlayerId) -> bool {
    forall|i: int| 0 <= i < es.len() ==> (#[trigger] es[i] matches EffectModel::StartTurnTimer { player_id, .. } ==> player_id == id)
}

/// No turn timer is started by `es`.
pub open spec fn no_timers(es: Seq<EffectModel>) -> bool {
    forall|i: int| 0 <= i < es.len() ==> !(#[trigger] es[i] is StartTurnTimer)
}

/// Some participant of `p` with id `id` holds the seat on turn.
pub open spec fn holds_turn_seat(p: PlayingModel, id: PlayerId) -> bool {
    exists|j: int| 0 <= j < p.participants.len() && #[trigger] p.participants[j].player_id == id
        && p.participants[j].player_idx == p.current_player
}

proof fn lemma_timers_concat(a: Seq<EffectModel>, b: Seq<EffectModel>, id: PlayerId)
    requires
        timers_only_for(a, id),
        timers_only_for(b, id),
    ensures
        timers_only_for(a + b, id),
{
    assert forall|i: int| 0 <= i < (a + b).len() implies ((#[trigger] (a + b)[i]) matches EffectModel::StartTurnTimer { player_id, .. } ==> player_id == id) by {
        if i < a.len() {
            assert((a + b)[i] == a[i]);
        } else {
            assert((a + b)[i] == b[i - a.len()]);
        }
    }
}

proof fn lemma_no_timers_concat(a: Seq<EffectModel>, b: Seq<EffectModel>)
    requires
        no_timers(a),
        no_timers(b),
    ensures
        no_timers(a + b),
{
    assert forall|i: int| 0 <= i < (a + b).len() implies !(#[trigger] (a + b)[i] is StartTurnTimer) by {
        if i < a.len() {
            assert((a + b)[i] == a[i]);
        } else {
            assert((a + b)[i] == b[i - a.len()]);
        }
    }
}

proof fn lemma_no_timers_for(es: Seq<EffectModel>, id: PlayerId)
    requires
        no_timers(es),
    ensures
        timers_only_for(es, id),
{
    assert forall|i: int| 0 <= i < es.len() implies ((#[trigger] es[i]) matches EffectModel::StartTurnTimer { player_id, .. } ==> player_id == id) by {
        assert(!(es[i] is StartTurnTimer));
    }
}

proof fn lemma_full_state_effects_no_timers(ms: Seq<MemberModel>, g: GameState, n: int)
    ensures
        no_timers(full_state_effects(ms, g, n)),
    decreases n,
{
    if n > 0 {
        lemma_full_state_effects_no_timers(ms, g, n - 1);
        let prev = full_state_effects(ms, g, n - 1);
        let m = ms[n - 1];
        match full_state_model(g, m.player_id, m.player_idx, crate::room_events::opponent_name(ms, n - 1)) {
            Some(e) => {
                let s = prev.push(EffectModel::SendTo(m.player_id, e));
                assert forall|i: int| 0 <= i < s.len() implies !(#[trigger] s[i] is StartTurnTimer) by {
                    if i < prev.len() {
                        assert(s[i] == prev[i]);
                    }
                }
            },
            None => {},
        }
    }
}

proof fn lemma_routed_no_timers(events: Seq<EventModel>)
    ensures
        no_timers(routed(events)),
{
    let s = routed(events);
    assert forall|i: int| 0 <= i < s.len() implies !(#[trigger] s[i] is StartTurnTimer) by {
        assert(s[i] == (match events[i] {
            EventModel::OpponentUpdate { player_id, .. } => EffectModel::SendTo(player_id, events[i]),
            _ => EffectModel::Broadcast(events[i]),
        }));
    }
}

proof fn lemma_result_effects_no_timers(ms: Seq<MemberModel>, wid: PlayerId, widx: PlayerIdx, reason: Seq<char>)
    ensures
        no_timers(result_effects(ms, wid, widx, reason)),
{
    let s = result_effects(ms, wid, widx, reason);
    assert forall|i: int| 0 <= i < s.len() implies !(#[trigger] s[i] is StartTurnTimer) by {
        assert(s[i] == EffectModel::SendTo(ms[i].player_id, EventModel::GameOver { winner_id: wid, winner_idx: widx, reason }));
    }
}

proof fn lemma_one_no_timer(e: EffectModel)
    requires
        !(e is StartTurnTimer),
    ensures
        no_timers(seq![e]),
{
}

proof fn lemma_two_no_timers(e: EffectModel, f: EffectModel)
    requires
        !(e is StartTurnTimer),
        !(f is StartTurnTimer),
    ensures
        no_timers(seq![e, f]),
{
    let s = seq![e, f];
    assert forall|i: int| 0 <= i < s.len() implies !(#[trigger] s[i] is StartTurnTimer) by {
        if i == 0 {
            assert(s[i] == e);
        } else {
            assert(s[i] == f);
        }
    }
}

/// The participant seated at `idx`, when both seats are held, is found.
proof fn lemma_seat_holder(ps: Seq<Participant>, idx: PlayerIdx)
    requires
        idx.0 < 2,
        seat_holder_pos(ps, PlayerIdx(0)) < ps.len(),
        seat_holder_pos(ps, PlayerIdx(1)) < ps.len(),
    ensures
        0 <= seat_holder_pos(ps, idx) < ps.len(),
        ps[seat_holder_pos(ps, idx)].player_idx == idx,
{
    assert(idx == PlayerIdx(0) || idx == PlayerIdx(1));
    lemma_first_where(ps, |q: Participant| q.player_idx == idx);
}

/// A turn handed on: the effects end with the full states and a timer for
/// the new holder of the seat on turn, and start no other timer.
proof fn lemma_turn_handed_on(
    head: Seq<EffectModel>,
    ms: Seq<MemberModel>,
    g2: GameState,
    p2: PlayingModel,
    h: int,
    secs: Seconds,
)
    requires
        no_timers(head),
        0 <= h < p2.participants.len(),
        p2.participants[h].player_idx == p2.current_player,
    ensures
        ({
            let nid = p2.participants[h].player_id;
            let es = head + full_state_effects(ms, g2, ms.len() as int) + seq![
                EffectModel::StartTurnTimer { player_id: nid, seconds: secs },
            ];
            timers_only_for(es, nid) && holds_turn_seat(p2, nid)
        }),
{
    let nid = p2.participants[h].player_id;
    lemma_full_state_effects_no_timers(ms, g2, ms.len() as int);
    lemma_no_timers_concat(head, full_state_effects(ms, g2, ms.len() as int));
    let front = head + full_state_effects(ms, g2, ms.len() as int);
    lemma_no_timers_for(front, nid);
    lemma_timers_concat(front, seq![EffectModel::StartTurnTimer { player_id: nid, seconds: secs }], nid);
    assert(p2.participants[h].player_id == nid);
}

/// Whatever the room is asked while a game runs, every turn timer it starts
/// is for the participant holding the seat on turn once the command is
/// handled: a turn clock never runs for anyone but the player whose turn
/// it is. (A member seated at a game seat is the participant holding it.)
pub proof fn law_turn_timer_follows_the_turn(
    p: PlayingModel,
    ms: Seq<MemberModel>,
    g: GameState,
    input: InputModel,
    rem: Seconds,
    p2: PlayingModel,
    ms2: Seq<MemberModel>,
    g2: GameState,
    es: Seq<EffectModel>,
    over: Option<OverModel>,
)
    requires
        playing_wf(p, ms, g),
        forall|k: int| 0 <= k < ms.len() && (#[trigger] ms[k]).player_idx.0 < 2 ==> exists|j: int|
            0 <= j < p.participants.len() && #[trigger] p.participants[j].player_id == ms[k].player_id
                && p.participants[j].player_idx == ms[k].player_idx,
        playing_handled(p, ms, g, input, rem, p2, ms2, g2, es, over),
    ensures
        forall|i: int| 0 <= i < es.len() ==> (#[trigger] es[i] matches EffectModel::StartTurnTimer { player_id, .. }
            ==> exists|j: int| 0 <= j < p2.participants.len() && #[trigger] p2.participants[j].player_id == player_id
                && p2.participants[j].player_idx == p2.current_player),
{
    let ps = p.participants;
    let who: PlayerId = timer_holder(p, ms, g, input, rem, p2, ms2, g2, es, over);
    assert forall|i: int| 0 <= i < es.len() implies (#[trigger] es[i] matches EffectModel::StartTurnTimer { player_id, .. }
        ==> exists|j: int| 0 <= j < p2.participants.len() && #[trigger] p2.participants[j].player_id == player_id
            && p2.participants[j].player_idx == p2.current_player) by {
        if es[i] is StartTurnTimer {
            assert(holds_turn_seat(p2, who));
        }
    }
}

/// The one id that the command's timers can be for: every timer is for
/// it, and if there is one, it holds the seat on turn afterwards.
proof fn timer_holder(
    p: PlayingModel,
    ms: Seq<MemberModel>,
    g: GameState,
    input: InputModel,
    rem: Seconds,
    p2: PlayingModel,
    ms2: Seq<MemberModel>,
    g2: GameState,
    es: Seq<EffectModel>,
    over: Option<OverModel>,
) -> (who: PlayerId)
    requires
        playing_wf(p, ms, g),
        forall|k: int| 0 <= k < ms.len() && (#[trigger] ms[k]).player_idx.0 < 2 ==> exists|j: int|
            0 <= j < p.participants.len() && #[trigger] p.participants[j].player_id == ms[k].player_id
                && p.participants[j].player_idx == ms[k].player_idx,
        playing_handled(p, ms, g, input, rem, p2, ms2, g2, es, over),
    ensures
        no_timers(es) || (timers_only_for(es, who) && holds_turn_seat(p2, who)),
{
    let ps = p.participants;
    match input {
        InputModel::PlayerAction { player_id, action } => {
            let q = participant_pos(ps, player_id);
            if q >= ps.len() {
                return player_id;
            }
            if ps[q].player_idx != p.current_player {
                lemma_one_no_timer(es[0]);
                return player_id;
            }
            let idx = ps[q].player_idx;
            let (m2, out) = next_move(g@, idx, action);
            match out {
                Outcome::Refused(why) => {
                    lemma_one_no_timer(es[0]);
                    player_id
                },
                Outcome::Done(success, drawn, _) => {
                    let mid = match drawn {
                        Some(cs) => seq![EffectModel::SendTo(player_id, EventModel::HandRefill {
                            player_id: player_id,
                            player_idx: idx,
                            cards: cs,
                            turn_seconds_remaining: rem,
                        })],
                        None => Seq::<EffectModel>::empty(),
                    };
                    let evs = routed(action_events(
                        ms,
                        m2,
                        action,
                        success,
                        taken_card(g@, idx, action),
                        player_id,
                        ms[member_pos(ms, player_id)].player_idx,
                        rem,
                    ));
                    lemma_one_no_timer(EffectModel::CancelTurnTimer);
                    if drawn is Some {
                        lemma_one_no_timer(mid[0]);
                    }
                    lemma_no_timers_concat(seq![EffectModel::CancelTurnTimer], mid);
                    lemma_routed_no_timers(action_events(
                        ms,
                        m2,
                        action,
                        success,
                        taken_card(g@, idx, action),
                        player_id,
                        ms[member_pos(ms, player_id)].player_idx,
                        rem,
                    ));
                    let base = seq![EffectModel::CancelTurnTimer] + mid + evs;
                    lemma_no_timers_concat(seq![EffectModel::CancelTurnTimer] + mid, evs);
                    match success {
                        MoveSuccess::GameWon { winner_idx } => {
                            let wid = ps[seat_holder_pos(ps, winner_idx)].player_id;
                            lemma_result_effects_no_timers(ms, wid, winner_idx, cleared_text());
                            lemma_no_timers_concat(base, result_effects(ms, wid, winner_idx, cleared_text()));
                            player_id
                        },
                        MoveSuccess::TurnEnded => {
                            let next = m2.current_turn;
                            law_moves_keep_the_seats(g@, idx, action);
                            lemma_seat_holder(ps, next);
                            let h = seat_holder_pos(ps, next);
                            let nid = ps[h].player_id;
                            let e2 = EffectModel::Broadcast(EventModel::TurnEnded {
                                next_player_id: nid,
                                next_player_idx: next,
                                turn_seconds: p.turn_seconds,
                                timed_out_player_id: None,
                                timed_out_player_idx: None,
                            });
                            lemma_two_no_timers(EffectModel::RestartTurnClock, e2);
                            lemma_no_timers_concat(base, seq![EffectModel::RestartTurnClock, e2]);
                            let head = base + seq![EffectModel::RestartTurnClock, e2];
                            lemma_turn_handed_on(head, ms, g2, p2, h, p.turn_seconds);
                            nid
                        },
                        _ => player_id,
                    }
                },
            }
        },
        InputModel::TurnTimeout { player_id } => {
            let h0 = seat_holder_pos(ps, p.current_player);
            if h0 >= ps.len() || ps[h0].player_id != player_id {
                return player_id;
            }
            let next = (g@.current_turn.0 + 1) % (g@.players.len() as int);
            let next_idx = PlayerIdx(g@.players[next].player_idx);
            lemma_seat_holder(ps, next_idx);
            let h = seat_holder_pos(ps, next_idx);
            let nid = ps[h].player_id;
            let head = seq![
                EffectModel::CancelTurnTimer,
                EffectModel::Broadcast(EventModel::TurnEnded {
                    next_player_id: nid,
                    next_player_idx: next_idx,
                    turn_seconds: p.turn_seconds,
                    timed_out_player_id: Some(player_id),
                    timed_out_player_idx: Some(p.current_player),
                }),
            ];
            lemma_two_no_timers(head[0], head[1]);
            assert(head == seq![head[0], head[1]]);
            lemma_turn_handed_on(head, ms, g2, p2, h, p.turn_seconds);
            nid
        },
        InputModel::PlayerReconnected { player_id } => {
            let abort = if p.pending.contains(player_id) {
                seq![EffectModel::AbortDisconnectTimeout { player_id }]
            } else {
                Seq::empty()
            };
            if p.pending.contains(player_id) {
                lemma_one_no_timer(abort[0]);
            }
            let k = member_pos(ms, player_id);
            if k < ms.len() {
                let idx = ms[k].player_idx;
                let own = own_full_state(g, player_id, idx);
                if own.len() > 0 {
                    lemma_one_no_timer(own[0]);
                }
                lemma_no_timers_concat(abort, own);
                let bc = seq![
                    EffectModel::Broadcast(EventModel::PlayerReconnected { player_id, player_idx: idx, turn_seconds_remaining: rem }),
                ];
                lemma_one_no_timer(bc[0]);
                lemma_no_timers_concat(abort + own, bc);
                let front = abort + own + bc;
                if idx == p.current_player {
                    lemma_first_where(ms, |m: MemberModel| m.player_id == player_id);
                    assert(ms[k].player_id == player_id);
                    assert(ms[k].player_idx.0 < 2);
                    let j = choose|j: int| 0 <= j < p.participants.len() && #[trigger] p.participants[j].player_id == ms[k].player_id
                        && p.participants[j].player_idx == ms[k].player_idx;
                    assert(p2.participants[j].player_id == player_id);
                    lemma_no_timers_for(front, player_id);
                    lemma_timers_concat(front, seq![EffectModel::StartTurnTimer { player_id, seconds: p.turn_seconds }], player_id);
                } else {
                    assert(front + Seq::<EffectModel>::empty() == front);
                }
            }
            player_id
        },
        InputModel::NetworkDisconnect { player_id } => {
            let k = member_pos(ms, player_id);
            if k < ms.len() {
                let idx = ms[k].player_idx;
                let c = if idx == p.current_player { seq![EffectModel::CancelTurnTimer] } else { Seq::<EffectModel>::empty() };
                if idx == p.current_player {
                    lemma_one_no_timer(EffectModel::CancelTurnTimer);
                }
                let tail = es.subrange(c.len() as int, es.len() as int);
                assert(es == c + tail);
                lemma_two_no_timers(tail[0], tail[1]);
                assert(tail == seq![tail[0], tail[1]]);
                lemma_no_timers_concat(c, tail);
            }
            player_id
        },
        InputModel::PlayerLeft { player_id } => {
            let abort = if p.pending.contains(player_id) {
                seq![EffectModel::AbortDisconnectTimeout { player_id }]
            } else {
                Seq::empty()
            };
            if p.pending.contains(player_id) {
                lemma_one_no_timer(abort[0]);
            }
            let k = member_pos(ms, player_id);
            let w = other_participant_pos(ps, player_id);
            if k < ms.len() {
                if w >= ps.len() {
                    lemma_one_no_timer(EffectModel::CancelTurnTimer);
                    lemma_no_timers_concat(abort, seq![EffectModel::CancelTurnTimer]);
                } else {
                    let ms3 = ms.remove(k);
                    let two = seq![
                        EffectModel::CancelTurnTimer,
                        EffectModel::Broadcast(EventModel::PlayerLeft { player_id, player_idx: ms[k].player_idx }),
                    ];
                    lemma_two_no_timers(two[0], two[1]);
                    assert(two == seq![two[0], two[1]]);
                    lemma_no_timers_concat(abort, two);
                    lemma_result_effects_no_timers(ms3, ps[w].player_id, ps[w].player_idx, left_reason());
                    lemma_no_timers_concat(abort + two, result_effects(ms3, ps[w].player_id, ps[w].player_idx, left_reason()));
                }
            }
            player_id
        },
        InputModel::DisconnectTimeout { player_id } => {
            let k = member_pos(ms, player_id);
            let w = other_participant_pos(ps, player_id);
            lemma_one_no_timer(EffectModel::CancelTurnTimer);
            if !(k >= ms.len() || ms[k].connected) && w < ps.len() {
                let ms3 = ms.remove(k);
                lemma_result_effects_no_timers(ms3, ps[w].player_id, ps[w].player_idx, timeout_reason());
                lemma_no_timers_concat(seq![EffectModel::CancelTurnTimer], result_effects(ms3, ps[w].player_id, ps[w].player_idx, timeout_reason()));
            }
            player_id
        },
        InputModel::IsPlayerKnown { player_id } => {
            lemma_one_no_timer(es[0]);
            player_id
        },
        InputModel::UnsubscribePlayer { player_id } => player_id,
        _ => PlayerId(0),
    }
}

} // verus!
