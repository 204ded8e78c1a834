//! The events a room sends after a successful move, and the full-state
//! messages it sends to everyone.
use vstd::prelude::*;

use crate::actions::{Action, MoveSuccess};
use crate::board::SIDE_STACKS;
use crate::card::{copy_cards, copy_sides, Card};
use crate::full_state::{backs, build_full_state, full_state_model, opt_event_model, pile_model, personal_pile_view, top_of};
use crate::ids::{PlayerId, PlayerIdx, ScaleIdx, Seconds, StackIdx};
use crate::protocol::{events_model, EventModel, ServerEvent};
use crate::room::{
    effects_model, first_where, is_member, lemma_first_where, member_pos, members_model, other_member_pos, EffectModel,
    MemberModel, RoomEffect, RoomMember,
};
use crate::state::GameState;
use crate::state_spec::{find_player, lemma_find_player, GameModel};

verus! {

/// Why the game ended when a player emptied their piles.
pub open spec fn cleared_reason() -> Seq<char> {
    "All cards cleared"@
}

/// At most one event, as a sequence.
pub open spec fn opt_seq(e: Option<EventModel>) -> Seq<EventModel> {
    match e {
        Some(x) => seq![x],
        None => Seq::empty(),
    }
}

/// What the first member not seated at `acting` learns of the board at
/// `acting`: its piles and side stacks, and its hand face down.
pub open spec fn opponent_update_model(ms: Seq<MemberModel>, g: GameModel, acting: PlayerIdx, rem: Seconds) -> Option<EventModel> {
    let p = find_player(g.players, acting);
    let o = other_member_pos(ms, acting);
    if p >= g.players.len() || o >= ms.len() {
        None
    } else {
        let b = g.players[p];
        Some(EventModel::OpponentUpdate {
            player_id: ms[o].player_id,
            player_idx: acting,
            personal_count: b.personal.len(),
            personal_top: top_of(b.personal),
            hand: backs(b.hand),
            side: b.sides,
            turn_seconds_remaining: rem,
        })
    }
}

/// The announcement that `card` went onto scale `scale`.
pub open spec fn played_events(played: Option<Card>, id: PlayerId, idx: PlayerIdx, scale: ScaleIdx, completed: bool, rem: Seconds) -> Seq<EventModel> {
    match played {
        Some(c) => seq![EventModel::CardPlayedOnScale {
            player_id: id,
            player_idx: idx,
            card: c,
            scale_idx: scale,
            completed,
            turn_seconds_remaining: rem,
        }],
        None => Seq::empty(),
    }
}

/// The announcement of the card now on top of side stack `stack` of the
/// board at `idx`, when there is one.
pub open spec fn side_events(g: GameModel, id: PlayerId, idx: PlayerIdx, stack: StackIdx, rem: Seconds) -> Seq<EventModel> {
    let p = find_player(g.players, idx);
    if p < g.players.len() && stack.0 < SIDE_STACKS && g.players[p].sides[stack.0 as int].len() > 0 {
        seq![EventModel::CardPlacedOnSide {
            player_id: id,
            player_idx: idx,
            card: g.players[p].sides[stack.0 as int].last(),
            stack_idx: stack,
            turn_seconds_remaining: rem,
        }]
    } else {
        Seq::empty()
    }
}

/// The new look of the personal pile of the board at `idx`.
pub open spec fn pile_events(g: GameModel, id: PlayerId, idx: PlayerIdx) -> Seq<EventModel> {
    let p = find_player(g.players, idx);
    if p < g.players.len() {
        seq![EventModel::PersonalPileUpdated { player_id: id, player_idx: idx, personal_view: pile_model(g.players[p].personal) }]
    } else {
        Seq::empty()
    }
}

/// The events of a successful `action` by `id` at seat `idx`, in the game
/// `g` after the move, where `played` is the card the move took.
pub open spec fn action_events(
    ms: Seq<MemberModel>,
    g: GameModel,
    action: Action,
    result: MoveSuccess,
    played: Option<Card>,
    id: PlayerId,
    idx: PlayerIdx,
    rem: Seconds,
) -> Seq<EventModel> {
    let ou = opt_seq(opponent_update_model(ms, g, idx, rem));
    let main = match action {
        Action::Draw => ou,
        Action::OpenScale { .. } => match result {
            MoveSuccess::ScaleOpened { scale_id } => played_events(played, id, idx, scale_id, false, rem) + ou,
            _ => Seq::empty(),
        },
        Action::MoveToSide { stack_idx, .. } => side_events(g, id, idx, stack_idx, rem) + ou,
        Action::MovePersonalToSide { stack_idx } => if result is Success {
            side_events(g, id, idx, stack_idx, rem) + pile_events(g, id, idx) + ou
        } else {
            Seq::empty()
        },
        _ => {
            let placed = match result {
                MoveSuccess::ScalePlaced { scale_id, completed } => played_events(played, id, idx, scale_id, completed, rem)
                    + if completed {
                    seq![EventModel::ScaleCompleted { scale_idx: scale_id, by_player_id: id, by_player_idx: idx }]
                } else {
                    Seq::empty()
                },
                MoveSuccess::ScaleOpened { scale_id } => played_events(played, id, idx, scale_id, false, rem),
                _ => Seq::empty(),
            };
            placed + (if action is PlayPersonal { pile_events(g, id, idx) } else { Seq::empty() }) + ou
        },
    };
    main + match result {
        MoveSuccess::GameWon { winner_idx } => seq![EventModel::GameOver { winner_id: id, winner_idx, reason: cleared_reason() }],
        _ => Seq::empty(),
    }
}

/// Where each event goes: an opponent update only to the player it is
/// addressed to, everything else to every member.
pub open spec fn routed(es: Seq<EventModel>) -> Seq<EffectModel> {
    es.map_values(|e: EventModel| match e {
        EventModel::OpponentUpdate { player_id, .. } => EffectModel::SendTo(player_id, e),
        _ => EffectModel::Broadcast(e),
    })
}

/// The name the member at position `i` sees for the other player: the
/// username of the first other member, or nothing.
pub open spec fn opponent_name(ms: Seq<MemberModel>, i: int) -> Seq<char> {
    let o = first_where(ms, |m: MemberModel| m.player_id != ms[i].player_id);
    if o < ms.len() { ms[o].username } else { Seq::empty() }
}

/// The full-state messages for the first `n` members.
pub open spec fn full_state_effects(ms: Seq<MemberModel>, g: GameState, n: int) -> Seq<EffectModel>
    decreases n,
{
    if n <= 0 {
        Seq::empty()
    } else {
        let prev = full_state_effects(ms, g, n - 1);
        let m = ms[n - 1];
        match full_state_model(g, m.player_id, m.player_idx, opponent_name(ms, n - 1)) {
            Some(e) => prev.push(EffectModel::SendTo(m.player_id, e)),
            None => prev,
        }
    }
}

proof fn lemma_push_events(es: Seq<ServerEvent>, e: ServerEvent)
    ensures
        events_model(es.push(e)) == events_model(es).push(e.model()),
{
    assert(events_model(es.push(e)) =~= events_model(es).push(e.model()));
}

proof fn lemma_push_effects(es: Seq<RoomEffect>, e: RoomEffect)
    ensures
        effects_model(es.push(e)) == effects_model(es).push(e.model()),
{
    assert(effects_model(es.push(e)) =~= effects_model(es).push(e.model()));
}

/// Appends `e` to `events`.
fn push_event(events: &mut Vec<ServerEvent>, e: ServerEvent)
    ensures
        events_model(final(events)@) == events_model(old(events)@).push(e.model()),
{
    proof {
        lemma_push_events(events@, e);
    }
    events.push(e);
}

/// Appends `e` to `effects`.
pub(crate) fn push_effect(effects: &mut Vec<RoomEffect>, e: RoomEffect)
    ensures
        effects_model(final(effects)@) == effects_model(old(effects)@).push(e.model()),
{
    proof {
        lemma_push_effects(effects@, e);
    }
    effects.push(e);
}

/// Position of the first member not seated at `idx`, if any.
fn find_other_member(members: &Vec<RoomMember>, idx: PlayerIdx) -> (r: Option<usize>)
    ensures
        ({
            let o = other_member_pos(members_model(members@), idx);
            &&& o < members@.len() ==> r == Some(o as usize)
            &&& o >= members@.len() ==> r is None
            &&& r matches Some(i) ==> i < members@.len() && i == o
        }),
{
    let ghost ms = members_model(members@);
    let ghost pred = |m: MemberModel| m.player_idx != idx;
    let mut i: usize = 0;
    while i < members.len()
        invariant
            i <= members@.len(),
            ms == members_model(members@),
            pred == (|m: MemberModel| m.player_idx != idx),
            forall|j: int| 0 <= j < i ==> (#[trigger] members@[j]).player_idx == idx,
        decreases members@.len() - i,
    {
        if members[i].player_idx != idx {
            proof {
                lemma_first_where(ms, pred);
                let p = first_where(ms, pred);
                assert(ms[i as int] == members@[i as int].model());
                if p < i {
                    assert(ms[p] == members@[p].model());
                }
            }
            return Some(i);
        }
        i = i + 1;
    }
    proof {
        lemma_first_where(ms, pred);
        let p = first_where(ms, pred);
        if p < ms.len() {
            assert(ms[p] == members@[p].model());
        }
    }
    None
}

/// What the first member not seated at `acting` is told about the board at
/// `acting` after a move: its piles and side stacks, and its hand face down.
/// `None` when there is no such board or no such member.
pub fn opponent_update(members: &Vec<RoomMember>, state: &GameState, acting: PlayerIdx, remaining: Seconds)
    -> (r: Option<ServerEvent>)
    ensures
        opt_event_model(r) == opponent_update_model(members_model(members@), state@, acting, remaining),
{
    proof {
        lemma_find_player(state@.players, acting);
    }
    let board = match state.player(acting) {
        Some(b) => b,
        None => {
            return None;
        },
    };
    let o = match find_other_member(members, acting) {
        Some(o) => o,
        None => {
            return None;
        },
    };
    let ghost p = find_player(state@.players, acting);
    proof {
        assert(state@.players[p] == state.players@[p].model());
        assert(members_model(members@)[o as int] == members@[o as int].model());
    }
    let top = match board.personal_top() {
        Some(c) => Some(*c),
        None => None,
    };
    let mut hand: Vec<Card> = Vec::with_capacity(board.hand.len());
    let mut i: usize = 0;
    while i < board.hand.len()
        invariant
            i <= board.hand@.len(),
            hand@ == backs(board.hand@).subrange(0, i as int),
        decreases board.hand@.len() - i,
    {
        hand.push(board.hand[i].dummy_card());
        i = i + 1;
        proof {
            assert(hand@ =~= backs(board.hand@).subrange(0, i as int));
        }
    }
    proof {
        assert(hand@ =~= backs(board.hand@));
    }
    let side = copy_sides(&board.side);
    proof {
        assert(crate::protocol::side_model(side) =~= state@.players[p].sides);
    }
    Some(ServerEvent::OpponentUpdate {
        player_id: members[o].player_id,
        player_idx: acting,
        personal_count: board.personal.len(),
        personal_top: top,
        hand,
        side,
        turn_seconds_remaining: remaining,
    })
}

/// Appends the announcement that `played` went onto scale `scale`.
fn push_played(events: &mut Vec<ServerEvent>, played: Option<Card>, id: PlayerId, idx: PlayerIdx, scale: ScaleIdx, completed: bool, rem: Seconds)
    ensures
        events_model(final(events)@) == events_model(old(events)@) + played_events(played, id, idx, scale, completed, rem),
{
    match played {
        Some(c) => {
            push_event(events, ServerEvent::CardPlayedOnScale {
                player_id: id,
                player_idx: idx,
                card: c,
                scale_idx: scale,
                completed,
                turn_seconds_remaining: rem,
            });
            proof {
                assert(events_model(events@) =~= events_model(old(events)@) + played_events(played, id, idx, scale, completed, rem));
            }
        },
        None => {
            proof {
                assert(events_model(events@) =~= events_model(old(events)@) + played_events(played, id, idx, scale, completed, rem));
            }
        },
    }
}

/// Appends the announcement of the card on top of side stack `stack`.
fn push_side(events: &mut Vec<ServerEvent>, state: &GameState, id: PlayerId, idx: PlayerIdx, stack: StackIdx, rem: Seconds)
    ensures
        events_model(final(events)@) == events_model(old(events)@) + side_events(state@, id, idx, stack, rem),
{
    proof {
        lemma_find_player(state@.players, idx);
    }
    let ghost p = find_player(state@.players, idx);
    match state.player(idx) {
        Some(b) => {
            proof {
                assert(state@.players[p] == state.players@[p].model());
            }
            let s = stack.as_usize();
            if s < SIDE_STACKS && b.side[s].len() > 0 {
                let card = b.side[s][b.side[s].len() - 1];
                push_event(events, ServerEvent::CardPlacedOnSide {
                    player_id: id,
                    player_idx: idx,
                    card,
                    stack_idx: stack,
                    turn_seconds_remaining: rem,
                });
            }
        },
        None => {},
    }
    proof {
        assert(events_model(events@) =~= events_model(old(events)@) + side_events(state@, id, idx, stack, rem));
    }
}

/// Appends the new look of the personal pile of the board at `idx`.
fn push_pile(events: &mut Vec<ServerEvent>, state: &GameState, id: PlayerId, idx: PlayerIdx)
    ensures
        events_model(final(events)@) == events_model(old(events)@) + pile_events(state@, id, idx),
{
    proof {
        lemma_find_player(state@.players, idx);
    }
    let ghost p = find_player(state@.players, idx);
    match state.player(idx) {
        Some(b) => {
            proof {
                assert(state@.players[p] == state.players@[p].model());
            }
            push_event(events, ServerEvent::PersonalPileUpdated {
                player_id: id,
                player_idx: idx,
                personal_view: personal_pile_view(b),
            });
        },
        None => {},
    }
    proof {
        assert(events_model(events@) =~= events_model(old(events)@) + pile_events(state@, id, idx));
    }
}

/// Appends the opponent update, when there is one.
fn push_opponent_update(events: &mut Vec<ServerEvent>, members: &Vec<RoomMember>, state: &GameState, idx: PlayerIdx, rem: Seconds)
    ensures
        events_model(final(events)@) == events_model(old(events)@)
            + opt_seq(opponent_update_model(members_model(members@), state@, idx, rem)),
{
    match opponent_update(members, state, idx, rem) {
        Some(e) => {
            push_event(events, e);
        },
        None => {},
    }
    proof {
        assert(events_model(events@) =~= events_model(old(events)@)
            + opt_seq(opponent_update_model(members_model(members@), state@, idx, rem)));
    }
}

/// The events that announce a successful `action` by `player_id` (seated
/// at `player_idx`) with outcome `result`, in the game as it is after the
/// move; `played` is the card the move took (for plays onto a scale). The
/// opponent update goes to the first member not seated at `player_idx`.
pub fn generate_events(
    members: &Vec<RoomMember>,
    state: &GameState,
    action: &Action,
    result: &MoveSuccess,
    played: Option<Card>,
    player_id: PlayerId,
    player_idx: PlayerIdx,
    turn_seconds_remaining: Seconds,
) -> (r: Vec<ServerEvent>)
    ensures
        events_model(r@) == action_events(
            members_model(members@),
            state@,
            *action,
            *result,
            played,
            player_id,
            player_idx,
            turn_seconds_remaining,
        ),
{
    let mut events: Vec<ServerEvent> = Vec::new();
    let rem = turn_seconds_remaining;
    let id = player_id;
    let idx = player_idx;
    proof {
        assert(events_model(events@) =~= Seq::<EventModel>::empty());
    }
    match action {
        Action::Draw => {
            push_opponent_update(&mut events, members, state, idx, rem);
        },
        Action::OpenScale { .. } => {
            match result {
                MoveSuccess::ScaleOpened { scale_id } => {
                    push_played(&mut events, played, id, idx, *scale_id, false, rem);
                    push_opponent_update(&mut events, members, state, idx, rem);
                },
                _ => {},
            }
        },
        Action::MoveToSide { stack_idx, .. } => {
            push_side(&mut events, state, id, idx, *stack_idx, rem);
            push_opponent_update(&mut events, members, state, idx, rem);
        },
        Action::MovePersonalToSide { stack_idx } => {
            match result {
                MoveSuccess::Success => {
                    push_side(&mut events, state, id, idx, *stack_idx, rem);
                    push_pile(&mut events, state, id, idx);
                    push_opponent_update(&mut events, members, state, idx, rem);
                },
                _ => {},
            }
        },
        _ => {
            match result {
                MoveSuccess::ScalePlaced { scale_id, completed } => {
                    push_played(&mut events, played, id, idx, *scale_id, *completed, rem);
                    if *completed {
                        push_event(&mut events, ServerEvent::ScaleCompleted {
                            scale_idx: *scale_id,
                            by_player_id: id,
                            by_player_idx: idx,
                        });
                    }
                },
                MoveSuccess::ScaleOpened { scale_id } => {
                    push_played(&mut events, played, id, idx, *scale_id, false, rem);
                },
                _ => {},
            }
            match action {
                Action::PlayPersonal { .. } => {
                    push_pile(&mut events, state, id, idx);
                },
                _ => {},
            }
            push_opponent_update(&mut events, members, state, idx, rem);
        },
    }
    let ghost main = events_model(events@);
    match result {
        MoveSuccess::GameWon { winner_idx } => {
            push_event(&mut events, ServerEvent::GameOver {
                winner_id: id,
                winner_idx: *winner_idx,
                reason: "All cards cleared".to_string(),
            });
        },
        _ => {},
    }
    proof {
        let ms = members_model(members@);
        let expected = action_events(ms, state@, *action, *result, played, id, idx, rem);
        assert(events_model(events@) =~= expected);
    }
    events
}

/// The card `action` would take from the board at `idx`: the hand card,
/// the top personal card or the top side card it names; `None` for other
/// actions, or when there is no such card.
pub open spec fn taken_card(g: GameModel, idx: PlayerIdx, action: Action) -> Option<Card> {
    let p = find_player(g.players, idx);
    if p >= g.players.len() {
        None
    } else {
        let b = g.players[p];
        match action {
            Action::OpenScale { hand_idx } => if hand_idx.0 < b.hand.len() { Some(b.hand[hand_idx.0 as int]) } else { None },
            Action::PlayHand { hand_idx, .. } => if hand_idx.0 < b.hand.len() { Some(b.hand[hand_idx.0 as int]) } else { None },
            Action::PlayPersonal { .. } => top_of(b.personal),
            Action::PlaySide { stack_idx, .. } => if stack_idx.0 < SIDE_STACKS {
                top_of(b.sides[stack_idx.0 as int])
            } else {
                None
            },
            _ => None,
        }
    }
}

/// The card `action` would take from the board at `idx` (see `taken_card`).
pub fn card_taken(state: &GameState, idx: PlayerIdx, action: &Action) -> (r: Option<Card>)
    ensures
        r == taken_card(state@, idx, *action),
{
    proof {
        lemma_find_player(state@.players, idx);
    }
    let ghost p = find_player(state@.players, idx);
    let b = match state.player(idx) {
        Some(b) => b,
        None => {
            return None;
        },
    };
    proof {
        assert(state@.players[p] == state.players@[p].model());
    }
    match action {
        Action::OpenScale { hand_idx } => if hand_idx.as_usize() < b.hand.len() {
            Some(b.hand[hand_idx.as_usize()])
        } else {
            None
        },
        Action::PlayHand { hand_idx, .. } => if hand_idx.as_usize() < b.hand.len() {
            Some(b.hand[hand_idx.as_usize()])
        } else {
            None
        },
        Action::PlayPersonal { .. } => match b.personal_top() {
            Some(c) => Some(*c),
            None => None,
        },
        Action::PlaySide { stack_idx, .. } => {
            let s = stack_idx.as_usize();
            if s < SIDE_STACKS && b.side[s].len() > 0 {
                Some(b.side[s][b.side[s].len() - 1])
            } else {
                None
            }
        },
        _ => None,
    }
}

/// The messages that announce a successful move by the member `acting_id`:
/// the events of `generate_events`, each opponent update sent only to its
/// addressee and every other event to all members.
pub fn process_action(
    members: &Vec<RoomMember>,
    state: &GameState,
    action: &Action,
    result: &MoveSuccess,
    played: Option<Card>,
    acting_id: PlayerId,
    turn_seconds_remaining: Seconds,
) -> (r: Vec<RoomEffect>)
    requires
        is_member(members_model(members@), acting_id),
    ensures
        ({
            let ms = members_model(members@);
            let idx = ms[member_pos(ms, acting_id)].player_idx;
            effects_model(r@) == routed(action_events(ms, state@, *action, *result, played, acting_id, idx, turn_seconds_remaining))
        }),
{
    let pos = match crate::room::find_member(members, acting_id) {
        Some(p) => p,
        None => {
            return Vec::new();
        },
    };
    proof {
        assert(members_model(members@)[pos as int] == members@[pos as int].model());
    }
    let idx = members[pos].player_idx;
    let mut events = generate_events(members, state, action, result, played, acting_id, idx, turn_seconds_remaining);
    let total = events.len();
    let ghost em = events_model(events@);
    let ghost n = events@.len();
    let mut effects: Vec<RoomEffect> = Vec::new();
    let mut k: usize = 0;
    while events.len() > 0
        invariant
            k + events@.len() == n,
            n == em.len(),
            n == total,
            events_model(events@) == em.subrange(k as int, n as int),
            effects_model(effects@) == routed(em).subrange(0, k as int),
        decreases events@.len(),
    {
        let ghost before = events@;
        let e = events.remove(0);
        proof {
            assert(events_model(before)[0] == e.model());
            assert(em[k as int] == e.model());
            assert(events@ =~= before.drop_first());
            assert(events_model(events@) =~= events_model(before).drop_first());
            assert(events_model(events@) =~= em.subrange(k + 1, n as int));
        }
        let eff = match e {
            ServerEvent::OpponentUpdate { player_id, personal_count, personal_top, hand, side, turn_seconds_remaining, player_idx } => {
                let to = player_id;
                RoomEffect::SendTo(to, ServerEvent::OpponentUpdate {
                    player_id,
                    player_idx,
                    personal_count,
                    personal_top,
                    hand,
                    side,
                    turn_seconds_remaining,
                })
            },
            other => RoomEffect::Broadcast(other),
        };
        push_effect(&mut effects, eff);
        k = k + 1;
        proof {
            assert(effects_model(effects@) =~= routed(em).subrange(0, k as int));
        }
    }
    proof {
        assert(effects_model(effects@) =~= routed(em));
    }
    effects
}

/// Position of the first member whose id is not `id`, if any.
fn find_member_not(members: &Vec<RoomMember>, id: PlayerId) -> (r: Option<usize>)
    ensures
        ({
            let o = first_where(members_model(members@), |m: MemberModel| m.player_id != id);
            &&& o < members@.len() ==> r == Some(o as usize)
            &&& o >= members@.len() ==> r is None
            &&& r matches Some(i) ==> i < members@.len() && i == o
        }),
{
    let ghost ms = members_model(members@);
    let ghost pred = |m: MemberModel| m.player_id != id;
    let mut i: usize = 0;
    while i < members.len()
        invariant
            i <= members@.len(),
            ms == members_model(members@),
            pred == (|m: MemberModel| m.player_id != id),
            forall|j: int| 0 <= j < i ==> (#[trigger] members@[j]).player_id == id,
        decreases members@.len() - i,
    {
        if members[i].player_id != id {
            proof {
                lemma_first_where(ms, pred);
                let p = first_where(ms, pred);
                assert(ms[i as int] == members@[i as int].model());
                if p < i {
                    assert(ms[p] == members@[p].model());
                }
            }
            return Some(i);
        }
        i = i + 1;
    }
    proof {
        lemma_first_where(ms, pred);
        let p = first_where(ms, pred);
        if p < ms.len() {
            assert(ms[p] == members@[p].model());
        }
    }
    None
}

/// The full state of the game for every member, each under their own seat
/// and with the other member's username as the opponent's name; members
/// without a board get nothing.
pub fn send_full_state(members: &Vec<RoomMember>, state: &GameState) -> (r: Vec<RoomEffect>)
    ensures
        effects_model(r@) == full_state_effects(members_model(members@), *state, members@.len() as int),
{
    let ghost ms = members_model(members@);
    let mut effects: Vec<RoomEffect> = Vec::new();
    let mut i: usize = 0;
    while i < members.len()
        invariant
            i <= members@.len(),
            ms == members_model(members@),
            effects_model(effects@) == full_state_effects(ms, *state, i as int),
        decreases members@.len() - i,
    {
        let id = members[i].player_id;
        let idx = members[i].player_idx;
        proof {
            assert(ms[i as int] == members@[i as int].model());
        }
        let name = match find_member_not(members, id) {
            Some(o) => {
                proof {
                    assert(ms[o as int] == members@[o as int].model());
                }
                members[o].username.clone()
            },
            None => String::new(),
        };
        proof {
            assert(name@ == opponent_name(ms, i as int));
        }
        match build_full_state(state, id, idx, name) {
            Some(e) => {
                push_effect(&mut effects, RoomEffect::SendTo(id, e));
            },
            None => {},
        }
        i = i + 1;
    }
    effects
}

} // verus!
