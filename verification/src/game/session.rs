//! A room of the first rule set: a player's request on their turn, the
//! turn timer running out, and the state sent to every player after each.
use vstd::prelude::*;

use crate::actions::TurnPhase;
use crate::card::{copy_cards, copy_sides, Card};
use crate::game::board::PlayerBoard;
use crate::game::result::PlayResult;
use crate::game::scale::Scale;
use crate::outside::{read_request, request_fields};
use crate::game::state::{
    board_view, board_views, find_owner, first_emptied, first_other, first_rules_draw, lemma_find_owner,
    lemma_first_emptied, lemma_first_other, personal_to_side, play_taken, withdraw_effect, BoardView, GamePhase,
    GameState, StateView,
};

verus! {

/// A request of the player on turn.
#[derive(Debug, Clone, Copy, PartialEq, Eq, Structural)]
pub enum Command {
    PlayHandToScale { index: usize },
    PlayPersonalToScale,
    PlayPersonalToSide { index: usize },
    PlaySideToScale { stack: usize },
    WithdrawToSide { index: usize, stack: usize },
    /// End the turn without playing.
    Pass,
}

/// What the room tells its players.
#[derive(Debug, Clone)]
pub enum RoomEvent {
    PlayerJoined { username: String },
    GameStarted { current_player_id: String },
    PlayerLeft { username: String },
    GameOver { winner: String, reason: String },
    CardDrawn { player_id: String, card: Card },
    TurnTimeout { player_id: String },
    TurnChanged { current_player_id: String, seconds: u64 },
    ScaleUpdated { scale_id: usize, completed: bool, player_id: String },
    StateSync {
        your_board: PlayerBoard,
        opponent_personal_count: usize,
        opponent_personal_top: Option<Card>,
        opponent_side: [Vec<Card>; 4],
        opponent_username: String,
        scales: Vec<Scale>,
    },
}

/// What the room asks its caller to do.
#[derive(Debug, Clone)]
pub enum SessionEffect {
    /// Send the event to every player.
    Send(RoomEvent),
    /// After `seconds`, run `turn_timer_fired` with `expected_turn`.
    StartTurnTimer { seconds: u64, expected_turn: usize },
}

/// An event as plain values.
pub enum RoomEventModel {
    PlayerJoined { username: Seq<char> },
    GameStarted { current_player_id: Seq<char> },
    PlayerLeft { username: Seq<char> },
    GameOver { winner: Seq<char>, reason: Seq<char> },
    CardDrawn { player_id: Seq<char>, card: Card },
    TurnTimeout { player_id: Seq<char> },
    TurnChanged { current_player_id: Seq<char>, seconds: u64 },
    ScaleUpdated { scale_id: usize, completed: bool, player_id: Seq<char> },
    StateSync {
        your_board: BoardView,
        opponent_personal_count: nat,
        opponent_personal_top: Option<Card>,
        opponent_side: Seq<Seq<Card>>,
        opponent_username: Seq<char>,
        scales: Seq<(usize, Seq<Card>)>,
    },
}

/// An effect as plain values.
pub enum SessionEffectModel {
    Send(RoomEventModel),
    StartTurnTimer { seconds: u64, expected_turn: usize },
}

/// The scales as plain values: each one's number and cards.
pub open spec fn scales_model(scales: Seq<Scale>) -> Seq<(usize, Seq<Card>)> {
    Seq::new(scales.len(), |i: int| (scales[i].id, scales[i].cards@))
}

impl RoomEvent {
    pub open spec fn model(&self) -> RoomEventModel {
        match *self {
            RoomEvent::PlayerJoined { username } => RoomEventModel::PlayerJoined { username: username@ },
            RoomEvent::GameStarted { current_player_id } => RoomEventModel::GameStarted { current_player_id: current_player_id@ },
            RoomEvent::PlayerLeft { username } => RoomEventModel::PlayerLeft { username: username@ },
            RoomEvent::GameOver { winner, reason } => RoomEventModel::GameOver { winner: winner@, reason: reason@ },
            RoomEvent::CardDrawn { player_id, card } => RoomEventModel::CardDrawn { player_id: player_id@, card },
            RoomEvent::TurnTimeout { player_id } => RoomEventModel::TurnTimeout { player_id: player_id@ },
            RoomEvent::TurnChanged { current_player_id, seconds } =>
                RoomEventModel::TurnChanged { current_player_id: current_player_id@, seconds },
            RoomEvent::ScaleUpdated { scale_id, completed, player_id } =>
                RoomEventModel::ScaleUpdated { scale_id, completed, player_id: player_id@ },
            RoomEvent::StateSync {
                your_board,
                opponent_personal_count,
                opponent_personal_top,
                opponent_side,
                opponent_username,
                scales,
            } => RoomEventModel::StateSync {
                your_board: board_view(your_board),
                opponent_personal_count: opponent_personal_count as nat,
                opponent_personal_top,
                opponent_side: Seq::new(4, |i: int| opponent_side[i]@),
                opponent_username: opponent_username@,
                scales: scales_model(scales@),
            },
        }
    }
}

impl SessionEffect {
    pub open spec fn model(&self) -> SessionEffectModel {
        match *self {
            SessionEffect::Send(e) => SessionEffectModel::Send(e.model()),
            SessionEffect::StartTurnTimer { seconds, expected_turn } => SessionEffectModel::StartTurnTimer { seconds, expected_turn },
        }
    }
}

pub open spec fn session_model(es: Seq<SessionEffect>) -> Seq<SessionEffectModel> {
    es.map_values(|e: SessionEffect| e.model())
}

pub open spec fn emptied_reason() -> Seq<char> {
    "personal stack emptied"@
}

/// The id of the player on turn, or nothing.
pub open spec fn current_id(m: StateView) -> Seq<char> {
    if m.current_turn < m.players.len() { m.players[m.current_turn as int].player_id } else { Seq::empty() }
}

/// What `cmd` does to the game `m` of the player on turn, and its answer.
pub open spec fn command_step(m: StateView, cmd: Command) -> (StateView, PlayResult) {
    let i = m.current_turn as int;
    let b = m.players[i];
    match cmd {
        Command::PlayHandToScale { index } => if index >= b.hand.len() {
            (m, PlayResult::InvalidIndex)
        } else {
            play_taken(m, i, BoardView { hand: b.hand.remove(index as int), ..b }, b.hand[index as int])
        },
        Command::PlayPersonalToScale => if b.personal.len() == 0 {
            (m, PlayResult::InvalidIndex)
        } else {
            play_taken(m, i, BoardView { personal: b.personal.drop_last(), ..b }, b.personal.last())
        },
        Command::PlayPersonalToSide { index } => personal_to_side(m, i, index),
        Command::PlaySideToScale { stack } => if stack >= 4 || b.sides[stack as int].len() == 0 {
            (m, PlayResult::InvalidIndex)
        } else {
            let st = stack as int;
            play_taken(m, i, BoardView { sides: b.sides.update(st, b.sides[st].drop_last()), ..b }, b.sides[st].last())
        },
        Command::WithdrawToSide { index, stack } => withdraw_effect(m, i, index, stack),
        Command::Pass => (
            StateView {
                current_turn: ((m.current_turn + 1) % (m.players.len() as int)) as usize,
                turn_phase: TurnPhase::Draw,
                ..m
            },
            PlayResult::TurnEnded,
        ),
    }
}

/// The next player draws one card, if there is one to draw.
pub open spec fn draw_for_next(m: StateView) -> (StateView, Option<Card>) {
    let i = m.current_turn as int;
    let b = m.players[i];
    let (d, x, c) = first_rules_draw(m.draw, m.discard);
    match c {
        Some(card) => (
            StateView { players: m.players.update(i, BoardView { hand: b.hand.push(card), ..b }), draw: d, discard: x, ..m },
            Some(card),
        ),
        None => (m, None),
    }
}

/// What follows an answer `r` to a request by `pid` (game now `m`): the
/// game after it and what is sent, before the state sync.
pub open spec fn after_answer(m: StateView, pid: Seq<char>, r: PlayResult, seconds: u64) -> (StateView, Seq<SessionEffectModel>) {
    match r {
        PlayResult::Won => {
            let w = first_emptied(m.players);
            let winner = if w < m.players.len() { m.players[w].username } else { Seq::empty() };
            (
                StateView { phase: GamePhase::Finished, ..m },
                seq![SessionEffectModel::Send(RoomEventModel::GameOver { winner, reason: emptied_reason() })],
            )
        },
        PlayResult::TurnEnded => {
            let next = current_id(m);
            let (m2, drawn) = draw_for_next(m);
            let shown = match drawn {
                Some(card) => seq![SessionEffectModel::Send(RoomEventModel::CardDrawn { player_id: next, card })],
                None => Seq::empty(),
            };
            (m2, shown + seq![
                SessionEffectModel::Send(RoomEventModel::TurnChanged { current_player_id: next, seconds }),
                SessionEffectModel::StartTurnTimer { seconds, expected_turn: m.current_turn },
            ])
        },
        PlayResult::Placed { scale_id, completed } => (
            m,
            seq![SessionEffectModel::Send(RoomEventModel::ScaleUpdated { scale_id, completed, player_id: pid })],
        ),
        _ => (m, Seq::empty()),
    }
}

/// The state sync for the first `n` boards of `g`: each owner's board and
/// what they see of the first other board, when both exist.
pub open spec fn sync_effects(g: GameState, n: int) -> Seq<SessionEffectModel>
    decreases n,
{
    if n <= 0 {
        Seq::empty()
    } else {
        let prev = sync_effects(g, n - 1);
        let m = g@;
        let id = m.players[n - 1].player_id;
        let me = find_owner(m.players, id);
        let opp = first_other(m.players, id);
        if me < m.players.len() && opp < m.players.len() {
            let o = m.players[opp];
            prev.push(SessionEffectModel::Send(RoomEventModel::StateSync {
                your_board: m.players[me],
                opponent_personal_count: o.personal.len(),
                opponent_personal_top: if o.personal.len() > 0 { Some(o.personal.last()) } else { None },
                opponent_side: o.sides,
                opponent_username: o.username,
                scales: scales_model(g.scales@),
            }))
        } else {
            prev
        }
    }
}

proof fn lemma_push_session(es: Seq<SessionEffect>, e: SessionEffect)
    ensures
        session_model(es.push(e)) == session_model(es).push(e.model()),
{
    assert(session_model(es.push(e)) =~= session_model(es).push(e.model()));
}

fn push_session(effects: &mut Vec<SessionEffect>, e: SessionEffect)
    ensures
        session_model(final(effects)@) == session_model(old(effects)@).push(e.model()),
{
    proof {
        lemma_push_session(effects@, e);
    }
    effects.push(e);
}

/// A copy of the scales.
fn copy_scales(scales: &Vec<Scale>) -> (r: Vec<Scale>)
    ensures
        scales_model(r@) == scales_model(scales@),
{
    let mut r: Vec<Scale> = Vec::with_capacity(scales.len());
    let mut i: usize = 0;
    while i < scales.len()
        invariant
            i <= scales@.len(),
            r@.len() == i,
            scales_model(r@) == scales_model(scales@).subrange(0, i as int),
        decreases scales@.len() - i,
    {
        let ghost old_r = r@;
        let s = Scale { id: scales[i].id, cards: copy_cards(&scales[i].cards) };
        r.push(s);
        proof {
            assert(r@ == old_r.push(s));
            assert forall|j: int| 0 <= j < r@.len() implies #[trigger] scales_model(r@)[j] == scales_model(scales@)[j] by {
                if j < i {
                    assert(r@[j] == old_r[j]);
                    assert(scales_model(old_r)[j] == scales_model(scales@).subrange(0, i as int)[j]);
                }
            }
        }
        i = i + 1;
        proof {
            assert(scales_model(r@) =~= scales_model(scales@).subrange(0, i as int));
        }
    }
    proof {
        assert(scales_model(r@) =~= scales_model(scales@));
    }
    r
}

/// A copy of a string.
fn copy_text(s: &str) -> (r: String)
    ensures
        r@ == s@,
{
    s.to_string()
}

/// The state sync: for each board in order, its owner's board and what
/// they see of the first other board, when both exist.
pub fn broadcast_state_sync(gs: &GameState) -> (r: Vec<SessionEffect>)
    ensures
        session_model(r@) == sync_effects(*gs, gs.players@.len() as int),
{
    let mut effects: Vec<SessionEffect> = Vec::new();
    let mut i: usize = 0;
    proof {
        assert(session_model(effects@) =~= Seq::<SessionEffectModel>::empty());
    }
    while i < gs.players.len()
        invariant
            i <= gs.players@.len(),
            session_model(effects@) == sync_effects(*gs, i as int),
        decreases gs.players@.len() - i,
    {
        proof {
            assert(gs@.players[i as int] == board_view(gs.players@[i as int]));
            lemma_find_owner(gs@.players, gs.players@[i as int].player_id@);
            lemma_first_other(gs@.players, gs.players@[i as int].player_id@);
        }
        match gs.state_sync_for(gs.players[i].player_id.as_str()) {
            Some((board, count, top, side, name)) => {
                let ghost me = find_owner(gs@.players, gs.players@[i as int].player_id@);
                proof {
                    assert(gs@.players[me] == board_view(gs.players@[me]));
                    assert(board_view(board) =~= board_view(gs.players@[me]));
                }
                push_session(&mut effects, SessionEffect::Send(RoomEvent::StateSync {
                    your_board: board,
                    opponent_personal_count: count,
                    opponent_personal_top: top,
                    opponent_side: side,
                    opponent_username: name,
                    scales: copy_scales(&gs.scales),
                }));
            },
            None => {},
        }
        i = i + 1;
    }
    effects
}

/// Whether `a` and `b` are the same text.
fn same_text(a: &str, b: &str) -> (r: bool)
    ensures
        r == (a@ == b@),
{
    let x = a.to_string();
    let y = b.to_string();
    x == y
}

/// What follows an answer (see `after_answer`).
fn answer_effects(gs: &mut GameState, pid: &str, r: PlayResult) -> (e: Vec<SessionEffect>)
    requires
        old(gs).wf(),
        old(gs).current_turn < old(gs).players@.len(),
    ensures
        ({
            let (m2, es) = after_answer(old(gs)@, pid@, r, old(gs).turn_seconds);
            &&& final(gs)@ == m2
            &&& session_model(e@) == es
        }),
        final(gs).wf(),
        final(gs).scales@ == old(gs).scales@,
        final(gs).turn_seconds == old(gs).turn_seconds,
{
    let mut effects: Vec<SessionEffect> = Vec::new();
    proof {
        assert(session_model(effects@) =~= Seq::<SessionEffectModel>::empty());
    }
    match r {
        PlayResult::Won => {
            proof {
                lemma_first_emptied(gs@.players);
            }
            let winner = match gs.winner() {
                Some(b) => {
                    proof {
                        let w = first_emptied(gs@.players);
                        assert(gs@.players[w] == board_view(gs.players@[w]));
                    }
                    b.username.clone()
                },
                None => String::new(),
            };
            gs.phase = GamePhase::Finished;
            push_session(&mut effects, SessionEffect::Send(RoomEvent::GameOver {
                winner,
                reason: "personal stack emptied".to_string(),
            }));
            proof {
                assert(session_model(effects@) =~= after_answer(old(gs)@, pid@, r, old(gs).turn_seconds).1);
            }
        },
        PlayResult::TurnEnded => {
            let next = match gs.current_player_id() {
                Some(s) => copy_text(s),
                None => String::new(),
            };
            proof {
                if gs.current_turn < gs.players@.len() {
                    assert(gs@.players[gs.current_turn as int] == board_view(gs.players@[gs.current_turn as int]));
                }
            }
            let secs = gs.turn_seconds;
            let turn = gs.current_turn;
            let drawn = gs.draw_for_current();
            if drawn.len() > 0 {
                push_session(&mut effects, SessionEffect::Send(RoomEvent::CardDrawn {
                    player_id: next.clone(),
                    card: drawn[0],
                }));
            }
            push_session(&mut effects, SessionEffect::Send(RoomEvent::TurnChanged { current_player_id: next, seconds: secs }));
            push_session(&mut effects, SessionEffect::StartTurnTimer { seconds: secs, expected_turn: turn });
            proof {
                assert(session_model(effects@) =~= after_answer(old(gs)@, pid@, r, old(gs).turn_seconds).1);
            }
        },
        PlayResult::Placed { scale_id, completed } => {
            push_session(&mut effects, SessionEffect::Send(RoomEvent::ScaleUpdated {
                scale_id,
                completed,
                player_id: copy_text(pid),
            }));
            proof {
                assert(session_model(effects@) =~= after_answer(old(gs)@, pid@, r, old(gs).turn_seconds).1);
            }
        },
        _ => {},
    }
    effects
}

/// Runs a request by player `pid` (see `command_step` and `after_answer`),
/// then sends the state sync. Nothing happens unless the game runs and
/// `pid` is on turn.
pub fn handle_action(gs: &mut GameState, pid: &str, cmd: Command) -> (r: Vec<SessionEffect>)
    requires
        old(gs).wf(),
    ensures
        final(gs).wf(),
        !(old(gs).phase == GamePhase::Playing && old(gs).current_turn < old(gs).players@.len() && current_id(old(gs)@) == pid@)
            ==> *final(gs) == *old(gs) && r@ == Seq::<SessionEffect>::empty(),
        old(gs).phase == GamePhase::Playing && old(gs).current_turn < old(gs).players@.len() && current_id(old(gs)@) == pid@ ==> {
            let (m1, res) = command_step(old(gs)@, cmd);
            let (m2, es) = after_answer(m1, pid@, res, old(gs).turn_seconds);
            &&& final(gs)@ == m2
            &&& session_model(r@) == es + sync_effects(*final(gs), final(gs).players@.len() as int)
        },
{
    if gs.phase != GamePhase::Playing {
        return Vec::new();
    }
    let on_turn = match gs.current_player_id() {
        Some(cur) => same_text(cur, pid),
        None => false,
    };
    proof {
        if gs.current_turn < gs.players@.len() {
            assert(gs@.players[gs.current_turn as int] == board_view(gs.players@[gs.current_turn as int]));
        }
    }
    if !on_turn {
        return Vec::new();
    }
    let result = match cmd {
        Command::PlayHandToScale { index } => gs.play_hand_to_scale(index),
        Command::PlayPersonalToScale => gs.play_personal_to_scale(),
        Command::PlayPersonalToSide { index } => gs.play_personal_to_side(index),
        Command::PlaySideToScale { stack } => gs.play_side_to_scale(stack),
        Command::WithdrawToSide { index, stack } => gs.withdraw_hand_to_side(index, stack),
        Command::Pass => {
            gs.advance_turn();
            PlayResult::TurnEnded
        },
    };
    proof {
        assert(gs.current_turn < gs.players@.len()) by {
            assert(gs@.players.len() == old(gs)@.players.len());
        }
    }
    let mut effects = answer_effects(gs, pid, result);
    let mut sync = broadcast_state_sync(gs);
    proof {
        assert(session_model(effects@ + sync@) =~= session_model(effects@) + session_model(sync@));
    }
    effects.append(&mut sync);
    effects
}

/// The turn timer of turn `expected_turn` ran out: unless the game is over
/// or the turn already passed, the turn goes to the next player, who draws a
/// card, and a new timer starts.
pub open spec fn timer_step(m: StateView, expected_turn: usize, seconds: u64) -> (StateView, Seq<SessionEffectModel>) {
    if m.phase != GamePhase::Playing || m.current_turn != expected_turn || m.players.len() == 0 {
        (m, Seq::empty())
    } else {
        let timed_out = current_id(m);
        let m1 = StateView {
            current_turn: ((m.current_turn + 1) % (m.players.len() as int)) as usize,
            turn_phase: TurnPhase::Draw,
            ..m
        };
        let next = current_id(m1);
        let (m2, drawn) = draw_for_next(m1);
        let shown = match drawn {
            Some(card) => seq![SessionEffectModel::Send(RoomEventModel::CardDrawn { player_id: next, card })],
            None => Seq::empty(),
        };
        (m2, shown + seq![
            SessionEffectModel::Send(RoomEventModel::TurnTimeout { player_id: timed_out }),
            SessionEffectModel::Send(RoomEventModel::TurnChanged { current_player_id: next, seconds }),
            SessionEffectModel::StartTurnTimer { seconds, expected_turn: m1.current_turn },
        ])
    }
}

/// What happens when the timer of turn `expected_turn` runs out (see
/// `timer_step`).
pub fn turn_timer_fired(gs: &mut GameState, expected_turn: usize) -> (r: Vec<SessionEffect>)
    requires
        old(gs).wf(),
        old(gs).current_turn < old(gs).players@.len() || old(gs).players@.len() == 0,
    ensures
        final(gs).wf(),
        ({
            let (m2, es) = timer_step(old(gs)@, expected_turn, old(gs).turn_seconds);
            &&& final(gs)@ == m2
            &&& session_model(r@) == es
        }),
{
    let mut effects: Vec<SessionEffect> = Vec::new();
    proof {
        assert(session_model(effects@) =~= Seq::<SessionEffectModel>::empty());
    }
    if gs.phase != GamePhase::Playing || gs.current_turn != expected_turn || gs.players.len() == 0 {
        return effects;
    }
    let timed_out = match gs.current_player_id() {
        Some(s) => copy_text(s),
        None => String::new(),
    };
    proof {
        assert(gs@.players[gs.current_turn as int] == board_view(gs.players@[gs.current_turn as int]));
    }
    gs.advance_turn();
    let next = match gs.current_player_id() {
        Some(s) => copy_text(s),
        None => String::new(),
    };
    proof {
        assert(gs@.players[gs.current_turn as int] == board_view(gs.players@[gs.current_turn as int]));
    }
    let secs = gs.turn_seconds;
    let new_turn = gs.current_turn;
    let drawn = gs.draw_for_current();
    if drawn.len() > 0 {
        push_session(&mut effects, SessionEffect::Send(RoomEvent::CardDrawn { player_id: next.clone(), card: drawn[0] }));
    }
    push_session(&mut effects, SessionEffect::Send(RoomEvent::TurnTimeout { player_id: timed_out }));
    push_session(&mut effects, SessionEffect::Send(RoomEvent::TurnChanged { current_player_id: next, seconds: secs }));
    push_session(&mut effects, SessionEffect::StartTurnTimer { seconds: secs, expected_turn: new_turn });
    proof {
        assert(session_model(effects@) =~= timer_step(old(gs)@, expected_turn, old(gs).turn_seconds).1);
    }
    effects
}

/// What the room tells its players when `username` has just taken a seat
/// in game `m`: the join, and when that seat started the game, the start,
/// the first draw of the player on turn, the state sync and their timer.
pub open spec fn join_step(g: GameState, username: Seq<char>) -> (StateView, Seq<SessionEffectModel>) {
    let m = g@;
    let joined = seq![SessionEffectModel::Send(RoomEventModel::PlayerJoined { username })];
    if m.phase == GamePhase::Playing {
        let cur = current_id(m);
        let (m2, drawn) = draw_for_next(m);
        let shown = match drawn {
            Some(card) => seq![SessionEffectModel::Send(RoomEventModel::CardDrawn { player_id: cur, card })],
            None => Seq::empty(),
        };
        (m2, joined + seq![SessionEffectModel::Send(RoomEventModel::GameStarted { current_player_id: cur })] + shown)
    } else {
        (m, joined)
    }
}

/// What follows a player named `username` taking a seat (see `join_step`),
/// the state sync and the first turn timer included when the game starts.
pub fn joined_effects(gs: &mut GameState, username: &str) -> (r: Vec<SessionEffect>)
    requires
        old(gs).wf(),
        old(gs).phase == GamePhase::Playing ==> old(gs).current_turn < old(gs).players@.len(),
    ensures
        final(gs).wf(),
        ({
            let (m2, es) = join_step(*old(gs), username@);
            &&& final(gs)@ == m2
            &&& session_model(r@) == if old(gs).phase == GamePhase::Playing {
                es + sync_effects(*final(gs), final(gs).players@.len() as int) + seq![
                    SessionEffectModel::StartTurnTimer {
                        seconds: old(gs).turn_seconds,
                        expected_turn: old(gs).current_turn,
                    },
                ]
            } else {
                es
            }
        }),
{
    let mut effects: Vec<SessionEffect> = Vec::new();
    proof {
        assert(session_model(effects@) =~= Seq::<SessionEffectModel>::empty());
    }
    push_session(&mut effects, SessionEffect::Send(RoomEvent::PlayerJoined { username: copy_text(username) }));
    if gs.phase != GamePhase::Playing {
        return effects;
    }
    let current = match gs.current_player_id() {
        Some(s) => copy_text(s),
        None => String::new(),
    };
    proof {
        assert(gs@.players[gs.current_turn as int] == board_view(gs.players@[gs.current_turn as int]));
    }
    let secs = gs.turn_seconds;
    let turn = gs.current_turn;
    push_session(&mut effects, SessionEffect::Send(RoomEvent::GameStarted { current_player_id: current.clone() }));
    let drawn = gs.draw_for_current();
    if drawn.len() > 0 {
        push_session(&mut effects, SessionEffect::Send(RoomEvent::CardDrawn { player_id: current, card: drawn[0] }));
    }
    proof {
        assert(session_model(effects@) =~= join_step(*old(gs), username@).1);
    }
    let mut sync = broadcast_state_sync(gs);
    proof {
        assert(session_model(effects@ + sync@) =~= session_model(effects@) + session_model(sync@));
    }
    effects.append(&mut sync);
    push_session(&mut effects, SessionEffect::StartTurnTimer { seconds: secs, expected_turn: turn });
    effects
}

/// `player_id` left: their board goes (a running game is then finished)
/// and the others are told, under the player's id.
pub fn player_left(gs: &mut GameState, player_id: &str) -> (r: Vec<SessionEffect>)
    ensures
        final(gs).players@ == old(gs).players@.filter(|b: PlayerBoard| b.player_id@ != player_id@),
        final(gs).phase == if final(gs).players@.len() != old(gs).players@.len() && old(gs).phase
            == GamePhase::Playing {
            GamePhase::Finished
        } else {
            old(gs).phase
        },
        final(gs).current_turn == if old(gs).current_turn >= final(gs).players@.len() {
            0
        } else {
            old(gs).current_turn
        },
        final(gs).turn_phase == old(gs).turn_phase,
        final(gs).draw_pile.cards@ == old(gs).draw_pile.cards@,
        final(gs).discard_pile@ == old(gs).discard_pile@,
        final(gs).scales@ == old(gs).scales@,
        session_model(r@) == seq![SessionEffectModel::Send(RoomEventModel::PlayerLeft { username: player_id@ })],
{
    gs.remove_player(player_id);
    let mut effects: Vec<SessionEffect> = Vec::new();
    proof {
        assert(session_model(effects@) =~= Seq::<SessionEffectModel>::empty());
    }
    push_session(&mut effects, SessionEffect::Send(RoomEvent::PlayerLeft { username: copy_text(player_id) }));
    proof {
        assert(session_model(effects@) =~= seq![SessionEffectModel::Send(RoomEventModel::PlayerLeft { username: player_id@ })]);
    }
    effects
}

/// The request named `action`, with its `index` and `stack` (zero when the
/// message has none); `None` for a name no request has.
pub open spec fn command_named(action: Seq<char>, index: u64, stack: u64) -> Option<Command> {
    if action == "play_hand_to_scale"@ {
        Some(Command::PlayHandToScale { index: index as usize })
    } else if action == "play_personal_to_scale"@ {
        Some(Command::PlayPersonalToScale)
    } else if action == "play_personal_to_side"@ {
        Some(Command::PlayPersonalToSide { index: index as usize })
    } else if action == "play_side_to_scale"@ {
        Some(Command::PlaySideToScale { stack: stack as usize })
    } else if action == "withdraw_to_side"@ {
        Some(Command::WithdrawToSide { index: index as usize, stack: stack as usize })
    } else if action == "pass"@ {
        Some(Command::Pass)
    } else {
        None
    }
}

/// The request a raw message asks for: the fields it reads as (see
/// `request_fields`), an absent action counting as the empty text and an
/// absent number as zero.
pub open spec fn command_read(text: Seq<char>) -> Option<Command> {
    match request_fields(text) {
        None => None,
        Some((a, i, s)) => command_named(
            match a {
                Some(t) => t,
                None => Seq::empty(),
            },
            match i {
                Some(n) => n,
                None => 0,
            },
            match s {
                Some(n) => n,
                None => 0,
            },
        ),
    }
}

/// The request in a raw message of the form
/// `{"action": .., "index": .., "stack": ..}`; `None` when the text is not
/// JSON or names no request.
pub fn command_of(text: &str) -> (r: Option<Command>)
    ensures
        r == command_read(text@),
{
    match read_request(text) {
        None => None,
        Some((a, i, s)) => {
            let index = match i {
                Some(n) => n,
                None => 0,
            };
            let stack = match s {
                Some(n) => n,
                None => 0,
            };
            match a {
                Some(t) => Command::named(t.as_str(), index, stack),
                None => {
                    proof {
                        reveal_strlit("");
                        assert(""@ =~= Seq::<char>::empty());
                    }
                    Command::named("", index, stack)
                },
            }
        },
    }
}

impl Command {
    /// The request a message names (see `command_named`).
    pub fn named(action: &str, index: u64, stack: u64) -> (r: Option<Command>)
        ensures
            r == command_named(action@, index, stack),
    {
        if same_text(action, "play_hand_to_scale") {
            Some(Command::PlayHandToScale { index: index as usize })
        } else if same_text(action, "play_personal_to_scale") {
            Some(Command::PlayPersonalToScale)
        } else if same_text(action, "play_personal_to_side") {
            Some(Command::PlayPersonalToSide { index: index as usize })
        } else if same_text(action, "play_side_to_scale") {
            Some(Command::PlaySideToScale { stack: stack as usize })
        } else if same_text(action, "withdraw_to_side") {
            Some(Command::WithdrawToSide { index: index as usize, stack: stack as usize })
        } else if same_text(action, "pass") {
            Some(Command::Pass)
        } else {
            None
        }
    }
}

} // verus!
