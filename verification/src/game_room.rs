//! A room as a whole: its phase, its members and its game, and one step of
//! it for each command.
use vstd::prelude::*;

use crate::ids::{GameId, Seconds};
use crate::lobby::{lobby_started, lobby_starts, lobby_step, lobby_wf, LobbyModel, LobbyPhase, LobbyState};
use crate::over::{over_handled, over_wf, rematch_seats_held, OverModel, OverPhase};
use crate::playing::{playing_handled, playing_wf, remaining, PlayingModel, PlayingPhase};
use crate::room::{effects_model, members_model, EffectModel, InputModel, RoomEffect, RoomInput, RoomMember};
use crate::state::GameState;

verus! {

/// The phase a room is in.
#[derive(Debug)]
pub enum RoomPhase {
    Lobby(LobbyPhase),
    Playing(PlayingPhase),
    Over(OverPhase),
}

/// A room: its phase, the players known to it, and the game of the
/// current or last round.
#[derive(Debug)]
pub struct Room {
    pub phase: RoomPhase,
    pub members: Vec<RoomMember>,
    pub state: Option<GameState>,
}

impl Room {
    /// The room is in a state its phase can be in: a lobby with seats 0
    /// and 1 held at most once, a running game with both seats held, or a
    /// finished game with consistent participants.
    pub open spec fn wf(&self) -> bool {
        let ms = members_model(self.members@);
        match self.phase {
            RoomPhase::Lobby(_) => lobby_wf(ms),
            RoomPhase::Playing(p) => self.state matches Some(g) && playing_wf(p.model(), ms, g),
            RoomPhase::Over(o) => over_wf(o.model(), ms),
        }
    }

    /// The commands this room can take: after a game, a request to play
    /// again that starts the rematch needs both seats held by participants.
    pub open spec fn accepts(&self, input: InputModel) -> bool {
        match self.phase {
            RoomPhase::Over(o) => rematch_seats_held(o.model(), members_model(self.members@), input),
            _ => true,
        }
    }
}

/// One step of a room: what `input`, `elapsed` into the current turn, does
/// to room `r` (giving `r2`) and what it asks its caller to do (`es`).
pub open spec fn room_handled(r: Room, input: InputModel, elapsed: Seconds, r2: Room, es: Seq<EffectModel>) -> bool {
    let ms = members_model(r.members@);
    let ms2 = members_model(r2.members@);
    match r.phase {
        RoomPhase::Lobby(l) => if lobby_starts(l.model(), ms, input) {
            &&& ms2 == ms
            &&& r2.phase matches RoomPhase::Playing(p2)
            &&& r2.state matches Some(g2)
            &&& lobby_started(l.model(), ms, p2.model(), g2, es)
        } else {
            let (l2, ms3, es3) = lobby_step(l.model(), ms, input);
            &&& r2.phase matches RoomPhase::Lobby(l4) && l4.model() == l2
            &&& ms2 == ms3
            &&& es == es3
            &&& r2.state == r.state
        },
        RoomPhase::Playing(p) => {
            let rem = remaining(p.turn_seconds, elapsed);
            &&& r.state matches Some(g)
            &&& r2.state matches Some(g2)
            &&& match r2.phase {
                RoomPhase::Playing(p2) => playing_handled(p.model(), ms, r.state->0, input, rem, p2.model(), ms2, r2.state->0, es, None),
                RoomPhase::Over(o2) => exists|p3: PlayingModel|
                    #[trigger] playing_handled(p.model(), ms, r.state->0, input, rem, p3, ms2, r2.state->0, es, Some(o2.model())),
                RoomPhase::Lobby(_) => false,
            }
        },
        RoomPhase::Over(o) => match r2.phase {
            RoomPhase::Over(o2) => {
                &&& r2.state == r.state
                &&& over_handled(o.model(), ms, r.state, input, o2.model(), ms2, es, None)
            },
            RoomPhase::Playing(p2) => r2.state matches Some(g2) && exists|o3: OverModel|
                #[trigger] over_handled(o.model(), ms, r.state, input, o3, ms2, es, Some((p2.model(), g2))),
            RoomPhase::Lobby(_) => false,
        },
    }
}

impl Room {
    /// A new room for game `game_id` with turns of `turn_seconds`: a lobby
    /// with nobody in it and no game yet.
    pub fn new(game_id: GameId, turn_seconds: Seconds) -> (r: Room)
        ensures
            r.wf(),
            r.phase matches RoomPhase::Lobby(l) && l.model() == (LobbyModel {
                game_id: game_id.0@,
                turn_seconds,
                seed: None,
                state: LobbyState::Waiting,
                ready: Seq::empty(),
            }),
            r.members@ == Seq::<RoomMember>::empty(),
            r.state is None,
    {
        let r = Room { phase: RoomPhase::Lobby(LobbyPhase::new(game_id, turn_seconds)), members: Vec::new(), state: None };
        proof {
            assert(members_model(r.members@) =~= Seq::empty());
        }
        r
    }

    /// Whether the room can take `input` now (see `accepts`).
    pub fn accepts_input(&self, input: &RoomInput) -> (r: bool)
        ensures
            r == self.accepts(input.model()),
    {
        match &self.phase {
            RoomPhase::Over(o) => o.can_take(&self.members, input),
            _ => true,
        }
    }

    /// Takes one command (see `room_handled`); `elapsed` is how long the
    /// current turn has run. Returns the room after it and what the caller
    /// is to do.
    pub fn handle(self, input: RoomInput, elapsed: Seconds) -> (r: (Room, Vec<RoomEffect>))
        requires
            self.wf(),
            self.accepts(input.model()),
        ensures
            r.0.wf(),
            room_handled(self, input.model(), elapsed, r.0, effects_model(r.1@)),
    {
        let ghost old_room = self;
        let Room { phase, members, state } = self;
        let mut members = members;
        match phase {
            RoomPhase::Lobby(l) => {
                let mut l = l;
                let starting = match l.state {
                    LobbyState::Starting => true,
                    LobbyState::Waiting => false,
                };
                let is_start = match input {
                    RoomInput::StartGame => true,
                    _ => false,
                };
                if is_start && starting && l.all_players_ready(&members) {
                    let (p, g, effects) = l.start_game(&members);
                    (Room { phase: RoomPhase::Playing(p), members, state: Some(g) }, effects)
                } else {
                    let effects = l.handle_command(&mut members, input);
                    (Room { phase: RoomPhase::Lobby(l), members, state }, effects)
                }
            },
            RoomPhase::Playing(p) => {
                let mut p = p;
                let mut g = match state {
                    Some(g) => g,
                    None => {
                        proof {
                            assert(false);
                        }
                        return (Room { phase: RoomPhase::Playing(p), members, state: None }, Vec::new());
                    },
                };
                let (effects, over) = p.handle_command(&mut members, &mut g, input, elapsed);
                match over {
                    Some(o) => (Room { phase: RoomPhase::Over(o), members, state: Some(g) }, effects),
                    None => (Room { phase: RoomPhase::Playing(p), members, state: Some(g) }, effects),
                }
            },
            RoomPhase::Over(o) => {
                let mut o = o;
                let (effects, next) = o.handle_command(&mut members, &state, input);
                match next {
                    Some((p, g)) => (Room { phase: RoomPhase::Playing(p), members, state: Some(g) }, effects),
                    None => (Room { phase: RoomPhase::Over(o), members, state }, effects),
                }
            },
        }
    }
}

} // verus!
