use topo::actions::Action;
use topo::game_room::{Room, RoomPhase};
use topo::ids::{GameId, HandIdx, PlayerId, PlayerIdx, ScaleIdx, Seconds, Seed};
use topo::lobby::LobbyState;
use topo::protocol::{ClientMessage, ErrorCode, LobbyAction, ServerEvent, WsQuery};
use topo::room::{RoomEffect, RoomInput};

fn id(n: u128) -> PlayerId {
    PlayerId(n)
}

fn step(room: Room, input: RoomInput) -> (Room, Vec<RoomEffect>) {
    assert!(room.accepts_input(&input));
    room.handle(input, Seconds(0))
}

fn run(room: Room, inputs: Vec<RoomInput>) -> (Room, Vec<RoomEffect>) {
    let mut room = room;
    let mut last = Vec::new();
    for input in inputs {
        let (r, effects) = step(room, input);
        room = r;
        last = effects;
    }
    (room, last)
}

fn lobby_with_two_seated() -> Room {
    let room = Room::new(GameId("room".to_string()), Seconds(60));
    let (room, _) = run(
        room,
        vec![
            RoomInput::SetSeed(Seed(7)),
            RoomInput::SubscribePlayer { player_id: id(1) },
            RoomInput::SubscribePlayer { player_id: id(2) },
            RoomInput::PlayerJoined { player_id: id(1), username: "Alice".to_string() },
            RoomInput::PlayerJoined { player_id: id(2), username: "Bob".to_string() },
        ],
    );
    room
}

fn started_room() -> (Room, Vec<RoomEffect>) {
    let room = lobby_with_two_seated();
    run(
        room,
        vec![
            RoomInput::PlayerReady { player_id: id(1) },
            RoomInput::PlayerReady { player_id: id(2) },
            RoomInput::StartGame,
        ],
    )
}

fn current_and_other(room: &Room) -> (PlayerId, PlayerId) {
    match &room.phase {
        RoomPhase::Playing(p) => {
            let cur = p.current_player;
            let holder = p.participants.iter().find(|q| q.player_idx == cur).unwrap().player_id;
            let other = p.participants.iter().find(|q| q.player_idx != cur).unwrap().player_id;
            (holder, other)
        }
        _ => panic!("expected a running game"),
    }
}

fn sent_to(effects: &[RoomEffect], who: PlayerId) -> Vec<&ServerEvent> {
    effects
        .iter()
        .filter_map(|e| match e {
            RoomEffect::SendTo(p, ev) if *p == who => Some(ev),
            _ => None,
        })
        .collect()
}

fn broadcasts(effects: &[RoomEffect]) -> Vec<&ServerEvent> {
    effects
        .iter()
        .filter_map(|e| match e {
            RoomEffect::Broadcast(ev) => Some(ev),
            _ => None,
        })
        .collect()
}

#[test]
fn first_join_seats_at_zero() {
    let room = Room::new(GameId("room".to_string()), Seconds(60));
    let (room, _) = step(room, RoomInput::SubscribePlayer { player_id: id(1) });
    let (room, effects) = step(room, RoomInput::PlayerJoined { player_id: id(1), username: "Alice".to_string() });
    let events = broadcasts(&effects);
    assert_eq!(events.len(), 1);
    assert_eq!(
        *events[0],
        ServerEvent::PlayerJoined { player_id: id(1), player_idx: PlayerIdx(0), username: "Alice".to_string() }
    );
    assert_eq!(room.members.len(), 1);
    assert_eq!(room.members[0].player_idx, PlayerIdx(0));
}

#[test]
fn second_join_takes_seat_one() {
    let room = lobby_with_two_seated();
    assert_eq!(room.members[1].player_idx, PlayerIdx(1));
    assert_eq!(room.members[1].username, "Bob");
}

#[test]
fn join_without_subscription_is_ignored() {
    let room = Room::new(GameId("room".to_string()), Seconds(60));
    let (room, effects) = step(room, RoomInput::PlayerJoined { player_id: id(9), username: "Eve".to_string() });
    assert!(effects.is_empty());
    assert!(room.members.is_empty());
}

#[test]
fn third_player_cannot_take_a_seat() {
    let room = lobby_with_two_seated();
    let (room, _) = step(room, RoomInput::SubscribePlayer { player_id: id(3) });
    let (room, effects) = step(room, RoomInput::PlayerJoined { player_id: id(3), username: "Carol".to_string() });
    assert!(effects.is_empty());
    assert_eq!(room.members[2].player_idx, PlayerIdx(usize::MAX));
}

#[test]
fn double_join_same_player_no_duplicate_seat() {
    let room = Room::new(GameId("room".to_string()), Seconds(60));
    let (room, _) = run(
        room,
        vec![
            RoomInput::SubscribePlayer { player_id: id(1) },
            RoomInput::PlayerJoined { player_id: id(1), username: "Alice".to_string() },
        ],
    );
    let (room, effects) = step(room, RoomInput::PlayerJoined { player_id: id(1), username: "Alice".to_string() });
    assert!(effects.is_empty());
    assert_eq!(room.members.len(), 1);
}

#[test]
fn all_ready_starts_countdown_then_game() {
    let room = lobby_with_two_seated();
    let (room, effects) = step(room, RoomInput::PlayerReady { player_id: id(1) });
    assert_eq!(broadcasts(&effects), vec![&ServerEvent::PlayerReady { player_id: id(1) }]);
    let (room, effects) = step(room, RoomInput::PlayerReady { player_id: id(2) });
    assert!(matches!(effects.last(), Some(RoomEffect::StartCountdown)));
    match &room.phase {
        RoomPhase::Lobby(l) => assert_eq!(l.state, LobbyState::Starting),
        _ => panic!("expected the lobby"),
    }
    let (room, effects) = step(room, RoomInput::StartGame);
    assert!(matches!(room.phase, RoomPhase::Playing(_)));
    for who in [id(1), id(2)] {
        assert!(sent_to(&effects, who).iter().any(|e| matches!(e, ServerEvent::FullState { .. })));
    }
    assert!(broadcasts(&effects).iter().any(|e| matches!(e, ServerEvent::GameStarted { .. })));
    assert!(effects.iter().any(|e| matches!(e, RoomEffect::StartTurnTimer { .. })));
}

#[test]
fn room_does_not_start_with_only_one_player() {
    let player1 = id(1);
    let player2 = id(2);
    let room = Room::new(GameId("test_room".to_string()), Seconds(60));
    let (room, _) = run(
        room,
        vec![
            RoomInput::SubscribePlayer { player_id: player1 },
            RoomInput::SubscribePlayer { player_id: player2 },
        ],
    );
    let (room, effects) = step(room, RoomInput::PlayerJoined { player_id: player1, username: "Alice".into() });
    let mut msgs1 = broadcasts(&effects);
    msgs1.extend(sent_to(&effects, player1));
    assert!(!msgs1.iter().any(|m| matches!(m, ServerEvent::GameStarted { .. })));
    assert_eq!(msgs1.len(), 1);
    assert!(matches!(room.phase, RoomPhase::Lobby(_)));
}

#[test]
fn is_player_known_answers_for_members_only() {
    let room = lobby_with_two_seated();
    let (room, effects) = step(room, RoomInput::IsPlayerKnown { player_id: id(1) });
    assert!(matches!(effects.as_slice(), [RoomEffect::ReplyKnown(true)]));
    let (_, effects) = step(room, RoomInput::IsPlayerKnown { player_id: id(5) });
    assert!(matches!(effects.as_slice(), [RoomEffect::ReplyKnown(false)]));
}

#[test]
fn last_member_leaving_the_lobby_closes_the_room() {
    let room = Room::new(GameId("room".to_string()), Seconds(60));
    let (room, _) = run(
        room,
        vec![
            RoomInput::SubscribePlayer { player_id: id(1) },
            RoomInput::PlayerJoined { player_id: id(1), username: "Alice".to_string() },
        ],
    );
    let (room, effects) = step(room, RoomInput::PlayerLeft { player_id: id(1) });
    assert!(room.members.is_empty());
    assert_eq!(
        broadcasts(&effects),
        vec![&ServerEvent::PlayerLeft { player_id: id(1), player_idx: PlayerIdx(0) }]
    );
    assert!(matches!(effects.last(), Some(RoomEffect::Shutdown)));
}

#[test]
fn action_when_not_your_turn_returns_error() {
    let (room, _) = started_room();
    let (_, other) = current_and_other(&room);
    let (_, effects) = step(room, RoomInput::PlayerAction { player_id: other, action: Action::Draw });
    let to_other = sent_to(&effects, other);
    assert_eq!(to_other.len(), 1);
    assert!(matches!(to_other[0], ServerEvent::Error { code: ErrorCode::NotYourTurn, .. }));
}

#[test]
fn draw_then_invalid_scale_is_refused() {
    let (room, _) = started_room();
    let (cur, _) = current_and_other(&room);
    let (room, effects) = step(room, RoomInput::PlayerAction { player_id: cur, action: Action::Draw });
    assert!(sent_to(&effects, cur).iter().any(|e| matches!(e, ServerEvent::HandRefill { .. }))
        || broadcasts(&effects).iter().any(|e| matches!(e, ServerEvent::HandRefill { .. })));
    let (_, effects) = step(
        room,
        RoomInput::PlayerAction { player_id: cur, action: Action::PlayHand { hand_idx: HandIdx(0), scale_idx: ScaleIdx(99) } },
    );
    assert!(sent_to(&effects, cur).iter().any(|e| matches!(e, ServerEvent::Error { .. })));
}

#[test]
fn stray_timeout_for_wrong_player_is_ignored() {
    let (room, _) = started_room();
    let (_, other) = current_and_other(&room);
    let (room, effects) = step(room, RoomInput::TurnTimeout { player_id: other });
    assert!(effects.is_empty());
    assert!(matches!(room.phase, RoomPhase::Playing(_)));
}

#[test]
fn timeout_ends_the_turn_of_the_current_player() {
    let (room, _) = started_room();
    let (cur, other) = current_and_other(&room);
    let (room, effects) = step(room, RoomInput::TurnTimeout { player_id: cur });
    assert!(broadcasts(&effects).iter().any(|e| matches!(
        e,
        ServerEvent::TurnEnded { next_player_id, timed_out_player_id: Some(t), .. } if *next_player_id == other && *t == cur
    )));
    let (now, _) = current_and_other(&room);
    assert_eq!(now, other);
}

#[test]
fn disconnect_and_reconnect_within_grace() {
    let (room, _) = started_room();
    let (cur, _) = current_and_other(&room);
    let (room, effects) = step(room, RoomInput::NetworkDisconnect { player_id: cur });
    assert!(broadcasts(&effects).iter().any(|e| matches!(e, ServerEvent::PlayerDisconnected { .. })));
    assert!(effects.iter().any(|e| matches!(e, RoomEffect::ScheduleDisconnectTimeout { player_id } if *player_id == cur)));
    let (room, effects) = step(room, RoomInput::PlayerReconnected { player_id: cur });
    assert!(broadcasts(&effects).iter().any(|e| matches!(e, ServerEvent::PlayerReconnected { .. })));
    assert!(effects.iter().any(|e| matches!(e, RoomEffect::AbortDisconnectTimeout { player_id } if *player_id == cur)));
    assert!(matches!(room.phase, RoomPhase::Playing(_)));
}

#[test]
fn disconnect_timeout_ends_game_for_the_other_player() {
    let (room, _) = started_room();
    let (cur, other) = current_and_other(&room);
    let (room, _) = step(room, RoomInput::NetworkDisconnect { player_id: cur });
    let (room, effects) = step(room, RoomInput::DisconnectTimeout { player_id: cur });
    assert!(sent_to(&effects, other).iter().any(|e| matches!(e, ServerEvent::GameOver { winner_id, .. } if *winner_id == other)));
    assert!(matches!(room.phase, RoomPhase::Over(_)));
}

#[test]
fn player_left_during_playing_ends_game() {
    let (room, _) = started_room();
    let (cur, other) = current_and_other(&room);
    let (room, effects) = step(room, RoomInput::PlayerLeft { player_id: cur });
    assert!(sent_to(&effects, other).iter().any(|e| matches!(e, ServerEvent::GameOver { winner_id, .. } if *winner_id == other)));
    assert!(matches!(room.phase, RoomPhase::Over(_)));
}

#[test]
fn action_after_game_over_returns_error() {
    let (room, _) = started_room();
    let (cur, other) = current_and_other(&room);
    let (room, _) = step(room, RoomInput::NetworkDisconnect { player_id: cur });
    let (room, _) = step(room, RoomInput::DisconnectTimeout { player_id: cur });
    let (_, effects) = step(room, RoomInput::PlayerAction { player_id: other, action: Action::Draw });
    assert!(sent_to(&effects, other).iter().any(|e| matches!(e, ServerEvent::Error { code: ErrorCode::GameOver, .. })));
}

#[test]
fn both_asking_to_play_again_starts_a_rematch() {
    let (room, _) = started_room();
    let (cur, other) = current_and_other(&room);
    let (room, _) = step(room, RoomInput::NetworkDisconnect { player_id: cur });
    let (room, _) = step(room, RoomInput::DisconnectTimeout { player_id: cur });
    assert!(matches!(room.phase, RoomPhase::Over(_)));
    let (room, _) = step(room, RoomInput::SubscribePlayer { player_id: cur });
    let (room, effects) = step(room, RoomInput::PlayAgain { player_id: other });
    assert!(matches!(room.phase, RoomPhase::Over(_)));
    assert!(broadcasts(&effects).iter().any(|e| matches!(e, ServerEvent::PlayAgainRequested { player_id } if *player_id == other)));
    let (room, effects) = step(room, RoomInput::PlayAgain { player_id: cur });
    assert!(matches!(room.phase, RoomPhase::Playing(_)));
    for who in [cur, other] {
        assert!(sent_to(&effects, who).iter().any(|e| matches!(e, ServerEvent::FullState { .. })));
    }
}

#[test]
fn client_messages_become_room_commands() {
    let p = id(4);
    assert!(matches!(ClientMessage::Lobby(LobbyAction::PlayerReady).input_for(p), RoomInput::PlayerReady { player_id } if player_id == p));
    assert!(matches!(ClientMessage::Lobby(LobbyAction::PlayAgain).input_for(p), RoomInput::PlayAgain { player_id } if player_id == p));
    assert!(matches!(ClientMessage::Lobby(LobbyAction::Leave).input_for(p), RoomInput::PlayerLeft { player_id } if player_id == p));
    assert!(matches!(
        ClientMessage::Game(Action::Draw).input_for(p),
        RoomInput::PlayerAction { player_id, action: Action::Draw } if player_id == p
    ));
}

#[test]
fn websocket_query_names_the_player() {
    let q = WsQuery { player_id: "00000000-0000-0000-0000-00000000002a".to_string(), username: Some("Zoe".to_string()) };
    assert_eq!(q.player(), Some(PlayerId(42)));
    assert_eq!(q.display_name(), "Zoe");
    let q = WsQuery { player_id: "not-a-uuid".to_string(), username: None };
    assert_eq!(q.player(), None);
    assert_eq!(q.display_name(), "Anonymous");
}
