use topo::actions::TurnPhase;
use topo::game::action::Action;
use topo::game::result::PlayResult;
use topo::game::session::{command_of, handle_action, joined_effects, player_left, turn_timer_fired, Command, RoomEvent, SessionEffect};
use topo::game::state::{GamePhase, GameState};

fn two_player_game() -> GameState {
    let mut gs = GameState::new("room".to_string(), 45);
    assert!(gs.add_player("p1".to_string(), "Alice".to_string()));
    assert!(gs.add_player("p2".to_string(), "Bob".to_string()));
    gs
}

#[test]
fn second_player_starts_the_game() {
    let mut gs = GameState::new("room".to_string(), 45);
    assert_eq!(gs.phase, GamePhase::Waiting);
    assert!(gs.add_player("p1".to_string(), "Alice".to_string()));
    assert_eq!(gs.phase, GamePhase::Waiting);
    assert!(gs.add_player("p2".to_string(), "Bob".to_string()));
    assert_eq!(gs.phase, GamePhase::Playing);
    for p in &gs.players {
        assert_eq!(p.personal.len(), 13);
        assert_eq!(p.hand.len(), 5);
        assert!(p.side.iter().all(|s| s.is_empty()));
    }
    assert_eq!(gs.draw_pile.cards.len(), 104 - 2 * 18);
    assert_eq!(gs.current_turn, 0);
    assert_eq!(gs.turn_phase, TurnPhase::Draw);
}

#[test]
fn duplicate_and_third_players_are_refused() {
    let mut gs = two_player_game();
    assert!(!gs.add_player("p1".to_string(), "Again".to_string()));
    assert!(!gs.add_player("p3".to_string(), "Carol".to_string()));
    assert_eq!(gs.players.len(), 2);
}

#[test]
fn leaving_a_running_game_finishes_it() {
    let mut gs = two_player_game();
    gs.current_turn = 1;
    gs.remove_player("p2");
    assert_eq!(gs.players.len(), 1);
    assert_eq!(gs.phase, GamePhase::Finished);
    assert_eq!(gs.current_turn, 0);
}

#[test]
fn current_player_is_the_first_to_join() {
    let gs = two_player_game();
    assert_eq!(gs.current_player_id(), Some("p1"));
    assert!(gs.winner().is_none());
}

#[test]
fn moves_out_of_turn_are_refused() {
    let mut gs = two_player_game();
    assert_eq!(gs.apply_move("nobody", Action::Draw), PlayResult::NotAllowed);
    assert_eq!(gs.apply_move("p2", Action::Draw), PlayResult::NotYourTurn);
}

#[test]
fn draw_happens_once_per_turn() {
    let mut gs = two_player_game();
    assert_eq!(gs.apply_move("p1", Action::Draw), PlayResult::Moved);
    assert_eq!(gs.turn_phase, TurnPhase::Play);
    assert_eq!(gs.apply_move("p1", Action::Draw), PlayResult::NotAllowed);
}

#[test]
fn withdrawing_to_side_ends_the_turn() {
    let mut gs = two_player_game();
    let card = gs.players[0].hand[0];
    assert_eq!(gs.apply_move("p1", Action::MoveToSide { hand_index: 0, stack: 2 }), PlayResult::TurnEnded);
    assert_eq!(gs.players[0].side[2], vec![card]);
    assert_eq!(gs.current_turn, 1);
    assert_eq!(gs.turn_phase, TurnPhase::Draw);
}

#[test]
fn state_sync_shows_the_opponent() {
    let gs = two_player_game();
    let (mine, count, top, side, name) = gs.state_sync_for("p1").unwrap();
    assert_eq!(mine.player_id, "p1");
    assert_eq!(count, 13);
    assert_eq!(top, gs.players[1].personal.last().cloned());
    assert!(side.iter().all(|s| s.is_empty()));
    assert_eq!(name, "Bob");
    assert!(gs.state_sync_for("ghost").is_none());
}

#[test]
fn pass_hands_the_turn_over_and_restarts_the_timer() {
    let mut gs = two_player_game();
    let effects = handle_action(&mut gs, "p1", Command::Pass);
    assert_eq!(gs.current_turn, 1);
    assert!(effects.iter().any(|e| matches!(
        e,
        SessionEffect::Send(RoomEvent::TurnChanged { current_player_id, seconds: 45 }) if current_player_id == "p2"
    )));
    assert!(effects.iter().any(|e| matches!(e, SessionEffect::StartTurnTimer { seconds: 45, expected_turn: 1 })));
    let syncs = effects.iter().filter(|e| matches!(e, SessionEffect::Send(RoomEvent::StateSync { .. }))).count();
    assert_eq!(syncs, 2);
}

#[test]
fn request_of_the_wrong_player_does_nothing() {
    let mut gs = two_player_game();
    let effects = handle_action(&mut gs, "p2", Command::Pass);
    assert!(effects.is_empty());
    assert_eq!(gs.current_turn, 0);
}

#[test]
fn stale_timer_is_ignored() {
    let mut gs = two_player_game();
    let effects = turn_timer_fired(&mut gs, 1);
    assert!(effects.is_empty());
    assert_eq!(gs.current_turn, 0);
}

#[test]
fn timer_of_the_current_turn_moves_it_on() {
    let mut gs = two_player_game();
    let effects = turn_timer_fired(&mut gs, 0);
    assert_eq!(gs.current_turn, 1);
    assert!(effects.iter().any(|e| matches!(
        e,
        SessionEffect::Send(RoomEvent::TurnTimeout { player_id }) if player_id == "p1"
    )));
    assert!(effects.iter().any(|e| matches!(e, SessionEffect::StartTurnTimer { expected_turn: 1, .. })));
}

#[test]
fn joining_second_player_starts_and_draws() {
    let mut gs = GameState::new("room".to_string(), 45);
    assert!(gs.add_player("p1".to_string(), "Alice".to_string()));
    let effects = joined_effects(&mut gs, "Alice");
    assert_eq!(effects.len(), 1);
    assert!(matches!(&effects[0], SessionEffect::Send(RoomEvent::PlayerJoined { username }) if username == "Alice"));
    assert!(gs.add_player("p2".to_string(), "Bob".to_string()));
    let effects = joined_effects(&mut gs, "Bob");
    assert!(matches!(&effects[0], SessionEffect::Send(RoomEvent::PlayerJoined { username }) if username == "Bob"));
    assert!(matches!(&effects[1], SessionEffect::Send(RoomEvent::GameStarted { current_player_id }) if current_player_id == "p1"));
    assert!(matches!(&effects[2], SessionEffect::Send(RoomEvent::CardDrawn { player_id, .. }) if player_id == "p1"));
    assert_eq!(gs.players[0].hand.len(), 6);
    assert!(matches!(effects.last(), Some(SessionEffect::StartTurnTimer { seconds: 45, expected_turn: 0 })));
}

#[test]
fn leaving_tells_the_others() {
    let mut gs = two_player_game();
    let effects = player_left(&mut gs, "p1");
    assert_eq!(gs.players.len(), 1);
    assert_eq!(gs.phase, GamePhase::Finished);
    assert!(matches!(effects.as_slice(), [SessionEffect::Send(RoomEvent::PlayerLeft { username })] if username == "p1"));
}

#[test]
fn requests_are_named() {
    assert_eq!(Command::named("play_hand_to_scale", 2, 0), Some(Command::PlayHandToScale { index: 2 }));
    assert_eq!(Command::named("play_personal_to_scale", 0, 0), Some(Command::PlayPersonalToScale));
    assert_eq!(Command::named("play_personal_to_side", 1, 0), Some(Command::PlayPersonalToSide { index: 1 }));
    assert_eq!(Command::named("play_side_to_scale", 0, 3), Some(Command::PlaySideToScale { stack: 3 }));
    assert_eq!(Command::named("withdraw_to_side", 4, 2), Some(Command::WithdrawToSide { index: 4, stack: 2 }));
    assert_eq!(Command::named("pass", 0, 0), Some(Command::Pass));
    assert_eq!(Command::named("dance", 0, 0), None);
}

#[test]
fn raw_messages_are_read_into_requests() {
    assert_eq!(command_of(r#"{"action":"play_hand_to_scale","index":3}"#), Some(Command::PlayHandToScale { index: 3 }));
    assert_eq!(command_of(r#"{"action":"withdraw_to_side","index":1,"stack":2}"#), Some(Command::WithdrawToSide { index: 1, stack: 2 }));
    assert_eq!(command_of(r#"{"action":"play_side_to_scale"}"#), Some(Command::PlaySideToScale { stack: 0 }));
    assert_eq!(command_of(r#"{"action":"pass","index":"x"}"#), Some(Command::Pass));
    assert_eq!(command_of(r#"{"index":1}"#), None);
    assert_eq!(command_of("not json"), None);
}
