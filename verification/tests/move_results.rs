use topo::actions::MoveSuccess;
use topo::ids::{GameId, PlayerIdx, ScaleIdx, Seconds, Seed};
use topo::play_result::PlayResult;
use topo::state::GameState;

#[test]
fn turn_ended_returns_true_for_turn_ended() {
    let success = MoveSuccess::TurnEnded;
    assert!(success.turn_ended());
}

#[test]
fn turn_ended_returns_true_for_game_won() {
    let success = MoveSuccess::GameWon { winner_idx: PlayerIdx(0) };
    assert!(success.turn_ended());
}

#[test]
fn turn_ended_returns_false_for_scale_placed() {
    let success = MoveSuccess::ScalePlaced { scale_id: ScaleIdx(1), completed: false };
    assert!(!success.turn_ended());
}

#[test]
fn turn_ended_returns_false_for_scale_opened() {
    let success = MoveSuccess::ScaleOpened { scale_id: ScaleIdx(2) };
    assert!(!success.turn_ended());
}

#[test]
fn turn_ended_returns_false_for_success() {
    let success = MoveSuccess::Success;
    assert!(!success.turn_ended());
}

#[test]
fn play_result_turn_end_and_success_flags() {
    assert!(PlayResult::TurnEnded.is_turn_ended());
    assert!(PlayResult::GameWon { winner_id: 1 }.is_turn_ended());
    assert!(!PlayResult::Success.is_turn_ended());
    assert!(PlayResult::Success.is_success());
    assert!(!PlayResult::ScaleOpened { scale_id: 0 }.is_success());
    assert!(!PlayResult::InvalidIndex { kind: "hand".to_string() }.is_success());
}

#[test]
fn play_result_next_player_only_after_turn_end() {
    let mut gs = GameState::new(GameId("r".into()), Seed(1), 13, 5, Seconds(30));
    gs.start_game();
    gs.current_turn = PlayerIdx(1);
    assert_eq!(PlayResult::TurnEnded.next_player(&gs), Some(gs.players[1].player_idx));
    assert_eq!(PlayResult::Success.next_player(&gs), None);
    assert_eq!(PlayResult::GameWon { winner_id: 0 }.next_player(&gs), None);
    gs.current_turn = PlayerIdx(7);
    assert_eq!(PlayResult::TurnEnded.next_player(&gs), None);
}
