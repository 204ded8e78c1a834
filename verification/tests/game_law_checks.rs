use topo::actions::{Action, MoveError, TurnPhase};
use topo::ids::{GameId, HandIdx, PlayerIdx, ScaleIdx, Seconds, Seed, StackIdx};
use topo::state::GameState;
use topo::state_spec::GamePhase;

fn started(seed: u64) -> GameState {
    let mut gs = GameState::new(GameId("laws".into()), Seed(seed), 13, 5, Seconds(30));
    gs.start_game();
    gs
}

fn card_count(gs: &GameState) -> usize {
    let boards: usize = gs
        .players
        .iter()
        .map(|b| b.personal.len() + b.hand.len() + b.side.iter().map(|s| s.len()).sum::<usize>())
        .sum();
    let table: usize = gs.scale_manager.scales.iter().flatten().map(|s| s.cards.len()).sum();
    boards + table + gs.card_dealer.draw_pile.cards.len() + gs.card_dealer.discard_pile.len()
}

fn every_action() -> Vec<Action> {
    let mut actions = vec![Action::Draw];
    for h in 0..6 {
        actions.push(Action::OpenScale { hand_idx: HandIdx(h) });
        for s in 0..3 {
            actions.push(Action::PlayHand { hand_idx: HandIdx(h), scale_idx: ScaleIdx(s) });
        }
        actions.push(Action::MoveToSide { hand_idx: HandIdx(h), stack_idx: StackIdx(1) });
    }
    for s in 0..3 {
        actions.push(Action::PlayPersonal { scale_idx: ScaleIdx(s) });
        actions.push(Action::PlaySide { stack_idx: StackIdx(1), scale_idx: ScaleIdx(s) });
    }
    actions
}

#[test]
fn no_move_creates_or_destroys_a_card() {
    for seed in 0..5u64 {
        let mut gs = started(seed);
        let total = card_count(&gs);
        assert_eq!(total, 104);
        for round in 0..40 {
            let player = if round % 3 == 0 { PlayerIdx(1 - gs.current_turn.0) } else { gs.current_turn };
            for action in every_action() {
                if gs.phase != GamePhase::Playing {
                    break;
                }
                let _ = gs.apply_move(player, action);
                assert_eq!(card_count(&gs), total);
            }
        }
    }
}

#[test]
fn only_the_player_on_turn_moves() {
    let mut gs = started(3);
    let other = PlayerIdx(1 - gs.current_turn.0);
    let before_turn = gs.current_turn;
    let before_hand = gs.players[other.0].hand.clone();
    assert_eq!(gs.apply_move(other, Action::Draw), Err(MoveError::NotYourTurn));
    assert_eq!(gs.current_turn, before_turn);
    assert_eq!(gs.players[other.0].hand, before_hand);
}

#[test]
fn second_draw_in_a_turn_is_refused() {
    let mut gs = started(4);
    let cur = gs.current_turn;
    assert!(gs.apply_move(cur, Action::Draw).is_ok());
    assert_eq!(gs.turn_phase, TurnPhase::Play);
    assert!(gs.apply_move(cur, Action::Draw).is_err());
}

#[test]
fn moving_to_side_passes_the_turn_at_the_draw() {
    let mut gs = started(5);
    let cur = gs.current_turn;
    assert!(gs.apply_move(cur, Action::Draw).is_ok());
    assert!(gs.apply_move(cur, Action::MoveToSide { hand_idx: HandIdx(0), stack_idx: StackIdx(0) }).is_ok());
    assert_eq!(gs.current_turn, PlayerIdx(1 - cur.0));
    assert_eq!(gs.turn_phase, TurnPhase::Draw);
    assert_eq!(gs.players.len(), 2);
}
