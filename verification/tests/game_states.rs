use topo::actions::{Action, MoveError, MoveResult, MoveSuccess, TurnPhase};
use topo::card::{Card, DeckColor, Suit};
use topo::ids::{GameId, HandIdx, PlayerId, PlayerIdx, ScaleIdx, Seconds, Seed, StackIdx};
use topo::scale::Scale;
use topo::state::GameState;
use topo::state_spec::GamePhase;
use uuid::Uuid;

fn make_game() -> GameState {
    let mut gs = GameState::new(GameId("room".into()), Seed(0), 13, 5, Seconds(30));
    gs.start_game();
    gs
}

fn empty_game_for_lobby() -> GameState {
    let mut gs = GameState::new(GameId("test".into()), Seed(0), 13, 5, Seconds(30));
    gs.players.clear();
    gs.phase = GamePhase::Waiting;
    gs
}

fn hand_len(gs: &GameState, idx: usize) -> usize {
    gs.players[idx].hand.len()
}

fn personal_len(gs: &GameState, idx: usize) -> usize {
    gs.players[idx].personal.len()
}

fn current_turn_player(gs: &GameState) -> PlayerIdx {
    gs.current_turn
}

fn card(value: u8) -> Card {
    Card { suit: Suit::Hearts, value, deck: DeckColor::Red }
}

fn uuid_id(id: Uuid) -> PlayerId {
    PlayerId(id.as_u128())
}

fn scale_cards(gs: &GameState, i: usize) -> Vec<Card> {
    gs.scale_manager.scales[i].as_ref().unwrap().cards.clone()
}

#[test]
fn new_game_has_two_players_waiting() {
    let gs = GameState::new(GameId("r".into()), Seed(0), 13, 5, Seconds(30));
    assert_eq!(gs.players.len(), 2);
    assert_eq!(gs.phase, GamePhase::Waiting);
    assert_eq!(PlayerIdx(gs.players[0].player_idx), PlayerIdx(0));
    assert_eq!(PlayerIdx(gs.players[1].player_idx), PlayerIdx(1));
}

#[test]
fn start_game_deals_cards() {
    let mut gs = make_game();
    gs.current_turn = PlayerIdx(0);
    for p in &gs.players {
        assert_eq!(p.personal.len(), 13);
        assert_eq!(p.hand.len(), 5);
        assert_eq!(p.side.iter().all(|s| s.is_empty()), true);
    }
    assert_eq!(gs.phase, GamePhase::Playing);
    assert_eq!(gs.turn_phase, TurnPhase::Draw);
    assert_eq!(current_turn_player(&gs), PlayerIdx(0));
}

#[test]
fn add_player_first_succeeds() {
    let mut gs = empty_game_for_lobby();
    assert!(gs.add_player(uuid_id(Uuid::nil()), PlayerIdx(42)));
    assert_eq!(gs.players.len(), 1);
    assert_eq!(PlayerIdx(gs.players[0].player_idx), PlayerIdx(42));
    assert_eq!(gs.phase, GamePhase::Waiting);
}

#[test]
fn add_player_beyond_two_fails() {
    let mut gs = make_game();
    assert!(!gs.add_player(uuid_id(Uuid::nil()), PlayerIdx(2)));
}

#[test]
fn add_player_second_starts_game() {
    let mut gs = empty_game_for_lobby();
    let id0 = uuid_id(Uuid::from_u128(100));
    let id1 = uuid_id(Uuid::from_u128(200));
    assert!(gs.add_player(id0, PlayerIdx(0)));
    assert!(gs.add_player(id1, PlayerIdx(1)));
    assert_eq!(gs.players.len(), 2);
    assert_eq!(gs.phase, GamePhase::Playing);
    assert_eq!(gs.players[0].personal.len(), 13);
    assert_eq!(gs.players[0].hand.len(), 5);
    assert_eq!(gs.players[1].personal.len(), 13);
    assert_eq!(gs.players[1].hand.len(), 5);
}

#[test]
fn add_player_third_fails() {
    let mut gs = empty_game_for_lobby();
    let id0 = uuid_id(Uuid::from_u128(100));
    let id1 = uuid_id(Uuid::from_u128(200));
    let id2 = uuid_id(Uuid::from_u128(300));
    gs.add_player(id0, PlayerIdx(0));
    gs.add_player(id1, PlayerIdx(1));
    assert!(!gs.add_player(id2, PlayerIdx(2)));
    assert_eq!(gs.players.len(), 2);
}

#[test]
fn add_player_duplicate_id_fails() {
    let mut gs = empty_game_for_lobby();
    gs.players.clear();
    gs.phase = GamePhase::Waiting;
    let player_id = uuid_id(Uuid::new_v4());
    assert!(gs.add_player(player_id, PlayerIdx(0)));
    assert_eq!(gs.players.len(), 1);
    assert!(!gs.add_player(player_id, PlayerIdx(1)));
    assert_eq!(gs.players.len(), 1);
}

#[test]
fn add_player_duplicate_idx_fails() {
    let mut gs = empty_game_for_lobby();
    gs.players.clear();
    gs.phase = GamePhase::Waiting;
    assert!(gs.add_player(uuid_id(Uuid::nil()), PlayerIdx(5)));
    assert_eq!(gs.players.len(), 1);
    assert!(!gs.add_player(uuid_id(Uuid::nil()), PlayerIdx(5)));
    assert_eq!(gs.players.len(), 1);
}

#[test]
fn remove_player_during_play_ends_game() {
    let mut gs = empty_game_for_lobby();
    let id0 = uuid_id(Uuid::from_u128(100));
    let id1 = uuid_id(Uuid::from_u128(200));
    assert!(gs.add_player(id0, PlayerIdx(0)));
    assert!(gs.add_player(id1, PlayerIdx(1)));
    assert_eq!(gs.phase, GamePhase::Playing);
    gs.remove_player(PlayerIdx(1));
    assert_eq!(gs.players.len(), 1);
    assert_eq!(gs.phase, GamePhase::Finished);
}

#[test]
fn remove_during_play_ends_game() {
    let mut gs = make_game();
    let before = gs.players.len();
    gs.remove_player(PlayerIdx(1));
    assert_eq!(gs.phase, GamePhase::Finished);
    assert_eq!(gs.players.len(), before - 1);
}

#[test]
fn remove_player_adjusts_current_turn_if_needed() {
    let mut gs = empty_game_for_lobby();
    gs.add_player(uuid_id(Uuid::nil()), PlayerIdx(0));
    gs.add_player(uuid_id(Uuid::nil()), PlayerIdx(1));
    gs.current_turn = PlayerIdx(1);
    gs.remove_player(PlayerIdx(1));
    assert_eq!(gs.current_turn, PlayerIdx(0));
}

#[test]
fn remove_player_nonexistent_does_nothing() {
    let mut gs = empty_game_for_lobby();
    gs.add_player(uuid_id(Uuid::nil()), PlayerIdx(0));
    let before_len = gs.players.len();
    gs.remove_player(PlayerIdx(99));
    assert_eq!(gs.players.len(), before_len);
    assert_eq!(gs.phase, GamePhase::Waiting);
}

#[test]
fn not_your_turn_rejected() {
    let mut gs = make_game();
    gs.current_turn = PlayerIdx(0);
    let result = gs.apply_move(PlayerIdx(1), Action::Draw);
    assert_eq!(result, Err(MoveError::NotYourTurn));
}

#[test]
fn wrong_phase_action_rejected() {
    let mut gs = make_game();
    gs.phase = GamePhase::Waiting;
    let result = gs.apply_move(PlayerIdx(0), Action::Draw);
    assert_eq!(result, Err(MoveError::NotAllowed));
}

#[test]
fn draw_in_draw_phase_works() {
    let mut gs = make_game();
    gs.current_turn = PlayerIdx(0);
    let player_idx = current_turn_player(&gs);
    let initial_hand = hand_len(&gs, 0);
    let result = gs.apply_move(player_idx, Action::Draw);
    assert!(result.is_ok());
    let move_result = result.unwrap();
    assert_eq!(move_result.success, MoveSuccess::Success);
    assert!(move_result.discarded_cards.is_none());
    assert!(move_result.drawn_cards.is_some());
    assert_eq!(initial_hand, 5);
    assert!(hand_len(&gs, 0) >= 6);
    assert_eq!(gs.turn_phase, TurnPhase::Play);
}

#[test]
fn draw_in_play_phase_rejected() {
    let mut gs = make_game();
    gs.turn_phase = TurnPhase::Play;
    let result = gs.apply_move(current_turn_player(&gs), Action::Draw);
    assert_eq!(result, Err(MoveError::NotAllowed));
}

#[test]
fn draw_with_empty_deck_still_succeeds() {
    let mut gs = make_game();
    gs.current_turn = PlayerIdx(0);
    while gs.card_dealer.remaining() > 0 {
        gs.card_dealer.draw_one();
    }
    let result = gs.apply_move(PlayerIdx(0), Action::Draw).unwrap();
    assert_eq!(result.success, MoveSuccess::Success);
    assert!(result.discarded_cards.is_none());
    assert_eq!(gs.turn_phase, TurnPhase::Play);
}

#[test]
fn open_scale_with_ace() {
    let mut gs = make_game();
    gs.current_turn = PlayerIdx(0);
    let _ = gs.apply_move(PlayerIdx(0), Action::Draw);
    gs.players[0].hand[0] = Card { suit: Suit::Hearts, value: 1, deck: DeckColor::Red };
    let hand_size_before = hand_len(&gs, 0);
    let result = gs.apply_move(PlayerIdx(0), Action::OpenScale { hand_idx: HandIdx(0) });
    assert_eq!(
        result,
        Ok(MoveResult {
            success: MoveSuccess::ScaleOpened { scale_id: ScaleIdx(0) },
            drawn_cards: Some(vec![]),
            discarded_cards: None,
        })
    );
    assert_eq!(scale_cards(&gs, 0), vec![card(1)]);
    assert_eq!(gs.scale_manager.scales.len(), 8);
    assert_eq!(hand_len(&gs, 0), hand_size_before - 1);
}

#[test]
fn open_scale_with_non_ace_rejected() {
    let mut gs = make_game();
    gs.current_turn = PlayerIdx(0);
    let _ = gs.apply_move(PlayerIdx(0), Action::Draw);
    gs.players[0].hand[0] = Card { suit: Suit::Hearts, value: 5, deck: DeckColor::Red };
    let result = gs.apply_move(PlayerIdx(0), Action::OpenScale { hand_idx: HandIdx(0) });
    assert_eq!(result, Err(MoveError::DoesNotFit));
    assert_eq!(hand_len(&gs, 0), 6);
}

#[test]
fn scale_returns_reference_to_existing_scale() {
    let mut gs = empty_game_for_lobby();
    gs.add_player(uuid_id(Uuid::nil()), PlayerIdx(0));
    gs.add_player(uuid_id(Uuid::nil()), PlayerIdx(1));
    let mut scale = Scale::new(ScaleIdx(0));
    scale.push(Card { suit: Suit::Hearts, value: 1, deck: DeckColor::Red }).unwrap();
    gs.scale_manager.scales[0] = Some(scale);
    let retrieved = gs.scale(ScaleIdx(0));
    assert_eq!(retrieved.as_ref().unwrap().scale_idx, ScaleIdx(0));
}

#[test]
fn can_place_on_scale_delegates_to_scale_manager() {
    let mut gs = empty_game_for_lobby();
    gs.add_player(uuid_id(Uuid::nil()), PlayerIdx(0));
    gs.add_player(uuid_id(Uuid::nil()), PlayerIdx(1));
    let mut scale = Scale::new(ScaleIdx(0));
    scale.push(Card { suit: Suit::Hearts, value: 1, deck: DeckColor::Red }).unwrap();
    gs.scale_manager.scales[0] = Some(scale);
    let card = Card { suit: Suit::Hearts, value: 2, deck: DeckColor::Red };
    assert!(gs.can_place_on_scale(ScaleIdx(0), &card));
    let bad_card = Card { suit: Suit::Spades, value: 3, deck: DeckColor::Blue };
    assert!(!gs.can_place_on_scale(ScaleIdx(0), &bad_card));
}

#[test]
fn can_place_on_scale_returns_false_for_invalid_scale_id() {
    let gs = empty_game_for_lobby();
    let card = Card { suit: Suit::Clubs, value: 1, deck: DeckColor::Red };
    assert!(!gs.can_place_on_scale(ScaleIdx(99), &card));
}

#[test]
fn play_hand_valid() {
    let mut gs = make_game();
    gs.current_turn = PlayerIdx(0);
    let _ = gs.apply_move(PlayerIdx(0), Action::Draw);
    gs.players[0].hand[0] = card(1);
    let _ = gs.apply_move(PlayerIdx(0), Action::OpenScale { hand_idx: HandIdx(0) });
    gs.players[0].hand[0] = card(2);
    let result = gs
        .apply_move(PlayerIdx(0), Action::PlayHand { hand_idx: HandIdx(0), scale_idx: ScaleIdx(0) })
        .unwrap();
    assert_eq!(result.success, MoveSuccess::ScalePlaced { scale_id: ScaleIdx(0), completed: false });
    assert_eq!(scale_cards(&gs, 0), vec![card(1), card(2)]);
    assert_eq!(result.discarded_cards, None);
    assert_eq!(hand_len(&gs, 0), 4);
}

#[test]
fn play_hand_invalid_scale() {
    let mut gs = make_game();
    gs.current_turn = PlayerIdx(0);
    let _ = gs.apply_move(PlayerIdx(0), Action::Draw);
    let result = gs.apply_move(PlayerIdx(0), Action::PlayHand { hand_idx: HandIdx(0), scale_idx: ScaleIdx(99) });
    assert_eq!(result, Err(MoveError::DoesNotFit));
}

#[test]
fn player_returns_some_for_existing_id() {
    let mut gs = empty_game_for_lobby();
    gs.add_player(uuid_id(Uuid::nil()), PlayerIdx(7));
    gs.add_player(uuid_id(Uuid::nil()), PlayerIdx(8));
    let p = gs.player(PlayerIdx(7));
    assert!(p.is_some());
    assert_eq!(PlayerIdx(p.unwrap().player_idx), PlayerIdx(7));
}

#[test]
fn player_returns_none_for_missing_id() {
    let gs = empty_game_for_lobby();
    assert!(gs.player(PlayerIdx(99)).is_none());
}

#[test]
fn play_personal_to_scale() {
    let mut gs = make_game();
    gs.current_turn = PlayerIdx(0);
    let _ = gs.apply_move(PlayerIdx(0), Action::Draw);
    gs.players[0].personal[12] = Card { suit: Suit::Hearts, value: 2, deck: DeckColor::Red };
    let mut scale = Scale::new(ScaleIdx(0));
    scale.push(Card { suit: Suit::Hearts, value: 1, deck: DeckColor::Red }).unwrap();
    gs.scale_manager.scales[0] = Some(scale);
    let result = gs.apply_move(PlayerIdx(0), Action::PlayPersonal { scale_idx: ScaleIdx(0) });
    let move_result = result.unwrap();
    assert_eq!(move_result.success, MoveSuccess::ScalePlaced { scale_id: ScaleIdx(0), completed: false });
    assert_eq!(scale_cards(&gs, 0), vec![card(1), card(2)]);
    assert!(move_result.discarded_cards.is_none());
    assert_eq!(personal_len(&gs, 0), 12);
}

#[test]
fn play_side_to_scale() {
    let mut gs = make_game();
    gs.current_turn = PlayerIdx(0);
    let _ = gs.apply_move(PlayerIdx(0), Action::Draw);
    gs.players[0].side[0].push(card(2));
    let mut scale = Scale::new(ScaleIdx(0));
    scale.push(Card { suit: Suit::Hearts, value: 1, deck: DeckColor::Red }).unwrap();
    gs.scale_manager.scales[0] = Some(scale);
    let result = gs.apply_move(PlayerIdx(0), Action::PlaySide { stack_idx: StackIdx(0), scale_idx: ScaleIdx(0) });
    assert_eq!(
        result,
        Ok(MoveResult {
            success: MoveSuccess::ScalePlaced { scale_id: ScaleIdx(0), completed: false },
            drawn_cards: Some(vec![]),
            discarded_cards: None,
        })
    );
    assert_eq!(scale_cards(&gs, 0), vec![card(1), card(2)]);
    assert!(gs.players[0].side[0].is_empty());
}

#[test]
fn move_to_side_ends_turn() {
    let mut gs = make_game();
    gs.current_turn = PlayerIdx(0);
    let result = gs.apply_move(PlayerIdx(0), Action::Draw).unwrap();
    assert_eq!(result.success, MoveSuccess::Success);
    assert_eq!(hand_len(&gs, 0), 6);
    let initial_turn = gs.current_turn;
    let result = gs
        .apply_move(PlayerIdx(0), Action::MoveToSide { hand_idx: HandIdx(0), stack_idx: StackIdx(0) })
        .unwrap();
    assert_eq!(result.success, MoveSuccess::TurnEnded);
    assert!(result.drawn_cards.is_none());
    assert!(result.discarded_cards.is_none());
    assert_eq!(gs.current_turn, PlayerIdx((initial_turn.0 + 1) % 2));
    assert_eq!(gs.turn_phase, TurnPhase::Draw);
    assert_eq!(gs.players[0].side[0].len(), 1);
    assert_eq!(hand_len(&gs, 0), 5);
}

#[test]
fn move_king_from_personal_to_side() {
    let mut gs = make_game();
    gs.current_turn = PlayerIdx(0);
    let result = gs.apply_move(PlayerIdx(0), Action::Draw).unwrap();
    assert_eq!(result.success, MoveSuccess::Success);
    let king = Card { suit: Suit::Spades, value: 13, deck: DeckColor::Blue };
    gs.players[0].personal.clear();
    gs.players[0].personal.push(king);
    let result = gs
        .apply_move(PlayerIdx(0), Action::MovePersonalToSide { stack_idx: StackIdx(0) })
        .unwrap();
    assert_eq!(result.success, MoveSuccess::Success);
    assert!(result.discarded_cards.is_none());
    assert!(gs.players[0].personal.is_empty());
    assert_eq!(gs.players[0].side[0].len(), 1);
}

#[test]
fn move_non_king_from_personal_rejected() {
    let mut gs = make_game();
    gs.current_turn = PlayerIdx(0);
    let _ = gs.apply_move(PlayerIdx(0), Action::Draw);
    let card = Card { value: 5, ..gs.players[0].personal[0] };
    gs.players[0].personal.clear();
    gs.players[0].personal.push(card);
    let result = gs.apply_move(PlayerIdx(0), Action::MovePersonalToSide { stack_idx: StackIdx(0) });
    assert_eq!(result, Err(MoveError::NotAllowed));
}

#[test]
fn win_on_move_to_side_when_both_piles_empty() {
    let mut gs = make_game();
    gs.current_turn = PlayerIdx(0);
    let _ = gs.apply_move(PlayerIdx(0), Action::Draw);
    gs.players[0].personal.clear();
    gs.players[0].hand = vec![Card { value: 2, ..gs.players[0].hand[0] }];
    let result = gs.apply_move(PlayerIdx(0), Action::MoveToSide { hand_idx: HandIdx(0), stack_idx: StackIdx(0) });
    assert_eq!(
        result,
        Ok(MoveResult {
            success: MoveSuccess::GameWon { winner_idx: PlayerIdx(0) },
            drawn_cards: None,
            discarded_cards: None,
        })
    );
    assert_eq!(gs.phase, GamePhase::Finished);
}

#[test]
fn refill_hand() {
    let mut gs = make_game();
    gs.current_turn = PlayerIdx(0);
    let MoveResult { success: res, drawn_cards: drawn, discarded_cards: _ } =
        gs.apply_move(PlayerIdx(0), Action::Draw).unwrap();
    assert_eq!(res, MoveSuccess::Success);
    assert!(drawn.as_ref().unwrap().len() >= 1);
    assert!(!drawn.as_ref().unwrap().is_empty());
    gs.players[0].hand = vec![Card { value: 1, suit: Suit::Hearts, deck: DeckColor::Red }];
    assert_eq!(gs.players[0].hand.len(), 1);
    let MoveResult { success: res, drawn_cards: refill_cards, discarded_cards: _ } =
        gs.apply_move(PlayerIdx(0), Action::OpenScale { hand_idx: HandIdx(0) }).unwrap();
    assert_eq!(res, MoveSuccess::ScaleOpened { scale_id: ScaleIdx(0) });
    assert_eq!(scale_cards(&gs, 0), vec![card(1)]);
    assert_eq!(gs.players[0].hand.len(), 5);
    let refill_cards = refill_cards.unwrap();
    assert_eq!(refill_cards.len(), 5);
    for (i, card) in refill_cards.iter().enumerate() {
        assert_eq!(gs.players[0].hand[i], *card);
    }
}

#[test]
fn simulated_game_partial() {
    let mut gs = make_game();
    gs.current_turn = PlayerIdx(0);

    let result = gs.apply_move(PlayerIdx(0), Action::Draw).unwrap();
    assert_eq!(result.success, MoveSuccess::Success);
    assert!(result.drawn_cards.is_some());
    assert_eq!(hand_len(&gs, 0), 6);

    gs.players[0].hand[0] = Card { value: 1, suit: Suit::Hearts, deck: DeckColor::Red };
    let result = gs.apply_move(PlayerIdx(0), Action::OpenScale { hand_idx: HandIdx(0) }).unwrap();
    assert_eq!(result.success, MoveSuccess::ScaleOpened { scale_id: ScaleIdx(0) });
    assert_eq!(scale_cards(&gs, 0), vec![card(1)]);
    assert_eq!(result.drawn_cards, Some(vec![]));
    assert_eq!(result.discarded_cards, None);
    assert_eq!(hand_len(&gs, 0), 5);
    assert_eq!(gs.scale_manager.scales.len(), 8);

    gs.players[0].hand[0] = Card { value: 2, suit: Suit::Hearts, deck: DeckColor::Red };
    let result = gs
        .apply_move(PlayerIdx(0), Action::PlayHand { hand_idx: HandIdx(0), scale_idx: ScaleIdx(0) })
        .unwrap();
    assert_eq!(result.success, MoveSuccess::ScalePlaced { scale_id: ScaleIdx(0), completed: false });
    assert_eq!(scale_cards(&gs, 0), vec![card(1), card(2)]);
    assert_eq!(result.drawn_cards, Some(vec![]));
    assert_eq!(result.discarded_cards, None);
    assert_eq!(hand_len(&gs, 0), 4);

    let result = gs
        .apply_move(PlayerIdx(0), Action::MoveToSide { hand_idx: HandIdx(0), stack_idx: StackIdx(0) })
        .unwrap();
    assert_eq!(result.success, MoveSuccess::TurnEnded);
    assert!(result.drawn_cards.is_none());
    assert!(result.discarded_cards.is_none());
    assert_eq!(gs.current_turn, PlayerIdx(1));
    assert_eq!(gs.turn_phase, TurnPhase::Draw);
    assert_eq!(gs.players[0].side[0].len(), 1);
    assert_eq!(hand_len(&gs, 0), 3);

    let result = gs.apply_move(PlayerIdx(1), Action::Draw).unwrap();
    assert_eq!(result.success, MoveSuccess::Success);
    assert!(result.drawn_cards.is_some());
    assert_eq!(hand_len(&gs, 1), 6);

    gs.players[1].hand[0] = Card { value: 1, suit: Suit::Hearts, deck: DeckColor::Red };
    assert_eq!(
        gs.apply_move(PlayerIdx(1), Action::OpenScale { hand_idx: HandIdx(0) }),
        Ok(MoveResult {
            success: MoveSuccess::ScaleOpened { scale_id: ScaleIdx(1) },
            drawn_cards: Some(vec![]),
            discarded_cards: None,
        })
    );
    assert_eq!(scale_cards(&gs, 1), vec![card(1)]);
    assert_eq!(hand_len(&gs, 1), 5);

    gs.players[1].hand[0] = Card { value: 2, suit: Suit::Hearts, deck: DeckColor::Red };
    assert_eq!(
        gs.apply_move(PlayerIdx(1), Action::PlayHand { hand_idx: HandIdx(0), scale_idx: ScaleIdx(1) }),
        Ok(MoveResult {
            success: MoveSuccess::ScalePlaced { scale_id: ScaleIdx(1), completed: false },
            drawn_cards: Some(vec![]),
            discarded_cards: None,
        })
    );
    assert_eq!(scale_cards(&gs, 1), vec![card(1), card(2)]);
    assert_eq!(hand_len(&gs, 1), 4);
}

#[test]
fn current_player_idx_returns_current_turn() {
    let mut gs = make_game();
    gs.current_turn = PlayerIdx(0);
    assert_eq!(gs.current_player_idx(), Some(PlayerIdx(0)));
    gs.apply_move(PlayerIdx(0), Action::Draw).unwrap();
    gs.apply_move(PlayerIdx(0), Action::MoveToSide { hand_idx: HandIdx(0), stack_idx: StackIdx(0) }).unwrap();
    assert_eq!(gs.current_player_idx(), Some(PlayerIdx(1)));
}

#[test]
fn current_player_id_returns_correct_id() {
    let mut gs = make_game();
    gs.current_turn = PlayerIdx(0);
    assert_eq!(gs.current_player_idx(), Some(PlayerIdx(0)));
}

#[test]
fn current_player_id_none_if_no_players() {
    let mut gs = empty_game_for_lobby();
    gs.remove_player(PlayerIdx(1));
    gs.remove_player(PlayerIdx(0));
    assert!(gs.current_player_idx().is_none());
}

#[test]
fn is_playing_returns_true_only_while_playing() {
    let mut gs = make_game();
    assert!(gs.is_playing());
    gs.phase = GamePhase::Waiting;
    assert!(!gs.is_playing());
    gs.phase = GamePhase::Finished;
    assert!(!gs.is_playing());
}

#[test]
fn winner_returns_none_when_no_one_has_won() {
    let gs = make_game();
    assert!(gs.winner().is_none());
}

#[test]
fn winner_returns_some_after_win() {
    let mut gs = make_game();
    gs.players[0].personal.clear();
    gs.players[0].hand.clear();
    assert!(gs.players[0].has_won());
    assert_eq!(PlayerIdx(gs.winner().unwrap().player_idx), PlayerIdx(0));
}

#[test]
fn check_win_condition_sets_finished() {
    let mut gs = make_game();
    gs.players[0].personal.clear();
    gs.players[0].hand.clear();
    assert!(!gs.check_win_condition(PlayerIdx(1)));
    assert_eq!(gs.phase, GamePhase::Playing);
    assert!(gs.check_win_condition(PlayerIdx(0)));
    assert_eq!(gs.phase, GamePhase::Finished);
    assert!(gs.check_win_condition(PlayerIdx(0)));
}
