use topo::board::PlayerBoard;
use topo::card::{Card, DeckColor, Suit};
use topo::dealer::CardDealer;
use topo::full_state::{build_full_state, build_game_over_full_state, build_lobby_full_state, LobbyPlayerView, RoomSnapshot};
use topo::ids::{GameId, PlayerId, PlayerIdx, Seconds, Seed};
use topo::room::RoomMember;
use topo::protocol::ServerEvent;
use topo::state::GameState;
use uuid::Uuid;

fn dummy_card(deck: DeckColor) -> Card {
    Card { deck, suit: Suit::Clubs, value: 3 }
}

fn make_player_board(player_idx: PlayerIdx, personal: Vec<Card>, hand: Vec<Card>) -> PlayerBoard {
    let mut board = PlayerBoard::new(player_idx.0);
    board.player_id = Some(PlayerId(Uuid::nil().as_u128()));
    board.set_personal(personal);
    board.hand = hand;
    board
}

fn make_test_game_state(
    players: Vec<PlayerBoard>,
    current_turn: PlayerIdx,
    draw_pile_top: Option<Card>,
    draw_pile_remaining: usize,
    turn_seconds: Seconds,
) -> GameState {
    let mut card_dealer = CardDealer::new(Seed(0));
    let mut cards = Vec::with_capacity(draw_pile_remaining);
    if let Some(top) = draw_pile_top {
        for _ in 0..(draw_pile_remaining.saturating_sub(1)) {
            cards.push(dummy_card(DeckColor::Blue));
        }
        cards.push(top);
    } else {
        for _ in 0..draw_pile_remaining {
            cards.push(dummy_card(DeckColor::Blue));
        }
    }
    card_dealer.draw_pile.cards = cards;
    GameState::test_new(players, current_turn, card_dealer, turn_seconds)
}

fn nil_id() -> PlayerId {
    PlayerId(Uuid::nil().as_u128())
}

#[test]
fn player_not_found_returns_none() {
    let state = make_test_game_state(vec![], PlayerIdx(0), None, 0, Seconds(30));
    let result = build_full_state(&state, nil_id(), PlayerIdx(42), String::new());
    assert!(result.is_none());
}

#[test]
fn success_path_with_both_players() {
    let personal_cards = vec![
        dummy_card(DeckColor::Red),
        dummy_card(DeckColor::Blue),
        dummy_card(DeckColor::Red),
    ];
    let hand_cards = vec![dummy_card(DeckColor::Red)];

    let your_board = make_player_board(PlayerIdx(1), personal_cards.clone(), hand_cards.clone());
    let opponent_board = make_player_board(PlayerIdx(2), vec![], vec![]);

    let state = make_test_game_state(
        vec![your_board, opponent_board],
        PlayerIdx(0),
        Some(dummy_card(DeckColor::Blue)),
        15,
        Seconds(42),
    );

    let result = build_full_state(&state, nil_id(), PlayerIdx(1), "Alice".to_string());
    assert!(result.is_some());

    if let Some(ServerEvent::FullState {
        your_board,
        your_turn,
        opponent,
        dealer_preview,
        dealer_count,
        turn_seconds_remaining,
        ..
    }) = result
    {
        assert_eq!(PlayerIdx(your_board.player_idx), PlayerIdx(1));
        assert_eq!(your_board.personal.count, 3);
        assert_eq!(your_board.personal.top, personal_cards.last().cloned());

        let expected_colors = vec![DeckColor::Red, DeckColor::Blue, DeckColor::Red];
        assert_eq!(your_board.personal.colors, expected_colors);
        assert_eq!(your_board.hand, hand_cards);

        assert!(your_turn);

        assert_eq!(opponent.player_idx, PlayerIdx(2));
        assert_eq!(opponent.username, "Alice");
        assert_eq!(opponent.hand.len(), 0);
        assert_eq!(opponent.personal_count, 0);
        assert_eq!(opponent.personal_top, None);

        assert_eq!(dealer_preview, vec![DeckColor::Blue]);
        assert_eq!(dealer_count, 15);
        assert_eq!(turn_seconds_remaining, Seconds(42));
    } else {
        panic!("Wrong ServerEvent variant");
    }
}

#[test]
fn your_turn_false_when_not_current_player() {
    let your_board = make_player_board(PlayerIdx(1), vec![], vec![]);
    let opponent_board = make_player_board(PlayerIdx(2), vec![], vec![]);
    let state = make_test_game_state(vec![your_board, opponent_board], PlayerIdx(1), None, 0, Seconds(30));
    let result = build_full_state(&state, nil_id(), PlayerIdx(1), "Bob".to_string());

    if let Some(ServerEvent::FullState { your_turn, .. }) = result {
        assert!(!your_turn);
    } else {
        panic!("Expected FullState");
    }
}

#[test]
fn empty_personal_pile() {
    let your_board = make_player_board(PlayerIdx(1), vec![], vec![]);
    let opponent_board = make_player_board(PlayerIdx(2), vec![], vec![]);
    let state = make_test_game_state(vec![your_board, opponent_board], PlayerIdx(1), None, 10, Seconds(5));
    let result = build_full_state(&state, nil_id(), PlayerIdx(1), "Charlie".to_string());

    if let Some(ServerEvent::FullState { your_board, .. }) = result {
        assert_eq!(your_board.personal.count, 0);
        assert_eq!(your_board.personal.top, None);
        assert!(your_board.personal.colors.is_empty());
    } else {
        panic!("Expected FullState");
    }
}

#[test]
fn dealer_top_none_when_draw_pile_empty() {
    let your_board = make_player_board(PlayerIdx(1), vec![], vec![]);
    let opponent_board = make_player_board(PlayerIdx(2), vec![], vec![]);
    let state = make_test_game_state(vec![your_board, opponent_board], PlayerIdx(1), None, 0, Seconds(10));
    let result = build_full_state(&state, nil_id(), PlayerIdx(1), "Dave".to_string());

    if let Some(ServerEvent::FullState { dealer_preview, .. }) = result {
        assert_eq!(dealer_preview, vec![]);
    } else {
        panic!("Expected FullState");
    }
}

#[test]
fn opponent_not_found_uses_default() {
    let your_board = make_player_board(PlayerIdx(1), vec![], vec![]);
    let state = make_test_game_state(vec![your_board], PlayerIdx(1), None, 5, Seconds(20));

    let result = build_full_state(&state, nil_id(), PlayerIdx(1), String::new());

    if let Some(ServerEvent::FullState { opponent, .. }) = result {
        assert_eq!(opponent.player_idx, PlayerIdx(0));
        assert_eq!(opponent.username, String::new());
        assert_eq!(opponent.hand.len(), 0);
        assert_eq!(opponent.personal_count, 0);
        assert_eq!(opponent.personal_top, None);
        assert_eq!(opponent.side, [vec![], vec![], vec![], vec![]]);
    } else {
        panic!("Expected FullState");
    }
}

#[test]
fn opponent_hand_is_shown_face_down() {
    let your_board = make_player_board(PlayerIdx(0), vec![], vec![]);
    let hand = vec![
        Card { deck: DeckColor::Blue, suit: Suit::Spades, value: 9 },
        Card { deck: DeckColor::Red, suit: Suit::Diamonds, value: 12 },
    ];
    let opponent_board = make_player_board(PlayerIdx(1), vec![], hand);
    let state = make_test_game_state(vec![your_board, opponent_board], PlayerIdx(0), None, 0, Seconds(30));
    let result = build_full_state(&state, nil_id(), PlayerIdx(0), "Eve".to_string());
    if let Some(ServerEvent::FullState { opponent, .. }) = result {
        assert_eq!(opponent.hand.len(), 2);
        assert_eq!(opponent.hand[0], Card { deck: DeckColor::Blue, suit: Suit::Hearts, value: 0 });
        assert_eq!(opponent.hand[1], Card { deck: DeckColor::Red, suit: Suit::Hearts, value: 0 });
    } else {
        panic!("Expected FullState");
    }
}

#[test]
fn previews_show_seven_personal_cards_and_the_dealer_top() {
    let personal: Vec<Card> = (0..10)
        .map(|i| dummy_card(if i % 2 == 0 { DeckColor::Red } else { DeckColor::Blue }))
        .collect();
    let your_board = make_player_board(PlayerIdx(0), personal, vec![]);
    let state = make_test_game_state(vec![your_board], PlayerIdx(0), Some(dummy_card(DeckColor::Red)), 12, Seconds(30));
    let result = build_full_state(&state, nil_id(), PlayerIdx(0), String::new());
    if let Some(ServerEvent::FullState { your_board, dealer_preview, dealer_count, .. }) = result {
        assert_eq!(your_board.personal.count, 10);
        assert_eq!(
            your_board.personal.colors,
            vec![
                DeckColor::Blue,
                DeckColor::Red,
                DeckColor::Blue,
                DeckColor::Red,
                DeckColor::Blue,
                DeckColor::Red,
                DeckColor::Blue
            ]
        );
        assert_eq!(dealer_preview, vec![DeckColor::Red]);
        assert_eq!(dealer_count, 12);
    } else {
        panic!("Expected FullState");
    }
}

#[test]
fn lobby_snapshot_lists_every_member() {
    let members = vec![
        RoomMember { player_id: PlayerId(1), username: "Alice".to_string(), player_idx: PlayerIdx(0), connected: true },
        RoomMember { player_id: PlayerId(2), username: "Bob".to_string(), player_idx: PlayerIdx(1), connected: false },
    ];
    let ready = vec![PlayerId(2)];
    let state = build_lobby_full_state(GameId("g".to_string()), PlayerId(1), PlayerIdx(0), &members, &ready);
    assert_eq!(state.player_id, PlayerId(1));
    assert_eq!(state.player_idx, PlayerIdx(0));
    match state.snapshot {
        RoomSnapshot::Lobby { game_id, players } => {
            assert_eq!(game_id, GameId("g".to_string()));
            assert_eq!(
                players,
                vec![
                    LobbyPlayerView {
                        player_id: PlayerId(1),
                        player_idx: PlayerIdx(0),
                        username: "Alice".to_string(),
                        is_ready: false,
                        is_disconnected: false,
                    },
                    LobbyPlayerView {
                        player_id: PlayerId(2),
                        player_idx: PlayerIdx(1),
                        username: "Bob".to_string(),
                        is_ready: true,
                        is_disconnected: true,
                    },
                ]
            );
        }
        _ => panic!("expected the lobby"),
    }
}

#[test]
fn game_over_snapshot_names_the_winner() {
    let state = build_game_over_full_state(PlayerId(1), PlayerIdx(0), PlayerId(2), PlayerIdx(1), "won".to_string());
    assert_eq!(
        state.snapshot,
        RoomSnapshot::GameOver { winner_id: PlayerId(2), winner_idx: PlayerIdx(1), reason: "won".to_string() }
    );
}
