use topo::card::{Card, DeckColor, Suit};
use topo::game::board::PlayerBoard;

fn card(value: u8) -> Card {
    Card {
        suit: Suit::Hearts,
        value,
        deck: DeckColor::Red,
    }
}

#[test]
fn board_new_board_is_empty() {
    let board = PlayerBoard::new("1".into(), "Joe".into());
    assert_eq!(board.player_id, "1");
    assert_eq!(board.username, "Joe");
    assert!(board.personal.is_empty());
    assert!(board.hand.is_empty());
    assert!(board.side.iter().all(|s| s.is_empty()));
}

#[test]
fn personal_top_and_pop() {
    let mut board = PlayerBoard::new("1".into(), "Joe".into());
    board.personal.push(card(1));
    board.personal.push(card(2));
    assert_eq!(board.personal_top().unwrap().value, 2);
    let popped = board.pop_personal().unwrap();
    assert_eq!(popped.value, 2);
    assert_eq!(board.personal_top().unwrap().value, 1);
}

#[test]
fn take_from_hand_valid_and_invalid() {
    let mut board = PlayerBoard::new("1".into(), "Joe".into());
    board.add_to_hand(card(1));
    board.add_to_hand(card(2));
    let c = board.take_from_hand(0).unwrap();
    assert_eq!(c.value, 1);
    assert_eq!(board.hand.len(), 1);
    assert!(board.take_from_hand(5).is_none());
}

#[test]
fn take_from_side_valid_and_invalid() {
    let mut board = PlayerBoard::new("1".into(), "Joe".into());
    board.side[0].push(card(1));
    board.side[0].push(card(2));
    let c = board.take_from_side(0).unwrap();
    assert_eq!(c.value, 2);
    board.take_from_side(0);
    assert!(board.take_from_side(0).is_none());
    assert!(board.take_from_side(5).is_none());
}

#[test]
fn place_on_side_valid_and_invalid() {
    let mut board = PlayerBoard::new("1".into(), "Joe".into());
    assert!(board.place_on_side(0, card(1)));
    assert_eq!(board.side[0].len(), 1);
    assert!(!board.place_on_side(5, card(2)));
}

#[test]
fn add_to_hand_works() {
    let mut board = PlayerBoard::new("1".into(), "Joe".into());
    board.add_to_hand(card(1));
    board.add_to_hand(card(2));
    assert_eq!(board.hand.len(), 2);
}

#[test]
fn has_won_only_when_empty() {
    let mut board = PlayerBoard::new("1".into(), "Joe".into());
    assert!(board.has_won());
    board.personal.push(card(1));
    assert!(!board.has_won());
    board.personal.clear();
    board.hand.push(card(2));
    assert!(!board.has_won());
    board.hand.clear();
    assert!(board.has_won());
}

#[test]
fn side_stacks_are_independent() {
    let mut board = PlayerBoard::new("1".into(), "Joe".into());
    board.place_on_side(0, card(1));
    board.place_on_side(1, card(2));
    assert_eq!(board.side[0].len(), 1);
    assert_eq!(board.side[1].len(), 1);
    assert_eq!(board.side[2].len(), 0);
}
