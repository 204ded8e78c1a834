use topo::card::{Card, DeckColor, Suit};

fn sample_card() -> Card {
    Card {
        suit: Suit::Hearts,
        value: 1,
        deck: DeckColor::Red,
    }
}

#[test]
fn display_value_ace() {
    let card = Card { value: 1, ..sample_card() };
    assert_eq!(card.display_value(), "A");
}

#[test]
fn display_value_numeric() {
    for (val, expected) in (2..=10).zip(["2", "3", "4", "5", "6", "7", "8", "9", "10"]) {
        let card = Card { value: val, ..sample_card() };
        assert_eq!(card.display_value(), expected, "failed for value {}", val);
    }
}

#[test]
fn display_value_face_cards() {
    let j = Card { value: 11, ..sample_card() };
    assert_eq!(j.display_value(), "J");
    let q = Card { value: 12, ..sample_card() };
    assert_eq!(q.display_value(), "Q");
    let k = Card { value: 13, ..sample_card() };
    assert_eq!(k.display_value(), "K");
}

#[test]
fn test_equality() {
    let a = Card { suit: Suit::Spades, value: 5, deck: DeckColor::Blue };
    let b = Card { suit: Suit::Spades, value: 5, deck: DeckColor::Blue };
    assert_eq!(a, b);
    let c = Card { value: 6, ..a };
    assert_ne!(a, c);
}

#[test]
fn test_copy_clone() {
    let first = sample_card();
    let copied = first;
    let cloned = first.clone();
    assert_eq!(first, copied);
    assert_eq!(first, cloned);
}
