use topo::card::{Card, DeckColor, Suit};
use topo::deck::Deck;

#[test]
fn double_deck_has_104_cards() {
    let deck = Deck::double();
    assert_eq!(deck.remaining(), 104);
}

#[test]
fn double_deck_has_all_values() {
    let deck = Deck::double();
    let mut counts = [0; 14];
    for card in deck.cards.iter() {
        counts[card.value as usize] += 1;
    }
    for value in 1..=13 {
        assert_eq!(counts[value], 8, "Value {} should appear 8 times", value);
    }
}

#[test]
fn draw_one_reduces_size() {
    let mut deck = Deck::double();
    let _ = deck.draw_one();
    assert_eq!(deck.remaining(), 103);
}

#[test]
fn draw_until_empty() {
    let mut deck = Deck::double();
    for _ in 0..104 {
        assert!(deck.draw_one().is_some());
    }
    assert!(deck.draw_one().is_none());
    assert_eq!(deck.remaining(), 0);
}

#[test]
fn deal_removes_correct_amount() {
    let mut deck = Deck::double();
    let hand = deck.deal(10);
    assert_eq!(hand.len(), 10);
    assert_eq!(deck.remaining(), 94);
}

#[test]
fn deal_more_than_available() {
    let mut deck = Deck::double();
    let hand = deck.deal(200);
    assert_eq!(hand.len(), 104);
    assert_eq!(deck.remaining(), 0);
}

#[test]
fn shuffle_changes_order() {
    let deck1 = Deck::double();
    let mut deck2 = Deck::double();
    deck2.shuffle();
    assert_ne!(deck1.cards, deck2.cards);
}

#[test]
fn deck_shuffle_with_seed_is_deterministic() {
    let mut deck1 = Deck::double();
    let mut deck2 = Deck::double();
    deck1.shuffle_with_seed(42);
    deck2.shuffle_with_seed(42);
    assert_eq!(deck1.cards, deck2.cards);
}

#[test]
fn shuffle_with_different_seeds_is_different() {
    let mut deck1 = Deck::double();
    let mut deck2 = Deck::double();
    deck1.shuffle_with_seed(1);
    deck2.shuffle_with_seed(2);
    assert_ne!(deck1.cards, deck2.cards);
}

#[test]
fn add_bottom_places_cards_under_deck() {
    let mut deck = Deck::double();
    let bottom_cards = vec![
        Card { suit: Suit::Hearts, value: 1, deck: DeckColor::Red },
        Card { suit: Suit::Spades, value: 13, deck: DeckColor::Blue },
    ];
    let original_top = deck.cards.last().cloned();
    deck.add_bottom(bottom_cards.clone());
    assert_eq!(deck.cards.last(), original_top.as_ref());
    assert_eq!(deck.cards[0], bottom_cards[0]);
    assert_eq!(deck.cards[1], bottom_cards[1]);
}

#[test]
fn shuffle_keeps_every_card() {
    let mut deck = Deck::double();
    deck.shuffle_with_seed(9);
    let mut counts = [0; 14];
    for card in deck.iter() {
        counts[card.value as usize] += 1;
    }
    assert_eq!(deck.remaining(), 104);
    for value in 1..=13 {
        assert_eq!(counts[value], 8);
    }
}

#[test]
fn new_with_colors_makes_fifty_two_cards_per_color() {
    let deck = Deck::new_with_colors(&[DeckColor::Blue]);
    assert_eq!(deck.remaining(), 52);
    assert!(deck.iter().all(|c| c.deck == DeckColor::Blue));
    assert_eq!(deck.cards[0], Card { suit: Suit::Hearts, value: 1, deck: DeckColor::Blue });
}

#[test]
fn deal_takes_cards_from_the_bottom() {
    let mut deck = Deck::double();
    let first = deck.cards[0];
    let dealt = deck.deal(1);
    assert_eq!(dealt, vec![first]);
}
