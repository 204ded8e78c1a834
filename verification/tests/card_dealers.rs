use topo::card::{Card, DeckColor, Suit};
use topo::dealer::CardDealer;
use topo::ids::Seed;

fn test_card(value: u8) -> Card {
    Card {
        suit: Suit::Hearts,
        value,
        deck: DeckColor::Red,
    }
}

#[test]
fn new_dealer_initial_state() {
    let dealer = CardDealer::new(Seed(42));
    assert_eq!(dealer.remaining(), 104);
    assert!(dealer.discard_pile.is_empty());
}

#[test]
fn draw_one_reduces_remaining() {
    let mut dealer = CardDealer::new(Seed(123));
    let before = dealer.remaining();
    let card = dealer.draw_one();
    assert!(card.is_some());
    assert_eq!(dealer.remaining(), before - 1);
}

#[test]
fn draw_one_returns_none_when_both_piles_empty() {
    let mut dealer = CardDealer::new(Seed(0));
    for _ in 0..104 {
        dealer.draw_one();
    }
    assert_eq!(dealer.remaining(), 0);
    assert!(dealer.discard_pile.is_empty());
    assert!(dealer.draw_one().is_none());
}

#[test]
fn recycling_triggered_when_draw_low() {
    let mut dealer = CardDealer::new(Seed(0));
    for _ in 0..94 {
        dealer.draw_one();
    }
    assert_eq!(dealer.remaining(), 10);
    dealer.return_to_discard(vec![test_card(1), test_card(2), test_card(3)]);
    assert_eq!(dealer.discard_pile.len(), 3);
    let card = dealer.draw_one();
    assert!(card.is_some());
    assert!(dealer.discard_pile.is_empty());
    assert_eq!(dealer.remaining(), 12);
}

#[test]
fn recycling_not_triggered_when_discard_empty() {
    let mut dealer = CardDealer::new(Seed(0));
    for _ in 0..94 {
        dealer.draw_one();
    }
    assert_eq!(dealer.remaining(), 10);
    let card = dealer.draw_one();
    assert!(card.is_some());
    assert_eq!(dealer.remaining(), 9);
}

#[test]
fn recycling_does_not_trigger_above_threshold() {
    let mut dealer = CardDealer::new(Seed(0));
    for _ in 0..93 {
        dealer.draw_one();
    }
    assert_eq!(dealer.remaining(), 11);
    dealer.return_to_discard(vec![test_card(5)]);
    dealer.draw_one();
    assert_eq!(dealer.discard_pile.len(), 1);
    assert_eq!(dealer.remaining(), 10);
}

#[test]
fn draw_up_to_respects_available_cards() {
    let mut dealer = CardDealer::new(Seed(0));
    for _ in 0..100 {
        dealer.draw_one();
    }
    assert_eq!(dealer.remaining(), 4);
    let drawn = dealer.draw_up_to(10);
    assert_eq!(drawn.len(), 4);
    assert_eq!(dealer.remaining(), 0);
    let drawn2 = dealer.draw_up_to(5);
    assert!(drawn2.is_empty());
}

#[test]
fn draw_up_to_can_trigger_recycling() {
    let mut dealer = CardDealer::new(Seed(0));
    for _ in 0..99 {
        dealer.draw_one();
    }
    assert_eq!(dealer.remaining(), 5);
    dealer.return_to_discard(vec![test_card(10), test_card(11)]);
    let drawn = dealer.draw_up_to(4);
    assert_eq!(drawn.len(), 4);
    assert_eq!(dealer.remaining(), 3);
    assert!(dealer.discard_pile.is_empty());
}

#[test]
fn deal_initial_does_not_trigger_recycling() {
    let mut dealer = CardDealer::new(Seed(0));
    for _ in 0..94 {
        dealer.draw_one();
    }
    assert_eq!(dealer.remaining(), 10);
    dealer.return_to_discard(vec![test_card(7), test_card(8)]);
    let (personal_piles, hands) = dealer.deal_initial(2, 4, 0);
    assert_eq!(personal_piles.len(), 2);
    assert_eq!(personal_piles[0].len(), 4);
    assert_eq!(personal_piles[1].len(), 4);
    assert_eq!(dealer.discard_pile.len(), 2);
    assert_eq!(dealer.remaining(), 2);
    assert!(hands.iter().all(|h| h.is_empty()));
}

#[test]
fn deal_initial_respects_available_cards() {
    let mut dealer = CardDealer::new(Seed(0));
    for _ in 0..100 {
        dealer.draw_one();
    }
    assert_eq!(dealer.remaining(), 4);
    let (personal_piles, _) = dealer.deal_initial(1, 10, 0);
    assert_eq!(personal_piles[0].len(), 4);
    assert_eq!(dealer.remaining(), 0);
}

#[test]
fn return_to_discard_accumulates_cards() {
    let mut dealer = CardDealer::new(Seed(0));
    dealer.return_to_discard(vec![test_card(1), test_card(2)]);
    assert_eq!(dealer.discard_pile.len(), 2);
    dealer.return_to_discard(vec![test_card(3)]);
    assert_eq!(dealer.discard_pile.len(), 3);
}

#[test]
fn card_dealer_shuffle_with_seed_is_deterministic() {
    let mut dealer1 = CardDealer::new(Seed(12345));
    let mut dealer2 = CardDealer::new(Seed(12345));
    let cards1: Vec<_> = (0..10).map(|_| dealer1.draw_one().unwrap()).collect();
    let cards2: Vec<_> = (0..10).map(|_| dealer2.draw_one().unwrap()).collect();
    assert_eq!(cards1, cards2);
}

#[test]
fn different_seeds_produce_different_order() {
    let mut dealer1 = CardDealer::new(Seed(111));
    let mut dealer2 = CardDealer::new(Seed(222));
    let cards1: Vec<_> = (0..10).map(|_| dealer1.draw_one().unwrap()).collect();
    let cards2: Vec<_> = (0..10).map(|_| dealer2.draw_one().unwrap()).collect();
    assert_ne!(cards1, cards2);
}

#[test]
fn peek_shows_the_next_card_without_taking_it() {
    let mut dealer = CardDealer::new(Seed(7));
    let top = *dealer.peek().unwrap();
    assert_eq!(dealer.remaining(), 104);
    assert_eq!(dealer.draw_one(), Some(top));
}

#[test]
fn recycled_cards_go_under_the_draw_pile() {
    let mut dealer = CardDealer::new(Seed(3));
    for _ in 0..95 {
        dealer.draw_one();
    }
    let top_before = *dealer.peek().unwrap();
    dealer.return_to_discard(vec![test_card(4)]);
    assert_eq!(dealer.draw_one(), Some(top_before));
    assert_eq!(dealer.draw_pile.cards[0], test_card(4));
}

#[test]
fn maybe_recycle_puts_discard_under_a_low_pile() {
    let mut dealer = CardDealer::new(Seed(0));
    dealer.draw_pile.cards = (1..=10).map(test_card).collect();
    dealer.discard_pile = vec![test_card(11), test_card(12)];
    dealer.maybe_recycle();
    let mut expected = vec![test_card(11), test_card(12)];
    expected.extend((1..=10).map(test_card));
    assert_eq!(dealer.draw_pile.cards, expected);
    assert!(dealer.discard_pile.is_empty());

    dealer.draw_pile.cards = (1..=11).map(test_card).collect();
    dealer.discard_pile = vec![test_card(12)];
    dealer.maybe_recycle();
    assert_eq!(dealer.draw_pile.cards.len(), 11);
    assert_eq!(dealer.discard_pile, vec![test_card(12)]);
}

#[test]
fn deal_initial_hands_out_a_prefix_of_the_pile() {
    let mut dealer = CardDealer::new(Seed(3));
    let before = dealer.draw_pile.cards.clone();
    let (personal, hands) = dealer.deal_initial(2, 13, 5);
    let mut joined: Vec<Card> = personal.into_iter().flatten().collect();
    joined.extend(hands.into_iter().flatten());
    joined.extend(dealer.draw_pile.cards.iter().cloned());
    assert_eq!(joined, before);
}
