use vstd::prelude::*;
use vstd::arithmetic::div_mod::lemma_fundamental_div_mod_converse;
use vstd::std_specs::slice::into_iter_elts;

use crate::card::{Card, DeckColor, Suit};
use crate::outside::{shuffle_seeded, shuffle_unseeded};

verus! {

/// Cards of one colour: four suits of thirteen values.
pub const CARDS_PER_COLOR: usize = 52;

/// A pile of cards; the last card is the top.
#[derive(Debug, Clone)]
pub struct Deck {
    pub cards: Vec<Card>,
}

/// The suit of the `s`-th block of thirteen cards in a fresh deck.
pub open spec fn suit_at(s: int) -> Suit {
    if s == 0 {
        Suit::Hearts
    } else if s == 1 {
        Suit::Diamonds
    } else if s == 2 {
        Suit::Clubs
    } else {
        Suit::Spades
    }
}

/// The `i`-th card of a fresh deck made of the given colours: colour by
/// colour, and within a colour suit by suit, values 1 to 13.
pub open spec fn fresh_card(colors: Seq<DeckColor>, i: int) -> Card {
    Card { suit: suit_at((i % 52) / 13), value: (i % 13 + 1) as u8, deck: colors[i / 52] }
}

/// A fresh, unshuffled deck of the given colours.
pub open spec fn fresh_deck(colors: Seq<DeckColor>) -> Seq<Card> {
    Seq::new(colors.len() * 52, |i: int| fresh_card(colors, i))
}

/// The double deck every game is dealt from: a red and a blue deck.
pub open spec fn double_deck() -> Seq<Card> {
    fresh_deck(seq![DeckColor::Red, DeckColor::Blue])
}

fn suit_number(s: usize) -> (r: Suit)
    requires
        s < 4,
    ensures
        r == suit_at(s as int),
{
    if s == 0 {
        Suit::Hearts
    } else if s == 1 {
        Suit::Diamonds
    } else if s == 2 {
        Suit::Clubs
    } else {
        Suit::Spades
    }
}

proof fn lemma_fresh_position(c: int, s: int, v: int)
    requires
        0 <= c,
        0 <= s < 4,
        1 <= v <= 13,
    ensures
        ({
            let k = c * 52 + s * 13 + (v - 1);
            &&& k / 52 == c
            &&& (k % 52) / 13 == s
            &&& k % 13 == v - 1
        }),
{
    let k = c * 52 + s * 13 + (v - 1);
    lemma_fundamental_div_mod_converse(k, 52, c, s * 13 + (v - 1));
    lemma_fundamental_div_mod_converse(s * 13 + (v - 1), 13, s, v - 1);
    assert(k == 13 * (4 * c + s) + (v - 1)) by (nonlinear_arith)
        requires
            k == c * 52 + s * 13 + (v - 1),
    ;
    lemma_fundamental_div_mod_converse(k, 13, 4 * c + s, v - 1);
}

impl Deck {
    pub open spec fn view(&self) -> Seq<Card> {
        self.cards@
    }

    /// The cards from bottom to top.
    pub fn iter(&self) -> (r: std::slice::Iter<'_, Card>)
        ensures
            into_iter_elts(r) == self.cards@,
    {
        broadcast use vstd::std_specs::slice::axiom_spec_slice_iter;
        self.cards.as_slice().iter()
    }

    /// A fresh, unshuffled deck with one full set of 52 cards per colour.
    pub fn new_with_colors(colors: &[DeckColor]) -> (r: Self)
        requires
            colors@.len() * 52 <= usize::MAX,
        ensures
            r.cards@ == fresh_deck(colors@),
    {
        let suit_count: usize = 4;
        let values_per_suit: usize = 13;
        let capacity = suit_count * values_per_suit * colors.len();
        let mut cards: Vec<Card> = Vec::with_capacity(capacity);
        let mut c: usize = 0;
        while c < colors.len()
            invariant
                c <= colors@.len(),
                colors@.len() * 52 <= usize::MAX,
                cards@.len() == c * 52,
                forall|i: int| 0 <= i < cards@.len() ==> #[trigger] cards@[i] == fresh_card(colors@, i),
            decreases colors@.len() - c,
        {
            let color = colors[c];
            let mut s: usize = 0;
            while s < 4
                invariant
                    c < colors@.len(),
                    color == colors@[c as int],
                    s <= 4,
                    cards@.len() == c * 52 + s * 13,
                    forall|i: int| 0 <= i < cards@.len() ==> #[trigger] cards@[i] == fresh_card(colors@, i),
                decreases 4 - s,
            {
                let suit = suit_number(s);
                let mut value: u8 = 1;
                while value <= 13
                    invariant
                        c < colors@.len(),
                        color == colors@[c as int],
                        s < 4,
                        suit == suit_at(s as int),
                        1 <= value <= 14,
                        cards@.len() == c * 52 + s * 13 + (value - 1),
                        forall|i: int| 0 <= i < cards@.len() ==> #[trigger] cards@[i] == fresh_card(colors@, i),
                    decreases 14 - value,
                {
                    proof {
                        lemma_fresh_position(c as int, s as int, value as int);
                    }
                    cards.push(Card { suit, value, deck: color });
                    value = value + 1;
                }
                s = s + 1;
            }
            c = c + 1;
        }
        proof {
            assert(cards@ =~= fresh_deck(colors@));
        }
        Self { cards }
    }

    /// The 104-card double deck, unshuffled.
    pub fn double() -> (r: Self)
        ensures
            r.cards@ == double_deck(),
    {
        let colors = [DeckColor::Red, DeckColor::Blue];
        let r = Self::new_with_colors(colors.as_slice());
        proof {
            assert(colors@ =~= seq![DeckColor::Red, DeckColor::Blue]);
        }
        r
    }

    /// Shuffles the cards with the thread's random generator.
    pub fn shuffle(&mut self)
        ensures
            final(self).cards@.to_multiset() == old(self).cards@.to_multiset(),
    {
        shuffle_unseeded(&mut self.cards);
    }

    /// Shuffles the cards with a generator seeded from `seed`.
    pub fn shuffle_with_seed(&mut self, seed: u64)
        ensures
            final(self).cards@.to_multiset() == old(self).cards@.to_multiset(),
    {
        shuffle_seeded(&mut self.cards, seed);
    }

    /// Removes and returns the `n` bottom cards (all of them when fewer remain).
    pub fn deal(&mut self, n: usize) -> (r: Vec<Card>)
        ensures
            ({
                let k = if n < old(self).cards@.len() { n as int } else { old(self).cards@.len() as int };
                &&& r@ == old(self).cards@.subrange(0, k)
                &&& final(self).cards@ == old(self).cards@.subrange(k, old(self).cards@.len() as int)
            }),
    {
        let k = if n < self.cards.len() { n } else { self.cards.len() };
        let mut dealt = self.cards.split_off(k);
        std::mem::swap(&mut dealt, &mut self.cards);
        dealt
    }

    /// Removes and returns the top card, if any.
    pub fn draw_one(&mut self) -> (r: Option<Card>)
        ensures
            old(self).cards@.len() == 0 ==> r is None && final(self).cards@ == old(self).cards@,
            old(self).cards@.len() > 0 ==> {
                &&& r == Some(old(self).cards@.last())
                &&& final(self).cards@ == old(self).cards@.drop_last()
            },
    {
        self.cards.pop()
    }

    pub fn remaining(&self) -> (r: usize)
        ensures
            r == self.cards@.len(),
    {
        self.cards.len()
    }

    /// Puts `cards` underneath the pile, keeping their order.
    pub fn add_bottom(&mut self, cards: Vec<Card>)
        ensures
            final(self).cards@ == cards@ + old(self).cards@,
    {
        let mut cards = cards;
        cards.append(&mut self.cards);
        self.cards = cards;
    }
}

} // verus!
