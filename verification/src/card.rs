use vstd::prelude::*;

verus! {

/// The four French suits.
#[derive(Debug, Clone, Copy, PartialEq, Eq, Structural)]
pub enum Suit {
    Hearts,
    Diamonds,
    Clubs,
    Spades,
}

/// The back colour of a card, telling which of the two decks it came from.
#[derive(Debug, Clone, Copy, PartialEq, Eq, Structural)]
pub enum DeckColor {
    Red,
    Blue,
}

/// A playing card; `value` runs from 1 (Ace) to 13 (King).
#[derive(Debug, Clone, Copy, PartialEq, Eq, Structural)]
pub struct Card {
    pub suit: Suit,
    pub value: u8,
    pub deck: DeckColor,
}

/// The face shown for a card value: "A", "2".."10", "J", "Q", "K".
pub open spec fn face_of(value: u8) -> Seq<char> {
    if value == 1 { seq!['A'] }
    else if value == 10 { seq!['1', '0'] }
    else if value == 11 { seq!['J'] }
    else if value == 12 { seq!['Q'] }
    else if value == 13 { seq!['K'] }
    else { seq![('0' as u8 + value) as char] }
}

/// A card as the other player sees it: only the color of its back.
pub open spec fn card_back(c: Card) -> Card {
    Card { suit: Suit::Hearts, value: 0, deck: c.deck }
}

impl Card {
    /// The card with its face hidden: the deck color stays, the suit and
    /// value are blanked.
    pub fn dummy_card(&self) -> (r: Card)
        ensures
            r == card_back(*self),
    {
        Card { suit: Suit::Hearts, value: 0, deck: self.deck }
    }

    /// The face text of the card; only defined for values 1..=13.
    pub fn display_value(&self) -> (r: &'static str)
        requires
            1 <= self.value <= 13,
        ensures
            r@ == face_of(self.value),
    {
        match self.value {
            1 => { proof { reveal_strlit("A"); } "A" }
            2 => { proof { reveal_strlit("2"); } "2" }
            3 => { proof { reveal_strlit("3"); } "3" }
            4 => { proof { reveal_strlit("4"); } "4" }
            5 => { proof { reveal_strlit("5"); } "5" }
            6 => { proof { reveal_strlit("6"); } "6" }
            7 => { proof { reveal_strlit("7"); } "7" }
            8 => { proof { reveal_strlit("8"); } "8" }
            9 => { proof { reveal_strlit("9"); } "9" }
            10 => { proof { reveal_strlit("10"); } "10" }
            11 => { proof { reveal_strlit("J"); } "J" }
            12 => { proof { reveal_strlit("Q"); } "Q" }
            _ => { proof { reveal_strlit("K"); } "K" }
        }
    }
}

/// A copy of `cards`, in the same order.
pub(crate) fn copy_cards(cards: &Vec<Card>) -> (r: Vec<Card>)
    ensures
        r@ == cards@,
{
    let mut r: Vec<Card> = Vec::with_capacity(cards.len());
    let mut i: usize = 0;
    while i < cards.len()
        invariant
            i <= cards@.len(),
            r@ == cards@.subrange(0, i as int),
        decreases cards@.len() - i,
    {
        r.push(cards[i]);
        i = i + 1;
        proof {
            assert(r@ =~= cards@.subrange(0, i as int));
        }
    }
    proof {
        assert(r@ =~= cards@);
    }
    r
}

/// A copy of the four side stacks.
pub(crate) fn copy_sides(side: &[Vec<Card>; 4]) -> (r: [Vec<Card>; 4])
    ensures
        forall|i: int| 0 <= i < 4 ==> #[trigger] r[i]@ == side[i]@,
{
    [copy_cards(&side[0]), copy_cards(&side[1]), copy_cards(&side[2]), copy_cards(&side[3])]
}

} // verus!
