use vstd::prelude::*;

use crate::actions::{MoveError, MoveSuccess};
use crate::card::Card;
use crate::ids::ScaleIdx;

verus! {

/// Number of cards of a full scale (Ace up to Queen).
pub const SCALE_LEN: usize = 12;

/// A shared ascending run on the table: Ace, 2, 3, ... up to Queen,
/// where a King may stand in for any value but the first.
#[derive(Debug, Clone, PartialEq, Eq)]
pub struct Scale {
    pub scale_idx: ScaleIdx,
    pub cards: Vec<Card>,
}

/// Whether `c` may be put on top of a scale holding `cards`.
pub open spec fn fits(cards: Seq<Card>, c: Card) -> bool {
    &&& cards.len() != SCALE_LEN
    &&& if cards.len() == 0 {
        c.value == 1
    } else if c.value == 13 {
        cards.last().value != 13
    } else {
        c.value == cards.len() + 1
    }
}

/// The card at position `i` of a run is the value `i + 1`, or a King
/// that does not follow another King (and is not the first card).
pub open spec fn run_card_ok(cards: Seq<Card>, i: int) -> bool {
    ||| cards[i].value == i + 1
    ||| (i > 0 && cards[i].value == 13 && cards[i - 1].value != 13)
}

/// A well-built scale: at most twelve cards, each one in its place.
pub open spec fn valid_run(cards: Seq<Card>) -> bool {
    &&& cards.len() <= SCALE_LEN
    &&& forall|i: int| 0 <= i < cards.len() ==> #[trigger] run_card_ok(cards, i)
}

impl Scale {
    /// The cards of the scale, bottom first.
    pub open spec fn run(&self) -> Seq<Card> {
        self.cards@
    }

    pub fn new(scale_idx: ScaleIdx) -> (r: Self)
        ensures
            r.scale_idx == scale_idx,
            r.cards@ == Seq::<Card>::empty(),
    {
        Self { scale_idx, cards: vec![] }
    }

    /// The value a plain (non-King) card must have to go on top.
    fn next_value(&self) -> (r: u8)
        requires
            self.cards@.len() <= SCALE_LEN,
        ensures
            r == self.cards@.len() + 1,
    {
        self.cards.len() as u8 + 1
    }

    /// Whether `card` may be put on top: never on a full scale; an empty
    /// scale takes only an Ace; a King takes any place but not on a King;
    /// any other card must carry the next value.
    pub fn accepts(&self, card: &Card) -> (r: bool)
        requires
            self.cards@.len() <= SCALE_LEN,
        ensures
            r == fits(self.cards@, *card),
    {
        if self.is_complete() {
            return false;
        }
        if self.cards.len() == 0 {
            return card.value == 1;
        }
        let expected = self.next_value();
        if card.value == 13 {
            let top = &self.cards[self.cards.len() - 1];
            if top.value == 13 {
                return false;
            }
            return true;
        }
        card.value == expected
    }

    /// A scale is complete with twelve cards.
    pub fn is_complete(&self) -> (r: bool)
        ensures
            r == (self.cards@.len() == SCALE_LEN),
    {
        self.cards.len() == SCALE_LEN
    }

    /// Puts `card` on top if it fits, reporting whether that completed the scale;
    /// otherwise leaves the scale as it was.
    pub fn push(&mut self, card: Card) -> (r: Result<MoveSuccess, MoveError>)
        requires
            old(self).cards@.len() <= SCALE_LEN,
        ensures
            final(self).scale_idx == old(self).scale_idx,
            fits(old(self).cards@, card) ==> {
                &&& final(self).cards@ == old(self).cards@.push(card)
                &&& r == Ok::<MoveSuccess, MoveError>(MoveSuccess::ScalePlaced {
                    scale_id: old(self).scale_idx,
                    completed: final(self).cards@.len() == SCALE_LEN,
                })
            },
            !fits(old(self).cards@, card) ==> {
                &&& final(self).cards@ == old(self).cards@
                &&& r == Err::<MoveSuccess, MoveError>(MoveError::DoesNotFit)
            },
    {
        if !self.accepts(&card) {
            return Err(MoveError::DoesNotFit);
        }
        self.cards.push(card);
        Ok(MoveSuccess::ScalePlaced { scale_id: self.scale_idx, completed: self.is_complete() })
    }
}

/// A card fits a well-built scale exactly when the scale with that card on
/// top is still well built; so pushing only ever keeps scales well built.
pub proof fn lemma_fits_iff_stays_valid(cards: Seq<Card>, c: Card)
    requires
        valid_run(cards),
    ensures
        fits(cards, c) <==> (cards.len() < SCALE_LEN && valid_run(cards.push(c))),
{
    let n = cards.len() as int;
    let pushed = cards.push(c);
    assert forall|i: int| 0 <= i < n implies run_card_ok(pushed, i) == run_card_ok(cards, i) by {
        assert(pushed[i] == cards[i]);
        if i > 0 {
            assert(pushed[i - 1] == cards[i - 1]);
        }
    }
    if fits(cards, c) {
        assert(run_card_ok(pushed, n));
        assert forall|i: int| 0 <= i < pushed.len() implies #[trigger] run_card_ok(pushed, i) by {
            if i < n {
                assert(run_card_ok(cards, i));
            }
        }
    }
    if n < SCALE_LEN && valid_run(pushed) {
        assert(run_card_ok(pushed, n));
        if n > 0 {
            assert(pushed[n - 1] == cards.last());
        }
    }
}

} // verus!
