use vstd::prelude::*;

use crate::card::Card;
use crate::game::result::PlayResult;

verus! {

/// A scale of the first rule set, numbered `id`.
#[derive(Debug, Clone)]
pub struct Scale {
    pub id: usize,
    pub cards: Vec<Card>,
}

/// Whether `c` may be put on a scale of the first rule set holding `cards`:
/// an empty scale takes anything but a King; a King never goes on a King
/// but otherwise takes any place; any other card must carry the next value.
/// (These scales do not refuse cards once full.)
pub open spec fn accepts_run(cards: Seq<Card>, c: Card) -> bool {
    if cards.len() == 0 {
        c.value != 13
    } else if cards.last().value == 13 && c.value == 13 {
        false
    } else if c.value == 13 {
        true
    } else {
        c.value == cards.len() + 1
    }
}

impl Scale {
    pub fn new(id: usize) -> (r: Self)
        ensures
            r.id == id,
            r.cards@ == Seq::<Card>::empty(),
    {
        Self { id, cards: vec![] }
    }

    /// The value a plain card must have to go on top.
    pub fn next_value(&self) -> (r: u8)
        requires
            self.cards@.len() < 255,
        ensures
            r == self.cards@.len() + 1,
    {
        self.cards.len() as u8 + 1
    }

    pub fn accepts(&self, card: &Card) -> (r: bool)
        requires
            self.cards@.len() < 255,
        ensures
            r == accepts_run(self.cards@, *card),
    {
        if self.cards.len() == 0 {
            return card.value != 13;
        }
        let top = &self.cards[self.cards.len() - 1];
        if top.value == 13 && card.value == 13 {
            return false;
        }
        let expected = self.next_value();
        if card.value == 13 {
            return true;
        }
        card.value == expected
    }

    /// Complete with twelve cards.
    pub fn is_complete(&self) -> (r: bool)
        ensures
            r == (self.cards@.len() == 12),
    {
        self.cards.len() == 12
    }

    /// Puts `card` on top when accepted, telling whether the scale is now
    /// complete; otherwise changes nothing.
    pub fn push(&mut self, card: Card) -> (r: PlayResult)
        requires
            old(self).cards@.len() < 255,
        ensures
            final(self).id == old(self).id,
            accepts_run(old(self).cards@, card) ==> {
                &&& final(self).cards@ == old(self).cards@.push(card)
                &&& r == PlayResult::Placed { scale_id: old(self).id, completed: final(self).cards@.len() == 12 }
            },
            !accepts_run(old(self).cards@, card) ==> {
                &&& final(self).cards@ == old(self).cards@
                &&& r == PlayResult::DoesNotFit
            },
    {
        if !self.accepts(&card) {
            return PlayResult::DoesNotFit;
        }
        self.cards.push(card);
        let completed = self.is_complete();
        PlayResult::Placed { scale_id: self.id, completed }
    }
}

} // verus!
