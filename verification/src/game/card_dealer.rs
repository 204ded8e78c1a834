use vstd::prelude::*;

use crate::card::Card;
use crate::dealer::{draw_step_at, draw_steps_at, lemma_draw_steps_stuck_at, lemma_failed_draw_changes_nothing_at, recycled_at};
use crate::deck::{double_deck, Deck};

verus! {

/// In the first rule set the discard pile is recycled once the draw pile
/// is down to this many cards.
pub const RECYCLE_AT: usize = 5;

/// The draw pile and discard pile of the first rule set.
pub struct CardDealer {
    pub draw_pile: Deck,
    pub discard_pile: Vec<Card>,
}

impl CardDealer {
    /// A dealer whose draw pile is the double deck shuffled with `seed`.
    pub fn new(seed: u64) -> (r: Self)
        ensures
            r.draw_pile.cards@.to_multiset() == double_deck().to_multiset(),
            r.discard_pile@ == Seq::<Card>::empty(),
    {
        let mut draw_pile = Deck::double();
        draw_pile.shuffle_with_seed(seed);
        Self { draw_pile, discard_pile: vec![] }
    }

    /// Draws one card, recycling the discard pile if the draw pile runs low.
    pub fn draw_one(&mut self) -> (r: Option<Card>)
        ensures
            (final(self).draw_pile.cards@, final(self).discard_pile@, r)
                == draw_step_at(RECYCLE_AT as nat, old(self).draw_pile.cards@, old(self).discard_pile@),
    {
        self.maybe_recycle();
        self.draw_pile.draw_one()
    }

    /// Draws up to `n` cards, stopping early when none is left.
    pub fn draw_up_to(&mut self, n: usize) -> (r: Vec<Card>)
        ensures
            (final(self).draw_pile.cards@, final(self).discard_pile@, r@)
                == draw_steps_at(RECYCLE_AT as nat, old(self).draw_pile.cards@, old(self).discard_pile@, n as nat),
    {
        let ghost d0 = self.draw_pile.cards@;
        let ghost x0 = self.discard_pile@;
        let mut cards: Vec<Card> = Vec::with_capacity(n);
        let mut i: usize = 0;
        while i < n
            invariant
                i <= n,
                (self.draw_pile.cards@, self.discard_pile@, cards@) == draw_steps_at(RECYCLE_AT as nat, d0, x0, i as nat),
            ensures
                (self.draw_pile.cards@, self.discard_pile@, cards@) == draw_steps_at(RECYCLE_AT as nat, d0, x0, n as nat),
            decreases n - i,
        {
            self.maybe_recycle();
            let next = self.draw_pile.draw_one();
            match next {
                None => {
                    proof {
                        let st = draw_steps_at(RECYCLE_AT as nat, d0, x0, i as nat);
                        lemma_failed_draw_changes_nothing_at(RECYCLE_AT as nat, st.0, st.1);
                        lemma_draw_steps_stuck_at(RECYCLE_AT as nat, d0, x0, i as nat, n as nat);
                    }
                    break;
                },
                Some(card) => {
                    cards.push(card);
                },
            }
            i = i + 1;
        }
        cards
    }

    /// Deals the `n` bottom cards of the draw pile, never recycling.
    pub fn deal(&mut self, n: usize) -> (r: Vec<Card>)
        ensures
            ({
                let pile = old(self).draw_pile.cards@;
                let k = if n < pile.len() { n as int } else { pile.len() as int };
                &&& r@ == pile.subrange(0, k)
                &&& final(self).draw_pile.cards@ == pile.subrange(k, pile.len() as int)
                &&& final(self).discard_pile@ == old(self).discard_pile@
            }),
    {
        self.draw_pile.deal(n)
    }

    /// Puts `cards` on top of the discard pile.
    pub fn return_to_discard(&mut self, cards: Vec<Card>)
        ensures
            final(self).discard_pile@ == old(self).discard_pile@ + cards@,
            final(self).draw_pile.cards@ == old(self).draw_pile.cards@,
    {
        let mut cards = cards;
        self.discard_pile.append(&mut cards);
    }

    pub fn remaining(&self) -> (r: usize)
        ensures
            r == self.draw_pile.cards@.len(),
    {
        self.draw_pile.remaining()
    }

    fn maybe_recycle(&mut self)
        ensures
            (final(self).draw_pile.cards@, final(self).discard_pile@)
                == recycled_at(RECYCLE_AT as nat, old(self).draw_pile.cards@, old(self).discard_pile@),
    {
        if self.draw_pile.remaining() <= RECYCLE_AT && !self.discard_pile.is_empty() {
            let mut cards: Vec<Card> = Vec::new();
            std::mem::swap(&mut cards, &mut self.discard_pile);
            self.draw_pile.add_bottom(cards);
        }
    }
}

} // verus!
