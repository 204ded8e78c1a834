use vstd::prelude::*;
use vstd::seq_lib::lemma_multiset_commutative;

use crate::card::Card;
use crate::deck::{double_deck, Deck};
use crate::ids::Seed;

verus! {

/// When the draw pile is down to this many cards, the discard pile is put
/// underneath it before the next draw.
pub const RECYCLE_THRESHOLD: usize = 10;

/// The draw pile and the discard pile of a game.
#[derive(Debug)]
pub struct CardDealer {
    pub draw_pile: Deck,
    pub discard_pile: Vec<Card>,
}

/// The two piles after the discard pile has been recycled under a draw
/// pile of at most `limit` cards.
pub open spec fn recycled_at(limit: nat, draw: Seq<Card>, discard: Seq<Card>) -> (Seq<Card>, Seq<Card>) {
    if draw.len() <= limit && discard.len() > 0 {
        (discard + draw, Seq::empty())
    } else {
        (draw, discard)
    }
}

/// One draw: recycle if due, then take the top card of the draw pile.
pub open spec fn draw_step_at(limit: nat, draw: Seq<Card>, discard: Seq<Card>) -> (Seq<Card>, Seq<Card>, Option<Card>) {
    let (d, x) = recycled_at(limit, draw, discard);
    if d.len() == 0 {
        (d, x, None)
    } else {
        (d.drop_last(), x, Some(d.last()))
    }
}

/// `n` successive draws: the piles afterwards and the cards obtained in order.
pub open spec fn draw_steps_at(limit: nat, draw: Seq<Card>, discard: Seq<Card>, n: nat) -> (Seq<Card>, Seq<Card>, Seq<Card>)
    decreases n,
{
    if n == 0 {
        (draw, discard, Seq::empty())
    } else {
        let (d, x, cs) = draw_steps_at(limit, draw, discard, (n - 1) as nat);
        let (d2, x2, c) = draw_step_at(limit, d, x);
        match c {
            Some(card) => (d2, x2, cs.push(card)),
            None => (d2, x2, cs),
        }
    }
}

/// The piles after recycling, for this game's dealer.
pub open spec fn recycled(draw: Seq<Card>, discard: Seq<Card>) -> (Seq<Card>, Seq<Card>) {
    recycled_at(RECYCLE_THRESHOLD as nat, draw, discard)
}

/// One draw by this game's dealer.
pub open spec fn draw_step(draw: Seq<Card>, discard: Seq<Card>) -> (Seq<Card>, Seq<Card>, Option<Card>) {
    draw_step_at(RECYCLE_THRESHOLD as nat, draw, discard)
}

/// `n` successive draws by this game's dealer.
pub open spec fn draw_steps(draw: Seq<Card>, discard: Seq<Card>, n: nat) -> (Seq<Card>, Seq<Card>, Seq<Card>) {
    draw_steps_at(RECYCLE_THRESHOLD as nat, draw, discard, n)
}

/// `pile[from..to]`, each bound clipped to the pile's length.
pub open spec fn cut(pile: Seq<Card>, from: int, to: int) -> Seq<Card> {
    let l = pile.len() as int;
    pile.subrange(if from < l { from } else { l }, if to < l { to } else { l })
}

/// A draw that finds nothing leaves both piles as they were.
pub proof fn lemma_failed_draw_changes_nothing_at(limit: nat, draw: Seq<Card>, discard: Seq<Card>)
    requires
        draw_step_at(limit, draw, discard).2 is None,
    ensures
        draw_step_at(limit, draw, discard) == (draw, discard, None::<Card>),
{
}

pub proof fn lemma_failed_draw_changes_nothing(draw: Seq<Card>, discard: Seq<Card>)
    requires
        draw_step(draw, discard).2 is None,
    ensures
        draw_step(draw, discard) == (draw, discard, None::<Card>),
{
}

/// Once a draw finds nothing, every later draw finds nothing either.
pub proof fn lemma_draw_steps_stuck_at(limit: nat, draw: Seq<Card>, discard: Seq<Card>, i: nat, n: nat)
    requires
        i <= n,
        draw_step_at(limit, draw_steps_at(limit, draw, discard, i).0, draw_steps_at(limit, draw, discard, i).1).2 is None,
    ensures
        draw_steps_at(limit, draw, discard, n) == draw_steps_at(limit, draw, discard, i),
    decreases n - i,
{
    if i < n {
        lemma_draw_steps_stuck_at(limit, draw, discard, i, (n - 1) as nat);
    }
}

pub proof fn lemma_draw_steps_stuck(draw: Seq<Card>, discard: Seq<Card>, i: nat, n: nat)
    requires
        i <= n,
        draw_step(draw_steps(draw, discard, i).0, draw_steps(draw, discard, i).1).2 is None,
    ensures
        draw_steps(draw, discard, n) == draw_steps(draw, discard, i),
{
    lemma_draw_steps_stuck_at(RECYCLE_THRESHOLD as nat, draw, discard, i, n);
}

/// A draw neither creates nor destroys a card: the two piles together with
/// the drawn card hold what the two piles held before.
pub proof fn lemma_draw_step_keeps_cards_at(limit: nat, draw: Seq<Card>, discard: Seq<Card>)
    ensures
        ({
            let (d, x, c) = draw_step_at(limit, draw, discard);
            (draw + discard).to_multiset() == match c {
                Some(card) => (d + x).to_multiset().insert(card),
                None => (d + x).to_multiset(),
            }
        }),
{
    broadcast use vstd::seq_lib::group_to_multiset_ensures;
    lemma_multiset_commutative(draw, discard);
    lemma_multiset_commutative(discard, draw);
    let (d0, x0) = recycled_at(limit, draw, discard);
    lemma_multiset_commutative(d0, x0);
    if d0.len() > 0 {
        let d = d0.drop_last();
        assert(d0 =~= d.push(d0.last()));
        lemma_multiset_commutative(d, x0);
    }
}

/// Drawing from this game's dealer neither creates nor destroys a card.
pub proof fn lemma_draw_step_keeps_cards(draw: Seq<Card>, discard: Seq<Card>)
    ensures
        ({
            let (d, x, c) = draw_step(draw, discard);
            (draw + discard).to_multiset() == match c {
                Some(card) => (d + x).to_multiset().insert(card),
                None => (d + x).to_multiset(),
            }
        }),
{
    lemma_draw_step_keeps_cards_at(RECYCLE_THRESHOLD as nat, draw, discard);
}

/// Successive draws neither create nor destroy a card.
pub proof fn lemma_draw_steps_keep_cards_at(limit: nat, draw: Seq<Card>, discard: Seq<Card>, n: nat)
    ensures
        ({
            let (d, x, cs) = draw_steps_at(limit, draw, discard, n);
            (draw + discard).to_multiset() == (d + x).to_multiset().add(cs.to_multiset())
        }),
    decreases n,
{
    broadcast use vstd::seq_lib::group_to_multiset_ensures;
    broadcast use vstd::multiset::group_multiset_axioms;
    if n == 0 {
        assert((draw + discard).to_multiset() =~= (draw + discard).to_multiset().add(Seq::<Card>::empty().to_multiset()));
    } else {
        lemma_draw_steps_keep_cards_at(limit, draw, discard, (n - 1) as nat);
        let (d, x, cs) = draw_steps_at(limit, draw, discard, (n - 1) as nat);
        lemma_draw_step_keeps_cards_at(limit, d, x);
        let (d2, x2, c) = draw_step_at(limit, d, x);
        match c {
            Some(card) => {
                assert((d + x).to_multiset().add(cs.to_multiset()) =~= (d2 + x2).to_multiset().add(cs.push(card).to_multiset()));
            },
            None => {},
        }
    }
}

pub proof fn lemma_draw_steps_keep_cards(draw: Seq<Card>, discard: Seq<Card>, n: nat)
    ensures
        ({
            let (d, x, cs) = draw_steps(draw, discard, n);
            (draw + discard).to_multiset() == (d + x).to_multiset().add(cs.to_multiset())
        }),
{
    lemma_draw_steps_keep_cards_at(RECYCLE_THRESHOLD as nat, draw, discard, n);
}

/// One draw takes a card exactly when the two piles hold one, and then
/// the piles hold one card fewer.
pub proof fn lemma_draw_step_count(draw: Seq<Card>, discard: Seq<Card>)
    ensures
        ({
            let (d, x, c) = draw_step(draw, discard);
            &&& (c is Some <==> draw.len() + discard.len() > 0)
            &&& d.len() + x.len() == draw.len() + discard.len() - (if c is Some { 1int } else { 0int })
        }),
{
}

/// `n` draws take as many cards as asked for, or all the cards the two
/// piles hold when they hold fewer; no card is created or lost.
pub proof fn law_draws_take_what_is_there(draw: Seq<Card>, discard: Seq<Card>, n: nat)
    ensures
        ({
            let (d, x, cs) = draw_steps(draw, discard, n);
            let total = draw.len() + discard.len();
            &&& cs.len() == (if n < total { n as int } else { total as int })
            &&& d.len() + x.len() == total - cs.len()
            &&& (draw + discard).to_multiset() == (d + x).to_multiset().add(cs.to_multiset())
        }),
    decreases n,
{
    lemma_draw_steps_keep_cards(draw, discard, n);
    if n > 0 {
        law_draws_take_what_is_there(draw, discard, (n - 1) as nat);
        let (d, x, cs) = draw_steps(draw, discard, (n - 1) as nat);
        lemma_draw_step_count(d, x);
    }
}

/// The pieces `cut(pile, start + k * size, start + (k + 1) * size)` for
/// `k < count`, one after another, are the cut from `start` to
/// `start + count * size`.
pub proof fn lemma_cuts_join(pile: Seq<Card>, start: int, size: int, count: int)
    requires
        0 <= start,
        0 <= size,
        0 <= count,
    ensures
        Seq::new(count as nat, |k: int| cut(pile, start + k * size, start + (k + 1) * size)).flatten()
            == cut(pile, start, start + count * size),
    decreases count,
{
    let pieces = Seq::new(count as nat, |k: int| cut(pile, start + k * size, start + (k + 1) * size));
    if count == 0 {
        assert(pieces =~= Seq::<Seq<Card>>::empty());
        assert(cut(pile, start, start) =~= Seq::<Card>::empty());
    } else {
        let init = Seq::new((count - 1) as nat, |k: int| cut(pile, start + k * size, start + (k + 1) * size));
        lemma_cuts_join(pile, start, size, count - 1);
        assert(pieces.drop_last() =~= init);
        assert(pieces =~= init.push(pieces.last()));
        init.lemma_flatten_push(pieces.last());
        assert((count - 1) * size + size == count * size) by (nonlinear_arith);
        assert(start + (count - 1) * size >= start) by (nonlinear_arith)
            requires
                count >= 1,
                size >= 0,
        ;
        let a = start;
        let b = start + (count - 1) * size;
        let c = start + count * size;
        assert(cut(pile, a, b) + cut(pile, b, c) =~= cut(pile, a, c));
    }
}

/// The first deal hands out a prefix of the draw pile and keeps the rest:
/// the personal piles in seat order, then the hands in seat order, then the
/// draw pile left over, put together, are the draw pile before the deal.
pub proof fn law_deal_keeps_every_card(pile: Seq<Card>, num_players: nat, personal_count: nat, hand_count: nat)
    ensures
        ({
            let np = num_players as int;
            let pc = personal_count as int;
            let hc = hand_count as int;
            Seq::new(num_players, |p: int| cut(pile, p * pc, (p + 1) * pc)).flatten() + Seq::new(
                num_players,
                |p: int| cut(pile, np * pc + p * hc, np * pc + (p + 1) * hc),
            ).flatten() + cut(pile, np * pc + np * hc, pile.len() as int) == pile
        }),
{
    let np = num_players as int;
    let pc = personal_count as int;
    let hc = hand_count as int;
    lemma_cuts_join(pile, 0, pc, np);
    lemma_cuts_join(pile, np * pc, hc, np);
    let first = Seq::new(num_players, |p: int| cut(pile, p * pc, (p + 1) * pc));
    let first0 = Seq::new(num_players, |p: int| cut(pile, 0 + p * pc, 0 + (p + 1) * pc));
    assert(first =~= first0);
    assert(np * pc >= 0 && np * hc >= 0) by (nonlinear_arith)
        requires
            np >= 0,
            pc >= 0,
            hc >= 0,
    ;
    let a = np * pc;
    let b = np * pc + np * hc;
    assert(cut(pile, 0, a) + cut(pile, a, b) =~= cut(pile, 0, b));
    assert(cut(pile, 0, b) + cut(pile, b, pile.len() as int) =~= pile);
}

impl CardDealer {
    /// A dealer whose draw pile is the double deck shuffled with `seed`.
    pub fn new(seed: Seed) -> (r: Self)
        ensures
            r.draw_pile.cards@.to_multiset() == double_deck().to_multiset(),
            r.discard_pile@ == Seq::<Card>::empty(),
    {
        let mut draw_pile = Deck::double();
        draw_pile.shuffle_with_seed(seed.as_usize());
        Self { draw_pile, discard_pile: vec![] }
    }

    /// Deals, from the bottom of the draw pile, first a personal pile of
    /// `personal_count` cards to each player, then a hand of `hand_count`
    /// cards to each; stops short when the pile runs out. Never recycles.
    pub fn deal_initial(&mut self, num_players: usize, personal_count: usize, hand_count: usize)
        -> (r: (Vec<Vec<Card>>, Vec<Vec<Card>>))
        ensures
            ({
                let pile = old(self).draw_pile.cards@;
                let np = num_players as int;
                let pc = personal_count as int;
                let hc = hand_count as int;
                &&& r.0@.len() == num_players
                &&& r.1@.len() == num_players
                &&& forall|p: int| 0 <= p < np ==> #[trigger] r.0@[p]@ == cut(pile, p * pc, (p + 1) * pc)
                &&& forall|p: int| 0 <= p < np ==> #[trigger] r.1@[p]@ == cut(pile, np * pc + p * hc, np * pc + (p + 1) * hc)
                &&& final(self).draw_pile.cards@ == cut(pile, np * pc + np * hc, pile.len() as int)
                &&& final(self).discard_pile@ == old(self).discard_pile@
            }),
            r.0@.map_values(|v: Vec<Card>| v@).flatten() + r.1@.map_values(|v: Vec<Card>| v@).flatten()
                + final(self).draw_pile.cards@ == old(self).draw_pile.cards@,
    {
        let ghost pile = self.draw_pile.cards@;
        let ghost np = num_players as int;
        let ghost pc = personal_count as int;
        let ghost hc = hand_count as int;
        let mut personal_piles: Vec<Vec<Card>> = Vec::with_capacity(num_players);
        let mut hands: Vec<Vec<Card>> = Vec::with_capacity(num_players);
        let mut p: usize = 0;
        while p < num_players
            invariant
                p <= num_players,
                np == num_players,
                pc == personal_count,
                personal_piles@.len() == p,
                forall|q: int| 0 <= q < p ==> #[trigger] personal_piles@[q]@ == cut(pile, q * pc, (q + 1) * pc),
                self.draw_pile.cards@ == cut(pile, p * pc, pile.len() as int),
                self.discard_pile@ == old(self).discard_pile@,
                pile == old(self).draw_pile.cards@,
            decreases num_players - p,
        {
            proof {
                assert((p + 1) * pc == p * pc + pc) by (nonlinear_arith);
                assert(p * pc >= 0) by (nonlinear_arith)
                    requires p >= 0, pc >= 0;
            }
            personal_piles.push(self.draw_pile.deal(personal_count));
            p = p + 1;
        }
        let mut q: usize = 0;
        while q < num_players
            invariant
                q <= num_players,
                np == num_players,
                pc == personal_count,
                hc == hand_count,
                hands@.len() == q,
                forall|k: int| 0 <= k < q ==> #[trigger] hands@[k]@ == cut(pile, np * pc + k * hc, np * pc + (k + 1) * hc),
                self.draw_pile.cards@ == cut(pile, np * pc + q * hc, pile.len() as int),
                self.discard_pile@ == old(self).discard_pile@,
                pile == old(self).draw_pile.cards@,
            decreases num_players - q,
        {
            proof {
                assert((q + 1) * hc == q * hc + hc) by (nonlinear_arith);
                assert(np * pc + q * hc >= 0) by (nonlinear_arith)
                    requires np >= 0, pc >= 0, q >= 0, hc >= 0;
            }
            hands.push(self.draw_pile.deal(hand_count));
            q = q + 1;
        }
        proof {
            law_deal_keeps_every_card(pile, np as nat, pc as nat, hc as nat);
            let firsts = Seq::new(np as nat, |p: int| cut(pile, p * pc, (p + 1) * pc));
            let seconds = Seq::new(np as nat, |p: int| cut(pile, np * pc + p * hc, np * pc + (p + 1) * hc));
            assert(personal_piles@.map_values(|v: Vec<Card>| v@) =~= firsts);
            assert(hands@.map_values(|v: Vec<Card>| v@) =~= seconds);
        }
        (personal_piles, hands)
    }

    /// Draws a single card, first recycling the discard pile when the draw
    /// pile is low.
    pub fn draw_one(&mut self) -> (r: Option<Card>)
        ensures
            (final(self).draw_pile.cards@, final(self).discard_pile@, r)
                == draw_step(old(self).draw_pile.cards@, old(self).discard_pile@),
    {
        self.maybe_recycle();
        self.draw_pile.draw_one()
    }

    /// The top card of the draw pile, if any.
    pub fn peek(&self) -> (r: Option<&Card>)
        ensures
            self.draw_pile.cards@.len() == 0 ==> r is None,
            self.draw_pile.cards@.len() > 0 ==> r == Some(&self.draw_pile.cards@.last()),
    {
        self.draw_pile.cards.as_slice().last()
    }

    /// Draws up to `n` cards one by one (recycling as `draw_one` does),
    /// stopping early when no card is left.
    pub fn draw_up_to(&mut self, n: usize) -> (r: Vec<Card>)
        ensures
            (final(self).draw_pile.cards@, final(self).discard_pile@, r@)
                == draw_steps(old(self).draw_pile.cards@, old(self).discard_pile@, n as nat),
    {
        let ghost d0 = self.draw_pile.cards@;
        let ghost x0 = self.discard_pile@;
        let mut cards: Vec<Card> = Vec::with_capacity(n);
        let mut i: usize = 0;
        while i < n
            invariant
                i <= n,
                (self.draw_pile.cards@, self.discard_pile@, cards@) == draw_steps(d0, x0, i as nat),
            ensures
                (self.draw_pile.cards@, self.discard_pile@, cards@) == draw_steps(d0, x0, n as nat),
            decreases n - i,
        {
            self.maybe_recycle();
            let next = self.draw_pile.draw_one();
            match next {
                None => {
                    proof {
                        let st = draw_steps(d0, x0, i as nat);
                        lemma_failed_draw_changes_nothing(st.0, st.1);
                        lemma_draw_steps_stuck(d0, x0, i as nat, n as nat);
                    }
                    break;
                },
                Some(card) => {
                    cards.push(card);
                },
            }
            i = i + 1;
        }
        cards
    }

    /// Puts `cards` on top of the discard pile.
    pub fn return_to_discard(&mut self, cards: Vec<Card>)
        ensures
            final(self).discard_pile@ == old(self).discard_pile@ + cards@,
            final(self).draw_pile.cards@ == old(self).draw_pile.cards@,
    {
        let mut cards = cards;
        self.discard_pile.append(&mut cards);
    }

    /// Number of cards still in the draw pile.
    pub fn remaining(&self) -> (r: usize)
        ensures
            r == self.draw_pile.cards@.len(),
    {
        self.draw_pile.remaining()
    }

    pub fn maybe_recycle(&mut self)
        ensures
            (final(self).draw_pile.cards@, final(self).discard_pile@)
                == recycled(old(self).draw_pile.cards@, old(self).discard_pile@),
    {
        if self.draw_pile.remaining() <= RECYCLE_THRESHOLD && self.discard_pile.len() > 0 {
            let mut cards: Vec<Card> = Vec::new();
            std::mem::swap(&mut cards, &mut self.discard_pile);
            self.draw_pile.add_bottom(cards);
        }
    }
}

} // verus!
