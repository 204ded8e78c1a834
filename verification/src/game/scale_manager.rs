use vstd::prelude::*;

use crate::card::Card;
use crate::game::result::PlayResult;
use crate::game::scale::{accepts_run, Scale};

verus! {

/// The scales of the first rule set and the cards of completed scales.
pub struct ScaleManager {
    pub scales: Vec<Scale>,
    pub discard_pile: Vec<Card>,
}

/// The cards of every scale.
pub open spec fn runs(scales: Seq<Scale>) -> Seq<Seq<Card>> {
    Seq::new(scales.len(), |i: int| scales[i].cards@)
}

/// Index of the first run that accepts `c`, or the number of runs.
pub open spec fn first_accepting(runs: Seq<Seq<Card>>, c: Card) -> int
    decreases runs.len(),
{
    if runs.len() == 0 {
        0
    } else if first_accepting(runs.drop_last(), c) < runs.len() - 1 {
        first_accepting(runs.drop_last(), c)
    } else if accepts_run(runs.last(), c) {
        runs.len() - 1
    } else {
        runs.len() as int
    }
}

pub proof fn lemma_first_accepting(runs: Seq<Seq<Card>>, c: Card)
    ensures
        0 <= first_accepting(runs, c) <= runs.len(),
        first_accepting(runs, c) < runs.len() ==> accepts_run(runs[first_accepting(runs, c)], c),
        forall|j: int| 0 <= j < first_accepting(runs, c) ==> !accepts_run(#[trigger] runs[j], c),
    decreases runs.len(),
{
    if runs.len() > 0 {
        let init = runs.drop_last();
        lemma_first_accepting(init, c);
        assert forall|j: int| 0 <= j < init.len() implies init[j] == runs[j] by {}
    }
}

/// Where `c` goes: the first scale accepting it, else a new scale for an Ace.
pub open spec fn target_of(runs: Seq<Seq<Card>>, c: Card) -> Option<int> {
    let i = first_accepting(runs, c);
    if i < runs.len() {
        Some(i)
    } else if c.value == 1 {
        Some(runs.len() as int)
    } else {
        None
    }
}

/// Placing `card` on runs `rs` with discard pile `discard`: the runs and
/// discard pile afterwards, and the answer.
pub open spec fn place_effect(rs: Seq<Seq<Card>>, discard: Seq<Card>, card: Card) -> (Seq<Seq<Card>>, Seq<Card>, PlayResult) {
    match target_of(rs, card) {
        None => (rs, discard, PlayResult::DoesNotFit),
        Some(i) => {
            let run = if i < rs.len() { rs[i].push(card) } else { seq![card] };
            let completed = run.len() == 12;
            let kept = if completed { Seq::<Card>::empty() } else { run };
            (
                if i < rs.len() { rs.update(i, kept) } else { rs.push(kept) },
                if completed { discard + run } else { discard },
                PlayResult::Placed { scale_id: i as usize, completed },
            )
        },
    }
}

/// Placing a card: when no scale takes it, nothing changes and the answer
/// is `DoesNotFit`; otherwise it goes on top of scale `i` (a new one at the
/// end for an Ace), the answer names `i` and tells whether the scale is now
/// complete, a complete scale is emptied onto the discard pile, and every
/// other scale stays as it was.
pub proof fn law_place(rs: Seq<Seq<Card>>, discard: Seq<Card>, card: Card)
    ensures
        ({
            let (rs2, x2, r) = place_effect(rs, discard, card);
            &&& target_of(rs, card) is None ==> rs2 == rs && x2 == discard && r == PlayResult::DoesNotFit
            &&& target_of(rs, card) matches Some(i) ==> {
                let run = if i < rs.len() { rs[i].push(card) } else { seq![card] };
                let completed = run.len() == 12;
                &&& r == PlayResult::Placed { scale_id: i as usize, completed }
                &&& rs2.len() == (if i < rs.len() { rs.len() } else { rs.len() + 1 })
                &&& completed ==> rs2[i] == Seq::<Card>::empty() && x2 == discard + run
                &&& !completed ==> rs2[i] == run && x2 == discard
                &&& forall|j: int| 0 <= j < rs.len() && j != i ==> rs2[j] == rs[j]
            }
        }),
{
    lemma_first_accepting(rs, card);
}

impl ScaleManager {
    /// No scale has twelve or more cards (full scales are cleared at once).
    pub open spec fn wf(&self) -> bool {
        forall|i: int| 0 <= i < self.scales@.len() ==> (#[trigger] self.scales@[i]).cards@.len() < 12
    }

    pub fn new() -> (r: Self)
        ensures
            r.scales@ == Seq::<Scale>::empty(),
            r.discard_pile@ == Seq::<Card>::empty(),
    {
        Self { scales: vec![], discard_pile: vec![] }
    }

    /// The scale `card` should go on: the first one accepting it, or a new
    /// empty scale (numbered by its position) when the card is an Ace.
    pub fn find_or_open(&mut self, card: &Card) -> (r: Option<usize>)
        requires
            old(self).wf(),
        ensures
            final(self).wf(),
            r == match target_of(runs(old(self).scales@), *card) {
                Some(i) => Some(i as usize),
                None => None::<usize>,
            },
            final(self).discard_pile@ == old(self).discard_pile@,
            r == Some(old(self).scales@.len() as usize) ==> final(self).scales@ == old(self).scales@.push(Scale {
                id: old(self).scales@.len() as usize,
                cards: final(self).scales@.last().cards,
            }) && final(self).scales@.last().cards@ == Seq::<Card>::empty(),
            r != Some(old(self).scales@.len() as usize) ==> final(self).scales@ == old(self).scales@,
    {
        proof { lemma_first_accepting(runs(self.scales@), *card); }
        let mut i: usize = 0;
        while i < self.scales.len()
            invariant
                i <= self.scales@.len(),
                self.wf(),
                forall|j: int| 0 <= j < i ==> !accepts_run(#[trigger] runs(self.scales@)[j], *card),
            decreases self.scales@.len() - i,
        {
            if self.scales[i].accepts(card) {
                proof {
                    lemma_first_accepting(runs(self.scales@), *card);
                    let f = first_accepting(runs(self.scales@), *card);
                    assert(runs(self.scales@)[i as int] == self.scales@[i as int].cards@);
                    if f < i {
                        assert(!accepts_run(runs(self.scales@)[f], *card));
                    }
                }
                return Some(i);
            }
            proof {
                assert(runs(self.scales@)[i as int] == self.scales@[i as int].cards@);
            }
            i = i + 1;
        }
        proof {
            lemma_first_accepting(runs(self.scales@), *card);
            let f = first_accepting(runs(self.scales@), *card);
            if f < self.scales@.len() {
                assert(!accepts_run(runs(self.scales@)[f], *card));
            }
        }
        if card.value == 1 {
            let idx = self.scales.len();
            self.scales.push(Scale::new(idx));
            return Some(idx);
        }
        None
    }

    /// Puts `card` on the scale it goes on (opening one for an Ace); a scale
    /// that becomes complete is emptied onto the discard pile.
    pub fn place(&mut self, card: Card) -> (r: PlayResult)
        requires
            old(self).wf(),
        ensures
            final(self).wf(),
            (runs(final(self).scales@), final(self).discard_pile@, r)
                == place_effect(runs(old(self).scales@), old(self).discard_pile@, card),
            final(self).scales@.len() == runs(final(self).scales@).len(),
            forall|j: int| 0 <= j < old(self).scales@.len() ==> (#[trigger] final(self).scales@[j]).id == old(self).scales@[j].id,
            final(self).scales@.len() == old(self).scales@.len() || (final(self).scales@.len() == old(self).scales@.len() + 1
                && final(self).scales@.last().id == old(self).scales@.len()),
    {
        let ghost rs = runs(self.scales@);
        let ghost len0 = self.scales@.len();
        let n0 = self.scales.len();
        let scale_idx = match self.find_or_open(&card) {
            Some(i) => i,
            None => {
                return PlayResult::DoesNotFit;
            },
        };
        proof {
            lemma_first_accepting(rs, card);
            assert(self.scales@[scale_idx as int].cards@.len() < 12) by {
                if scale_idx < len0 {
                    assert(self.scales@[scale_idx as int] == old(self).scales@[scale_idx as int]);
                }
            }
        }
        let ghost before = self.scales@;
        proof {
            let i = scale_idx as int;
            let f = first_accepting(rs, card);
            assert(rs.len() == len0);
            assert(target_of(rs, card) is Some);
            assert(scale_idx as int == target_of(rs, card)->0);
            if f < rs.len() {
                assert(target_of(rs, card) == Some(f));
                assert(scale_idx == f as usize);
            }
            if i < rs.len() {
                assert(f < rs.len());
                assert(before[i].cards@ == rs[i]);
                assert(accepts_run(rs[i], card));
            } else {
                assert(before[i].cards@ == Seq::<Card>::empty());
            }
            assert(accepts_run(before[i].cards@, card));
        }
        let _ = self.scales[scale_idx].push(card);
        let ghost after_push = self.scales@;
        proof {
            let i = scale_idx as int;
            assert(after_push[i].cards@ == before[i].cards@.push(card));
            assert(forall|j: int| 0 <= j < before.len() && j != i ==> after_push[j] == before[j]);
        }
        let completed = self.scales[scale_idx].is_complete();
        if completed {
            let mut cards: Vec<Card> = Vec::new();
            std::mem::swap(&mut cards, &mut self.scales[scale_idx].cards);
            self.discard_pile.append(&mut cards);
        }
        proof {
            let i = scale_idx as int;
            let run = if i < rs.len() { rs[i].push(card) } else { seq![card] };
            if i >= rs.len() {
                assert(before[i].cards@ == Seq::<Card>::empty());
                assert(seq![card] =~= Seq::<Card>::empty().push(card));
            } else {
                assert(before[i].cards@ == rs[i]);
            }
            if i < rs.len() {
                assert(self.scales@.len() == rs.len());
                assert forall|j: int| 0 <= j < rs.len() implies #[trigger] runs(self.scales@)[j]
                    == rs.update(i, if completed { Seq::<Card>::empty() } else { run })[j] by {
                    if j != i {
                        assert(self.scales@[j] == before[j]);
                        assert(before[j].cards@ == rs[j]);
                    }
                }
                assert(runs(self.scales@) =~= rs.update(i, if completed { Seq::<Card>::empty() } else { run }));
            } else {
                assert(runs(self.scales@) =~= rs.push(run));
            }
            assert forall|j: int| 0 <= j < self.scales@.len() implies (#[trigger] self.scales@[j]).cards@.len() < 12 by {
                if j != i {
                    assert(self.scales@[j] == before[j]);
                }
            }
        }
        PlayResult::Placed { scale_id: scale_idx, completed }
    }

    /// Removes all scales and the discarded cards.
    pub fn reset(&mut self)
        ensures
            final(self).scales@ == Seq::<Scale>::empty(),
            final(self).discard_pile@ == Seq::<Card>::empty(),
    {
        self.scales.clear();
        self.discard_pile.clear();
    }
}

} // verus!
