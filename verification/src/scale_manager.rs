use vstd::prelude::*;

use crate::actions::{MoveError, MoveSuccess};
use crate::card::Card;
use crate::ids::ScaleIdx;
use crate::scale::{fits, valid_run, Scale, SCALE_LEN, lemma_fits_iff_stays_valid};

verus! {

/// The scales on the table, one per slot; a slot is empty (`None`) until a
/// scale is opened there, and again once a completed scale is cleared.
#[derive(Debug)]
pub struct ScaleManager {
    pub scales: Vec<Option<Scale>>,
}

/// The cards of slot `i`, if a scale stands there.
pub open spec fn slot_cards(scales: Seq<Option<Scale>>, i: int) -> Option<Seq<Card>> {
    match scales[i] {
        Some(s) => Some(s.cards@),
        None => None,
    }
}

/// First empty slot, or the number of slots when every slot is taken.
pub open spec fn first_free_slot<T>(scales: Seq<Option<T>>) -> int
    decreases scales.len(),
{
    if scales.len() == 0 {
        0
    } else if first_free_slot(scales.drop_last()) < scales.len() - 1 {
        first_free_slot(scales.drop_last())
    } else if scales.last() is None {
        scales.len() - 1
    } else {
        scales.len() as int
    }
}

pub proof fn lemma_first_free_slot<T>(scales: Seq<Option<T>>)
    ensures
        0 <= first_free_slot(scales) <= scales.len(),
        first_free_slot(scales) < scales.len() ==> scales[first_free_slot(scales)] is None,
        forall|j: int| 0 <= j < first_free_slot(scales) ==> scales[j] is Some,
    decreases scales.len(),
{
    if scales.len() > 0 {
        let init = scales.drop_last();
        lemma_first_free_slot(init);
        assert forall|j: int| 0 <= j < init.len() implies init[j] == scales[j] by {}
    }
}

/// The cards of every slot.
pub open spec fn table_view(scales: Seq<Option<Scale>>) -> Seq<Option<Seq<Card>>> {
    Seq::new(scales.len(), |i: int| slot_cards(scales, i))
}

/// Two rows of slots with empty slots in the same places have the same
/// first empty slot.
pub proof fn lemma_first_free_slot_same<T, U>(a: Seq<Option<T>>, b: Seq<Option<U>>)
    requires
        a.len() == b.len(),
        forall|i: int| 0 <= i < a.len() ==> (#[trigger] a[i] is None) == (b[i] is None),
    ensures
        first_free_slot(a) == first_free_slot(b),
    decreases a.len(),
{
    if a.len() > 0 {
        let (a0, b0) = (a.drop_last(), b.drop_last());
        assert forall|i: int| 0 <= i < a0.len() implies (#[trigger] a0[i] is None) == (b0[i] is None) by {
            assert(a0[i] == a[i]);
            assert(b0[i] == b[i]);
        }
        lemma_first_free_slot_same(a0, b0);
    }
}

/// Replacing one slot changes only that slot of the table.
pub proof fn lemma_table_view_update(scales: Seq<Option<Scale>>, i: int, s: Option<Scale>)
    requires
        0 <= i < scales.len(),
    ensures
        table_view(scales.update(i, s)) == table_view(scales).update(i, match s {
            Some(sc) => Some(sc.cards@),
            None => None,
        }),
{
    assert(table_view(scales.update(i, s)) =~= table_view(scales).update(i, match s {
        Some(sc) => Some(sc.cards@),
        None => None,
    }));
}

/// Whether `card` may go onto the scale in slot `scale_id`.
pub open spec fn can_place(scales: Seq<Option<Scale>>, scale_id: ScaleIdx, card: Card) -> bool {
    &&& scale_id.0 < scales.len()
    &&& scales[scale_id.0 as int] matches Some(s)
    &&& fits(s.cards@, card)
}

impl ScaleManager {
    /// Every scale on the table has at most twelve cards.
    /// No scale holds more than `SCALE_LEN` cards, and each scale carries
    /// the number of the slot it stands in.
    pub open spec fn wf(&self) -> bool {
        forall|i: int| 0 <= i < self.scales@.len() && #[trigger] self.scales@[i] is Some
            ==> self.scales@[i]->0.cards@.len() <= SCALE_LEN && self.scales@[i]->0.scale_idx == ScaleIdx(i as usize)
    }

    /// Every scale on the table is a well-built run.
    pub open spec fn all_valid(&self) -> bool {
        forall|i: int| 0 <= i < self.scales@.len() && #[trigger] self.scales@[i] is Some
            ==> valid_run(self.scales@[i]->0.cards@)
    }

    pub fn new() -> (r: Self)
        ensures
            r.scales@ == Seq::<Option<Scale>>::empty(),
    {
        Self { scales: vec![] }
    }

    /// A table with `n` empty slots.
    pub fn with_empty_slots(n: usize) -> (r: Self)
        ensures
            r.scales@.len() == n,
            forall|i: int| 0 <= i < n ==> #[trigger] r.scales@[i] is None,
    {
        let mut scales: Vec<Option<Scale>> = Vec::with_capacity(n);
        while scales.len() < n
            invariant
                scales@.len() <= n,
                forall|i: int| 0 <= i < scales@.len() ==> #[trigger] scales@[i] is None,
            decreases n - scales@.len(),
        {
            scales.push(None);
        }
        Self { scales }
    }

    pub fn can_place_on_scale(&self, scale_id: ScaleIdx, card: &Card) -> (r: bool)
        requires
            self.wf(),
        ensures
            r == can_place(self.scales@, scale_id, *card),
    {
        if scale_id.as_usize() >= self.scales.len() {
            return false;
        }
        match &self.scales[scale_id.as_usize()] {
            None => false,
            Some(scale) => scale.accepts(card),
        }
    }

    /// Puts `card` on the scale in slot `scale_id` when it fits there,
    /// reporting whether that completed the scale; otherwise changes nothing.
    pub fn place_on_scale(&mut self, scale_id: ScaleIdx, card: Card) -> (r: Result<MoveSuccess, MoveError>)
        requires
            old(self).wf(),
        ensures
            final(self).wf(),
            old(self).all_valid() ==> final(self).all_valid(),
            final(self).scales@.len() == old(self).scales@.len(),
            can_place(old(self).scales@, scale_id, card) ==> {
                let i = scale_id.0 as int;
                &&& slot_cards(final(self).scales@, i) == Some(slot_cards(old(self).scales@, i)->0.push(card))
                &&& final(self).scales@[i]->0.scale_idx == old(self).scales@[i]->0.scale_idx
                &&& forall|j: int| 0 <= j < old(self).scales@.len() && j != i
                    ==> #[trigger] final(self).scales@[j] == old(self).scales@[j]
                &&& r == Ok::<MoveSuccess, MoveError>(MoveSuccess::ScalePlaced {
                    scale_id,
                    completed: slot_cards(final(self).scales@, i)->0.len() == SCALE_LEN,
                })
            },
            !can_place(old(self).scales@, scale_id, card) ==> {
                &&& final(self).scales@ == old(self).scales@
                &&& r == Err::<MoveSuccess, MoveError>(MoveError::DoesNotFit)
            },
    {
        if !self.can_place_on_scale(scale_id, &card) {
            return Err(MoveError::DoesNotFit);
        }
        let i = scale_id.as_usize();
        let ghost old_scales = self.scales@;
        let slot = &mut self.scales[i];
        let completed = match slot {
            Some(scale) => {
                let _ = scale.push(card);
                scale.is_complete()
            },
            None => false,
        };
        proof {
            if old_scales[i as int] is Some {
                if valid_run(old_scales[i as int]->0.cards@) {
                    lemma_fits_iff_stays_valid(old_scales[i as int]->0.cards@, card);
                }
            }
        }
        Ok(MoveSuccess::ScalePlaced { scale_id, completed })
    }

    /// Opens a new scale with an Ace in the first empty slot (or in a new
    /// slot when all are taken); refuses any other card.
    pub fn open_scale(&mut self, card: Card) -> (r: Result<MoveSuccess, MoveError>)
        requires
            old(self).wf(),
        ensures
            final(self).wf(),
            old(self).all_valid() ==> final(self).all_valid(),
            card.value != 1 ==> {
                &&& final(self).scales@ == old(self).scales@
                &&& r == Err::<MoveSuccess, MoveError>(MoveError::DoesNotFit)
            },
            card.value == 1 ==> {
                let i = first_free_slot(old(self).scales@);
                &&& r == Ok::<MoveSuccess, MoveError>(MoveSuccess::ScaleOpened { scale_id: ScaleIdx(i as usize) })
                &&& final(self).scales@.len() == if i < old(self).scales@.len() {
                    old(self).scales@.len() as int
                } else {
                    old(self).scales@.len() + 1int
                }
                &&& slot_cards(final(self).scales@, i) == Some(seq![card])
                &&& final(self).scales@[i]->0.scale_idx == ScaleIdx(i as usize)
                &&& forall|j: int| 0 <= j < old(self).scales@.len() && j != i
                    ==> #[trigger] final(self).scales@[j] == old(self).scales@[j]
            },
    {
        if card.value != 1 {
            return Err(MoveError::DoesNotFit);
        }
        proof { lemma_first_free_slot(self.scales@); }
        let mut i: usize = 0;
        while i < self.scales.len()
            invariant
                i <= self.scales@.len(),
                forall|j: int| 0 <= j < i ==> self.scales@[j] is Some,
            ensures
                i <= self.scales@.len(),
                forall|j: int| 0 <= j < i ==> self.scales@[j] is Some,
                i == self.scales@.len() || self.scales@[i as int] is None,
            decreases self.scales@.len() - i,
        {
            if self.scales[i].is_none() {
                break;
            }
            i = i + 1;
        }
        let ghost old_scales = self.scales@;
        proof {
            if (i as int) < first_free_slot(self.scales@) {
                assert(self.scales@[i as int] is Some);
            }
            if first_free_slot(self.scales@) < i {
                assert(self.scales@[first_free_slot(self.scales@)] is Some);
            }
            assert(i == first_free_slot(self.scales@));
        }
        let mut scale = Scale::new(ScaleIdx(i));
        let _ = scale.push(card);
        proof {
            assert(valid_run(scale.cards@)) by {
                assert(run_card_ok_first(scale.cards@));
            }
        }
        if i < self.scales.len() {
            self.scales.set(i, Some(scale));
        } else {
            self.scales.push(Some(scale));
        }
        Ok(MoveSuccess::ScaleOpened { scale_id: ScaleIdx(i) })
    }

    /// Removes every scale, leaving no slot at all.
    pub fn reset(&mut self)
        ensures
            final(self).scales@ == Seq::<Option<Scale>>::empty(),
    {
        self.scales.clear();
    }

    /// Clears the slot of a completed scale and hands back its cards; leaves
    /// every other slot, and an incomplete or missing scale, as it was.
    pub fn take_completed(&mut self, scale_id: ScaleIdx) -> (r: Option<Vec<Card>>)
        requires
            old(self).wf(),
        ensures
            final(self).wf(),
            old(self).all_valid() ==> final(self).all_valid(),
            final(self).scales@.len() == old(self).scales@.len(),
            ({
                let i = scale_id.0 as int;
                if complete_at(old(self).scales@, scale_id) {
                    &&& r is Some
                    &&& r->0@ == slot_cards(old(self).scales@, i)->0
                    &&& final(self).scales@ == old(self).scales@.update(i, None)
                } else {
                    &&& r is None
                    &&& final(self).scales@ == old(self).scales@
                }
            }),
    {
        let i = scale_id.as_usize();
        if i >= self.scales.len() {
            return None;
        }
        let complete = match &self.scales[i] {
            Some(scale) => scale.is_complete(),
            None => false,
        };
        if !complete {
            return None;
        }
        let mut taken: Option<Scale> = None;
        std::mem::swap(&mut taken, &mut self.scales[i]);
        match taken {
            Some(scale) => Some(scale.cards),
            None => None,
        }
    }
}

/// Whether slot `scale_id` holds a complete scale.
pub open spec fn complete_at(scales: Seq<Option<Scale>>, scale_id: ScaleIdx) -> bool {
    &&& scale_id.0 < scales.len()
    &&& scales[scale_id.0 as int] is Some
    &&& scales[scale_id.0 as int]->0.cards@.len() == SCALE_LEN
}

/// A lone Ace is a well-built scale.
pub open spec fn run_card_ok_first(cards: Seq<Card>) -> bool {
    cards.len() == 1 && cards[0].value == 1 ==> valid_run(cards)
}

} // verus!
