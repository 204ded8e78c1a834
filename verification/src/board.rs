use vstd::prelude::*;

use crate::card::Card;
use crate::ids::PlayerId;

verus! {

/// Number of side stacks each player has.
pub const SIDE_STACKS: usize = 4;

/// The hand size a player is refilled to.
pub const NORMAL_HAND_SIZE: usize = 5;

/// One player's cards: the personal pile (top is last), four side stacks
/// (top is last) and the hand.
#[derive(Debug, Clone)]
pub struct PlayerBoard {
    pub player_idx: usize,
    pub player_id: Option<PlayerId>,
    pub personal: Vec<Card>,
    pub side: [Vec<Card>; 4],
    pub hand: Vec<Card>,
}

/// What a board holds, as plain sequences.
#[verifier::ext_equal]
pub struct BoardModel {
    pub player_idx: usize,
    pub player_id: Option<PlayerId>,
    pub personal: Seq<Card>,
    pub sides: Seq<Seq<Card>>,
    pub hand: Seq<Card>,
}

/// A board with no cards, seated at `idx`, with no owner.
pub open spec fn empty_board(idx: usize) -> BoardModel {
    BoardModel {
        player_idx: idx,
        player_id: None,
        personal: Seq::empty(),
        sides: Seq::new(SIDE_STACKS as nat, |i: int| Seq::<Card>::empty()),
        hand: Seq::empty(),
    }
}

impl BoardModel {
    /// Both the personal pile and the hand are empty.
    pub open spec fn has_emptied(self) -> bool {
        self.personal.len() == 0 && self.hand.len() == 0
    }

    /// The same board with its owner set.
    pub open spec fn with_id(self, id: PlayerId) -> BoardModel {
        BoardModel { player_id: Some(id), ..self }
    }
}

impl PlayerBoard {
    pub open spec fn model(&self) -> BoardModel {
        BoardModel {
            player_idx: self.player_idx,
            player_id: self.player_id,
            personal: self.personal@,
            sides: self.sides(),
            hand: self.hand@,
        }
    }
    /// The cards of side stack `i`.
    pub open spec fn side_at(&self, i: int) -> Seq<Card> {
        self.side[i]@
    }

    /// The four side stacks, bottom card first.
    pub open spec fn sides(&self) -> Seq<Seq<Card>> {
        Seq::new(SIDE_STACKS as nat, |i: int| self.side[i]@)
    }

    pub fn new(player_idx: usize) -> (r: Self)
        ensures
            r.player_idx == player_idx,
            r.player_id is None,
            r.personal@ == Seq::<Card>::empty(),
            r.hand@ == Seq::<Card>::empty(),
            r.sides() == Seq::new(SIDE_STACKS as nat, |i: int| Seq::<Card>::empty()),
    {
        let r = Self {
            player_idx,
            player_id: None,
            personal: vec![],
            side: [Vec::new(), Vec::new(), Vec::new(), Vec::new()],
            hand: vec![],
        };
        proof {
            assert(r.sides() =~= Seq::new(SIDE_STACKS as nat, |i: int| Seq::<Card>::empty()));
        }
        r
    }

    /// Sets the personal pile (normally during the initial deal).
    pub fn set_personal(&mut self, cards: Vec<Card>)
        ensures
            final(self).personal@ == cards@,
            final(self).hand@ == old(self).hand@,
            final(self).sides() == old(self).sides(),
            final(self).player_idx == old(self).player_idx,
            final(self).player_id == old(self).player_id,
    {
        self.personal = cards;
    }

    /// The top card of the personal pile (visible to all players).
    pub fn personal_top(&self) -> (r: Option<&Card>)
        ensures
            self.personal@.len() == 0 ==> r is None,
            self.personal@.len() > 0 ==> r == Some(&self.personal@.last()),
    {
        self.personal.as_slice().last()
    }

    /// Number of cards left in the personal pile.
    pub fn personal_len(&self) -> (r: usize)
        ensures
            r == self.personal@.len(),
    {
        self.personal.len()
    }

    /// Removes and returns the top card of the personal pile.
    pub fn pop_personal(&mut self) -> (r: Option<Card>)
        ensures
            old(self).personal@.len() == 0 ==> r is None && final(self).personal@ == old(self).personal@,
            old(self).personal@.len() > 0 ==> {
                &&& r == Some(old(self).personal@.last())
                &&& final(self).personal@ == old(self).personal@.drop_last()
            },
            final(self).hand@ == old(self).hand@,
            final(self).sides() == old(self).sides(),
            final(self).player_idx == old(self).player_idx,
            final(self).player_id == old(self).player_id,
    {
        self.personal.pop()
    }

    /// Adds a card to the hand; the hand may grow past the normal size.
    pub fn draw_to_hand(&mut self, card: Card)
        ensures
            final(self).hand@ == old(self).hand@.push(card),
            final(self).personal@ == old(self).personal@,
            final(self).sides() == old(self).sides(),
            final(self).player_idx == old(self).player_idx,
            final(self).player_id == old(self).player_id,
    {
        self.hand.push(card);
    }

    /// Number of cards in hand.
    pub fn hand_len(&self) -> (r: usize)
        ensures
            r == self.hand@.len(),
    {
        self.hand.len()
    }

    /// Removes the card at `index` from the hand, or returns `None` when
    /// there is no such card.
    pub fn take_from_hand(&mut self, index: usize) -> (r: Option<Card>)
        ensures
            index >= old(self).hand@.len() ==> r is None && final(self).hand@ == old(self).hand@,
            index < old(self).hand@.len() ==> {
                &&& r == Some(old(self).hand@[index as int])
                &&& final(self).hand@ == old(self).hand@.remove(index as int)
            },
            final(self).personal@ == old(self).personal@,
            final(self).sides() == old(self).sides(),
            final(self).player_idx == old(self).player_idx,
            final(self).player_id == old(self).player_id,
    {
        if index >= self.hand.len() {
            return None;
        }
        Some(self.hand.remove(index))
    }

    /// Puts `card` on top of side stack `stack`; returns `false`, changing
    /// nothing, when there is no such stack.
    pub fn place_on_side(&mut self, stack: usize, card: Card) -> (r: bool)
        ensures
            r == (stack < SIDE_STACKS),
            r ==> {
                &&& final(self).sides() == old(self).sides().update(stack as int, old(self).side_at(stack as int).push(card))
            },
            !r ==> final(self).sides() == old(self).sides(),
            final(self).hand@ == old(self).hand@,
            final(self).personal@ == old(self).personal@,
            final(self).player_idx == old(self).player_idx,
            final(self).player_id == old(self).player_id,
    {
        if stack >= SIDE_STACKS {
            return false;
        }
        self.side[stack].push(card);
        proof {
            assert(self.sides() =~= old(self).sides().update(stack as int, old(self).side_at(stack as int).push(card)));
        }
        true
    }

    /// Removes and returns the top card of side stack `stack`; `None` when
    /// the stack is empty or does not exist.
    pub fn take_from_side(&mut self, stack: usize) -> (r: Option<Card>)
        ensures
            stack >= SIDE_STACKS ==> r is None && final(self).sides() == old(self).sides(),
            stack < SIDE_STACKS && old(self).side_at(stack as int).len() == 0 ==> {
                &&& r is None
                &&& final(self).sides() == old(self).sides()
            },
            stack < SIDE_STACKS && old(self).side_at(stack as int).len() > 0 ==> {
                &&& r == Some(old(self).side_at(stack as int).last())
                &&& final(self).sides() == old(self).sides().update(stack as int, old(self).side_at(stack as int).drop_last())
            },
            final(self).hand@ == old(self).hand@,
            final(self).personal@ == old(self).personal@,
            final(self).player_idx == old(self).player_idx,
            final(self).player_id == old(self).player_id,
    {
        if stack >= SIDE_STACKS {
            return None;
        }
        let r = self.side[stack].pop();
        proof {
            if old(self).side_at(stack as int).len() > 0 {
                assert(self.sides() =~= old(self).sides().update(stack as int, old(self).side_at(stack as int).drop_last()));
            } else {
                assert(self.sides() =~= old(self).sides());
            }
        }
        r
    }

    /// A player has won once both the personal pile and the hand are empty;
    /// side stacks do not count.
    pub fn has_won(&self) -> (r: bool)
        ensures
            r == (self.personal@.len() == 0 && self.hand@.len() == 0),
    {
        self.personal.is_empty() && self.hand.is_empty()
    }
}

} // verus!
