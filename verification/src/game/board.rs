use vstd::prelude::*;

use crate::card::{copy_cards, copy_sides, Card};

verus! {

/// One player's cards, for a player known by a string id and a name.
#[derive(Debug, Clone)]
pub struct PlayerBoard {
    pub player_id: String,
    pub username: String,
    pub personal: Vec<Card>,
    pub side: [Vec<Card>; 4],
    pub hand: Vec<Card>,
}

impl PlayerBoard {
    /// The four side stacks, bottom card first.
    pub open spec fn sides(&self) -> Seq<Seq<Card>> {
        Seq::new(4, |i: int| self.side[i]@)
    }

    /// Same owner and same cards.
    pub open spec fn same_as(&self, other: &PlayerBoard) -> bool {
        &&& self.player_id@ == other.player_id@
        &&& self.username@ == other.username@
        &&& self.personal@ == other.personal@
        &&& self.sides() == other.sides()
        &&& self.hand@ == other.hand@
    }

    pub fn new(player_id: String, username: String) -> (r: Self)
        ensures
            r.player_id@ == player_id@,
            r.username@ == username@,
            r.personal@ == Seq::<Card>::empty(),
            r.hand@ == Seq::<Card>::empty(),
            r.sides() == Seq::new(4, |i: int| Seq::<Card>::empty()),
    {
        let r = Self {
            player_id,
            username,
            personal: vec![],
            side: [Vec::new(), Vec::new(), Vec::new(), Vec::new()],
            hand: vec![],
        };
        proof {
            assert(r.sides() =~= Seq::new(4, |i: int| Seq::<Card>::empty()));
        }
        r
    }

    pub fn personal_top(&self) -> (r: Option<&Card>)
        ensures
            self.personal@.len() == 0 ==> r is None,
            self.personal@.len() > 0 ==> r == Some(&self.personal@.last()),
    {
        self.personal.as_slice().last()
    }

    /// Won once both the personal pile and the hand are empty.
    pub fn has_won(&self) -> (r: bool)
        ensures
            r == (self.personal@.len() == 0 && self.hand@.len() == 0),
    {
        self.personal.is_empty() && self.hand.is_empty()
    }

    pub fn pop_personal(&mut self) -> (r: Option<Card>)
        ensures
            old(self).personal@.len() == 0 ==> r is None && final(self).personal@ == old(self).personal@,
            old(self).personal@.len() > 0 ==> {
                &&& r == Some(old(self).personal@.last())
                &&& final(self).personal@ == old(self).personal@.drop_last()
            },
            final(self).hand@ == old(self).hand@,
            final(self).sides() == old(self).sides(),
            final(self).player_id == old(self).player_id,
            final(self).username == old(self).username,
    {
        self.personal.pop()
    }

    pub fn take_from_hand(&mut self, index: usize) -> (r: Option<Card>)
        ensures
            index >= old(self).hand@.len() ==> r is None && final(self).hand@ == old(self).hand@,
            index < old(self).hand@.len() ==> {
                &&& r == Some(old(self).hand@[index as int])
                &&& final(self).hand@ == old(self).hand@.remove(index as int)
            },
            final(self).personal@ == old(self).personal@,
            final(self).sides() == old(self).sides(),
            final(self).player_id == old(self).player_id,
            final(self).username == old(self).username,
    {
        if index >= self.hand.len() {
            return None;
        }
        Some(self.hand.remove(index))
    }

    pub fn take_from_side(&mut self, stack: usize) -> (r: Option<Card>)
        ensures
            stack >= 4 || old(self).side[stack as int]@.len() == 0 ==> {
                &&& r is None
                &&& final(self).sides() == old(self).sides()
            },
            stack < 4 && old(self).side[stack as int]@.len() > 0 ==> {
                &&& r == Some(old(self).side[stack as int]@.last())
                &&& final(self).sides() == old(self).sides().update(stack as int, old(self).side[stack as int]@.drop_last())
            },
            final(self).hand@ == old(self).hand@,
            final(self).personal@ == old(self).personal@,
            final(self).player_id == old(self).player_id,
            final(self).username == old(self).username,
    {
        if stack >= 4 {
            return None;
        }
        let r = self.side[stack].pop();
        proof {
            if old(self).side[stack as int]@.len() > 0 {
                assert(self.sides() =~= old(self).sides().update(stack as int, old(self).side[stack as int]@.drop_last()));
            } else {
                assert(self.sides() =~= old(self).sides());
            }
        }
        r
    }

    pub fn place_on_side(&mut self, stack: usize, card: Card) -> (r: bool)
        ensures
            r == (stack < 4),
            r ==> final(self).sides() == old(self).sides().update(stack as int, old(self).side[stack as int]@.push(card)),
            !r ==> final(self).sides() == old(self).sides(),
            final(self).hand@ == old(self).hand@,
            final(self).personal@ == old(self).personal@,
            final(self).player_id == old(self).player_id,
            final(self).username == old(self).username,
    {
        if stack >= 4 {
            return false;
        }
        self.side[stack].push(card);
        proof {
            assert(self.sides() =~= old(self).sides().update(stack as int, old(self).side[stack as int]@.push(card)));
        }
        true
    }

    pub fn add_to_hand(&mut self, card: Card)
        ensures
            final(self).hand@ == old(self).hand@.push(card),
            final(self).personal@ == old(self).personal@,
            final(self).sides() == old(self).sides(),
            final(self).player_id == old(self).player_id,
            final(self).username == old(self).username,
    {
        self.hand.push(card);
    }
}

/// A copy of a board.
pub(crate) fn copy_board(b: &PlayerBoard) -> (r: PlayerBoard)
    ensures
        r.same_as(b),
{
    let r = PlayerBoard {
        player_id: b.player_id.clone(),
        username: b.username.clone(),
        personal: copy_cards(&b.personal),
        side: copy_sides(&b.side),
        hand: copy_cards(&b.hand),
    };
    proof {
        assert(r.sides() =~= b.sides());
    }
    r
}

} // verus!
