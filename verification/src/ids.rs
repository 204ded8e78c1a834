use vstd::prelude::*;
use vstd::std_specs::convert::FromSpecImpl;

use crate::outside::{is_hyphenated_uuid, new_uuid_text};

verus! {

/// Position of a card in a player's hand.
#[derive(Debug, Clone, Copy, PartialEq, Eq, Hash, Structural)]
pub struct HandIdx(pub usize);

impl HandIdx {
    pub fn as_usize(self) -> (r: usize)
        ensures
            r == self.0,
    {
        self.0
    }
}

impl From<usize> for HandIdx {
    fn from(n: usize) -> (r: Self) {
        HandIdx(n)
    }
}

impl FromSpecImpl<usize> for HandIdx {
    open spec fn obeys_from_spec() -> bool {
        true
    }

    open spec fn from_spec(n: usize) -> Self {
        HandIdx(n)
    }
}

/// Slot of a scale on the table.
#[derive(Debug, Clone, Copy, PartialEq, Eq, Hash, Structural)]
pub struct ScaleIdx(pub usize);

impl ScaleIdx {
    pub fn as_usize(self) -> (r: usize)
        ensures
            r == self.0,
    {
        self.0
    }
}

impl From<usize> for ScaleIdx {
    fn from(n: usize) -> (r: Self) {
        ScaleIdx(n)
    }
}

impl FromSpecImpl<usize> for ScaleIdx {
    open spec fn obeys_from_spec() -> bool {
        true
    }

    open spec fn from_spec(n: usize) -> Self {
        ScaleIdx(n)
    }
}

/// One of a player's side stacks.
#[derive(Debug, Clone, Copy, PartialEq, Eq, Hash, Structural)]
pub struct StackIdx(pub usize);

impl StackIdx {
    pub fn as_usize(self) -> (r: usize)
        ensures
            r == self.0,
    {
        self.0
    }
}

impl From<usize> for StackIdx {
    fn from(n: usize) -> (r: Self) {
        StackIdx(n)
    }
}

impl FromSpecImpl<usize> for StackIdx {
    open spec fn obeys_from_spec() -> bool {
        true
    }

    open spec fn from_spec(n: usize) -> Self {
        StackIdx(n)
    }
}

/// Seat of a player inside a game.
#[derive(Debug, Clone, Copy, PartialEq, Eq, Hash, Structural)]
pub struct PlayerIdx(pub usize);

impl PlayerIdx {
    pub fn as_usize(self) -> (r: usize)
        ensures
            r == self.0,
    {
        self.0
    }
}

impl From<usize> for PlayerIdx {
    fn from(n: usize) -> (r: Self) {
        PlayerIdx(n)
    }
}

impl FromSpecImpl<usize> for PlayerIdx {
    open spec fn obeys_from_spec() -> bool {
        true
    }

    open spec fn from_spec(n: usize) -> Self {
        PlayerIdx(n)
    }
}

/// External identity of a user: the 128 bits of its UUID.
#[derive(Debug, Clone, Copy, PartialEq, Eq, Hash, Structural)]
pub struct PlayerId(pub u128);

/// Name of a game room.
#[derive(Debug, PartialEq, Eq, Hash)]
pub struct GameId(pub String);

impl GameId {
    /// A fresh game name: the text of a random UUID.
    pub fn new() -> (r: Self)
        ensures
            is_hyphenated_uuid(r.0@),
    {
        GameId(new_uuid_text())
    }
}

impl Clone for GameId {
    fn clone(&self) -> (r: Self)
        ensures
            r == *self,
    {
        GameId(self.0.clone())
    }
}

/// The span `Duration::from_secs(secs)` builds: `secs` whole seconds.
pub uninterp spec fn duration_of_secs(secs: u64) -> core::time::Duration;

/// `Duration::from_secs` of std, which builds the span of `secs` seconds.
/// Trusted: the span depends on `secs` alone (named `duration_of_secs`);
/// what it holds is not stated further, as vstd gives `Duration` no view.
pub assume_specification[ core::time::Duration::from_secs ](secs: u64) -> (r: core::time::Duration)
    ensures
        r == duration_of_secs(secs),
;

/// A whole number of seconds.
#[derive(Debug, Clone, Copy, PartialEq, Eq, Structural)]
pub struct Seconds(pub u64);

impl Seconds {
    /// The same span as a `std::time::Duration` (`Duration::from_secs`).
    pub fn as_duration(self) -> (r: std::time::Duration)
        ensures
            r == duration_of_secs(self.0),
    {
        core::time::Duration::from_secs(self.0)
    }

    pub fn zero() -> (r: Self)
        ensures
            r.0 == 0,
    {
        Self(0)
    }

    /// Difference of the two spans, or zero when `other` is the longer one.
    pub fn saturating_sub(self, other: Self) -> (r: Self)
        ensures
            r.0 == if self.0 >= other.0 { (self.0 - other.0) as u64 } else { 0 },
    {
        Self(self.0.saturating_sub(other.0))
    }
}

impl From<u64> for Seconds {
    fn from(value: u64) -> (r: Self) {
        Self(value)
    }
}

impl FromSpecImpl<u64> for Seconds {
    open spec fn obeys_from_spec() -> bool {
        true
    }

    open spec fn from_spec(value: u64) -> Self {
        Seconds(value)
    }
}

/// Seed of the deterministic shuffle of a game's deck.
#[derive(Debug, Clone, Copy, Structural, PartialEq, Eq)]
pub struct Seed(pub u64);

impl Seed {
    pub fn as_usize(self) -> (r: u64)
        ensures
            r == self.0,
    {
        self.0
    }
}

} // verus!
