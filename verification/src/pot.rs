//! Blind-and-ante arithmetic: the pot that the training drills reason
//! about.

use std::collections::VecDeque;
use vstd::prelude::*;

verus! {

/// The chips in the middle before and during a hand.
pub struct Pot {
    size: u32,
}

/// What a player can do towards the pot.
pub enum Action {
    Open(u32),
    Call,
    Raise(u32),
    ReRaise(u32),
}

/// A player's seat index together with what they did.
pub type PlayerAction = (usize, Action);

impl Pot {
    /// The chips the pot holds, as contracts speak of them.
    pub closed spec fn spec_size(&self) -> u32 {
        self.size
    }

    /// The pot at the start of a hand: both blinds plus the ante.
    pub fn new(small_blind: u32, big_blind: u32, ante: u32) -> (p: Pot)
        requires
            small_blind + big_blind + ante <= u32::MAX,
        ensures
            p.spec_size() == small_blind + big_blind + ante,
    {
        Pot { size: small_blind + big_blind + ante }
    }

    /// How many chips the pot holds.
    pub fn size(&self) -> (s: u32)
        ensures
            s == self.spec_size(),
    {
        self.size
    }

    /// Grow the pot for a batch of actions; a stub that values every batch
    /// at 100 chips.
    pub fn update_size(&mut self, _actions: VecDeque<PlayerAction>)
        requires
            old(self).spec_size() + 100 <= u32::MAX,
        ensures
            final(self).spec_size() == old(self).spec_size() + 100,
    {
        self.size = self.size + 100
    }
}

} // verus!
