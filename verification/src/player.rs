//! A stub player for the pre-flop exercises: hole cards, a coarse strength
//! bucket, and a placeholder acting policy.

use vstd::prelude::*;

use crate::card::Card;

verus! {

/// Where a player sits relative to the blinds.
#[derive(Debug, PartialEq, Eq, Structural)]
pub enum TablePosition {
    Early,
    Middle,
    Late,
}

/// How deep a player's stack is.
#[derive(Debug, Clone, Copy, PartialEq, Eq, Structural)]
pub enum StackSize {
    Short,
    Medium,
    Deep,
}

/// What a player can answer with.
#[derive(Debug, Clone, Copy, PartialEq, Eq, Structural)]
pub enum Action {
    Raise(StackSize),
    Call,
    Fold,
}

/// A player's private cards.
#[derive(Debug)]
pub struct Hand {
    pub cards: Vec<Card>,
}

/// Rough strength buckets of a starting hand.
#[derive(Debug, PartialEq, Eq, Structural)]
pub enum HandStrength {
    EF0,
    EF1,
    EF2,
}

/// A seated player: position, hole cards and stack depth.
#[derive(Debug)]
pub struct Player {
    position: TablePosition,
    hand: Hand,
    stack_size: StackSize,
}

/// The strength bucket of a player's hole cards. A placeholder rule: only
/// pocket eights in early position rate EF0, everything else EF1.
pub closed spec fn spec_hand_strength(p: Player) -> HandStrength {
    if p.hand.cards@[0].rank == 8 && p.hand.cards@[1].rank == 8 && p.position
        == TablePosition::Early {
        HandStrength::EF0
    } else {
        HandStrength::EF1
    }
}

/// The player's answer to an opponent's action. A placeholder policy: fold
/// to raises, raise the stack otherwise when the hand rates well enough for
/// the seat, call middling hands outside early position.
pub closed spec fn spec_act(p: Player, opponent_action: Action) -> Action {
    let hs = spec_hand_strength(p);
    match p.position {
        TablePosition::Early => if hs == HandStrength::EF2 {
            match opponent_action {
                Action::Raise(_) => Action::Fold,
                _ => Action::Raise(p.stack_size),
            }
        } else {
            Action::Fold
        },
        TablePosition::Middle => if hs == HandStrength::EF0 {
            match opponent_action {
                Action::Raise(_) => Action::Fold,
                _ => Action::Raise(p.stack_size),
            }
        } else if hs == HandStrength::EF1 {
            Action::Call
        } else {
            Action::Fold
        },
        TablePosition::Late => if hs == HandStrength::EF0 {
            match opponent_action {
                Action::Raise(_) => Action::Fold,
                _ => Action::Raise(p.stack_size),
            }
        } else if hs == HandStrength::EF1 {
            Action::Call
        } else {
            Action::Fold
        },
    }
}

impl Player {
    /// The seat, as contracts speak of it.
    pub closed spec fn spec_position(&self) -> TablePosition {
        self.position
    }

    /// The hole cards, as contracts speak of them.
    pub closed spec fn spec_hole_cards(&self) -> Seq<Card> {
        self.hand.cards@
    }

    /// The stack depth, as contracts speak of it.
    pub closed spec fn spec_stack(&self) -> StackSize {
        self.stack_size
    }

    /// Seat a player with the given position, hole cards and stack depth.
    pub fn new(position: TablePosition, hand: Hand, stack_size: StackSize) -> (p: Player)
        ensures
            p.spec_position() == position,
            p.spec_hole_cards() == hand.cards@,
            p.spec_stack() == stack_size,
    {
        Player { position, hand, stack_size }
    }

    /// Bucket the hole cards as `spec_hand_strength` says.
    pub fn evaluate_hand(&self) -> (s: HandStrength)
        requires
            self.spec_hole_cards().len() >= 2,
        ensures
            s == spec_hand_strength(*self),
    {
        let rank1 = self.hand.cards[0].rank;
        let rank2 = self.hand.cards[1].rank;
        if rank1 == 8 && rank2 == 8 && self.position == TablePosition::Early {
            HandStrength::EF0
        } else {
            HandStrength::EF1
        }
    }

    /// Answer the opponent's action as `spec_act` says.
    pub fn act(&self, opponent_action: Action) -> (a: Action)
        requires
            self.spec_hole_cards().len() >= 2,
        ensures
            a == spec_act(*self, opponent_action),
    {
        let hand_strength = self.evaluate_hand();
        match self.position {
            TablePosition::Early => {
                if hand_strength == HandStrength::EF2 {
                    match opponent_action {
                        Action::Raise(_) => Action::Fold,
                        _ => Action::Raise(self.stack_size),
                    }
                } else {
                    Action::Fold
                }
            },
            TablePosition::Middle => {
                if hand_strength == HandStrength::EF0 {
                    match opponent_action {
                        Action::Raise(_) => Action::Fold,
                        _ => Action::Raise(self.stack_size),
                    }
                } else if hand_strength == HandStrength::EF1 {
                    Action::Call
                } else {
                    Action::Fold
                }
            },
            TablePosition::Late => {
                if hand_strength == HandStrength::EF0 {
                    match opponent_action {
                        Action::Raise(_) => Action::Fold,
                        _ => Action::Raise(self.stack_size),
                    }
                } else if hand_strength == HandStrength::EF1 {
                    Action::Call
                } else {
                    Action::Fold
                }
            },
        }
    }
}

} // verus!
