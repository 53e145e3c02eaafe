//! The stub player's placeholder policy.

use poker_kata::card::Card;
use poker_kata::player::{Action, Hand, HandStrength, Player, StackSize, TablePosition};

fn pocket(rank1: u8, rank2: u8) -> Hand {
    Hand {
        cards: vec![Card { rank: rank1, suit: 0 }, Card { rank: rank2, suit: 1 }],
    }
}

#[test]
fn pocket_eights_early_rate_ef0() {
    let p = Player::new(TablePosition::Early, pocket(8, 8), StackSize::Medium);
    assert_eq!(p.evaluate_hand(), HandStrength::EF0);
}

#[test]
fn other_hands_rate_ef1() {
    let p = Player::new(TablePosition::Middle, pocket(8, 8), StackSize::Medium);
    assert_eq!(p.evaluate_hand(), HandStrength::EF1);
    let q = Player::new(TablePosition::Early, pocket(14, 13), StackSize::Deep);
    assert_eq!(q.evaluate_hand(), HandStrength::EF1);
}

#[test]
fn early_position_folds_middling_hands() {
    let p = Player::new(TablePosition::Early, pocket(8, 8), StackSize::Medium);
    assert_eq!(p.act(Action::Call), Action::Fold);
    assert_eq!(p.act(Action::Raise(StackSize::Deep)), Action::Fold);
}

#[test]
fn middle_position_raises_ef0_unless_raised() {
    let p = Player::new(TablePosition::Middle, pocket(7, 2), StackSize::Short);
    assert_eq!(p.act(Action::Call), Action::Call);
    let q = Player::new(TablePosition::Late, pocket(9, 9), StackSize::Deep);
    assert_eq!(q.act(Action::Raise(StackSize::Short)), Action::Call);
}
