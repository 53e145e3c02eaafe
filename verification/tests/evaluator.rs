//! The five-card evaluator over all nine categories and its edge cases.

use poker_kata::card::{Card, Hand, HandRank};

fn hand(cards: [(u8, u8); 5]) -> Hand {
    let v: Vec<Card> = cards
        .iter()
        .map(|&(rank, suit)| Card { rank, suit })
        .collect();
    Hand::new(v)
}

#[test]
fn evaluates_high_card() {
    let h = hand([(2, 0), (5, 1), (7, 2), (9, 3), (13, 0)]);
    assert_eq!(h.evaluate(), HandRank::HighCard);
}

#[test]
fn evaluates_one_pair() {
    let h = hand([(2, 0), (2, 1), (7, 2), (9, 3), (13, 0)]);
    assert_eq!(h.evaluate(), HandRank::OnePair);
}

#[test]
fn evaluates_two_pair() {
    let h = hand([(2, 0), (2, 1), (9, 2), (9, 3), (13, 0)]);
    assert_eq!(h.evaluate(), HandRank::TwoPair);
}

#[test]
fn evaluates_three_of_a_kind() {
    let h = hand([(2, 0), (2, 1), (2, 2), (9, 3), (13, 0)]);
    assert_eq!(h.evaluate(), HandRank::ThreeOfAKind);
}

#[test]
fn evaluates_straight() {
    let h = hand([(5, 0), (6, 1), (7, 2), (8, 3), (9, 0)]);
    assert_eq!(h.evaluate(), HandRank::Straight);
}

#[test]
fn evaluates_wheel_straight() {
    // The wheel: the ace plays low.
    let h = hand([(14, 0), (2, 1), (3, 2), (4, 3), (5, 0)]);
    assert_eq!(h.evaluate(), HandRank::Straight);
}

#[test]
fn evaluates_flush() {
    let h = hand([(2, 1), (5, 1), (7, 1), (9, 1), (13, 1)]);
    assert_eq!(h.evaluate(), HandRank::Flush);
}

#[test]
fn evaluates_full_house() {
    let h = hand([(2, 0), (2, 1), (2, 2), (9, 3), (9, 0)]);
    assert_eq!(h.evaluate(), HandRank::FullHouse);
}

#[test]
fn evaluates_four_of_a_kind() {
    let h = hand([(2, 0), (2, 1), (2, 2), (2, 3), (9, 0)]);
    assert_eq!(h.evaluate(), HandRank::FourOfAKind);
}

#[test]
fn evaluates_straight_flush() {
    let h = hand([(5, 2), (6, 2), (7, 2), (8, 2), (9, 2)]);
    assert_eq!(h.evaluate(), HandRank::StraightFlush);
}

#[test]
fn evaluates_royal_flush() {
    let h = hand([(10, 3), (11, 3), (12, 3), (13, 3), (14, 3)]);
    assert_eq!(h.evaluate(), HandRank::RoyalFlush);
}

/// The suited wheel is a straight flush, not a royal flush: the royal
/// flush is only the ace-high run.
#[test]
fn suited_wheel_is_straight_flush() {
    let h = hand([(14, 0), (2, 0), (3, 0), (4, 0), (5, 0)]);
    assert_eq!(h.evaluate(), HandRank::StraightFlush);
}

/// Every distinct five-card hand gets exactly one category; spot checks
/// across the deck's corners.
#[test]
fn evaluator_is_total() {
    let hands = [
        [(2, 0), (3, 1), (4, 2), (6, 3), (14, 0)],
        [(14, 0), (14, 1), (14, 2), (14, 3), (2, 0)],
        [(10, 1), (11, 1), (12, 1), (13, 1), (14, 1)],
        [(2, 0), (2, 1), (3, 2), (3, 3), (4, 0)],
    ];
    for cards in hands.iter() {
        let h = hand(*cards);
        let r = h.evaluate();
        assert!(r.index() <= 9);
    }
}

/// A hand in a flush category shares one suit; one not in a flush
/// category does not.
#[test]
fn flush_categories_match_suits() {
    let suited = hand([(2, 1), (5, 1), (7, 1), (9, 1), (13, 1)]);
    let r = suited.evaluate();
    assert!(
        r == HandRank::Flush || r == HandRank::StraightFlush || r == HandRank::RoyalFlush
    );
    let offsuit = hand([(2, 0), (5, 1), (7, 1), (9, 1), (13, 1)]);
    let r2 = offsuit.evaluate();
    assert!(
        r2 != HandRank::Flush && r2 != HandRank::StraightFlush && r2 != HandRank::RoyalFlush
    );
}

/// A hand in a straight category has five consecutive ranks or the wheel;
/// a broken run does not reach one.
#[test]
fn straight_categories_match_runs() {
    let run = hand([(5, 0), (6, 1), (7, 2), (8, 3), (9, 0)]);
    let r = run.evaluate();
    assert!(
        r == HandRank::Straight || r == HandRank::StraightFlush || r == HandRank::RoyalFlush
    );
    let broken = hand([(5, 0), (6, 1), (7, 2), (8, 3), (10, 0)]);
    let r2 = broken.evaluate();
    assert!(
        r2 != HandRank::Straight && r2 != HandRank::StraightFlush && r2 != HandRank::RoyalFlush
    );
}

/// Royal flush appears exactly for an ace-high straight flush: top rank
/// ace, bottom rank ten, one suit.
#[test]
fn royal_is_ace_high_straight_flush() {
    let royal = hand([(14, 2), (13, 2), (12, 2), (11, 2), (10, 2)]);
    assert_eq!(royal.evaluate(), HandRank::RoyalFlush);
    let king_high = hand([(13, 2), (12, 2), (11, 2), (10, 2), (9, 2)]);
    assert_eq!(king_high.evaluate(), HandRank::StraightFlush);
}
