//! The card model: construction, ordering, rendering and random hands.

use poker_kata::card::{Card, Hand, HandRank};

#[test]
fn card_new_sets_fields() {
    let c = Card::new(14, 0);
    assert_eq!(c.rank, 14);
    assert_eq!(c.suit, 0);
}

#[test]
fn cards_compare_by_rank_then_suit() {
    let low = Card { rank: 3, suit: 3 };
    let high = Card { rank: 4, suit: 0 };
    assert!(low < high);
    assert_eq!(low, Card { rank: 3, suit: 3 });
}

#[test]
fn card_renders_rank_space_glyph() {
    assert_eq!(Card { rank: 14, suit: 0 }.render(), "A \u{2660}");
    assert_eq!(Card { rank: 10, suit: 1 }.render(), "10 \u{2665}");
    assert_eq!(Card { rank: 2, suit: 2 }.render(), "2 \u{2666}");
    assert_eq!(Card { rank: 11, suit: 3 }.render(), "J \u{2663}");
}

#[test]
fn hand_rank_names() {
    assert_eq!(HandRank::HighCard.name(), "High Card");
    assert_eq!(HandRank::OnePair.name(), "One Pair");
    assert_eq!(HandRank::TwoPair.name(), "Two Pair");
    assert_eq!(HandRank::ThreeOfAKind.name(), "Three of a Kind");
    assert_eq!(HandRank::Straight.name(), "Straight");
    assert_eq!(HandRank::Flush.name(), "Flush");
    assert_eq!(HandRank::FullHouse.name(), "Full House");
    assert_eq!(HandRank::FourOfAKind.name(), "Four of a Kind");
    assert_eq!(HandRank::StraightFlush.name(), "Straight Flush");
    assert_eq!(HandRank::RoyalFlush.name(), "Royal Flush");
}

#[test]
fn hand_rank_order_is_canonical() {
    assert!(HandRank::HighCard < HandRank::OnePair);
    assert!(HandRank::OnePair < HandRank::TwoPair);
    assert!(HandRank::TwoPair < HandRank::ThreeOfAKind);
    assert!(HandRank::ThreeOfAKind < HandRank::Straight);
    assert!(HandRank::Straight < HandRank::Flush);
    assert!(HandRank::Flush < HandRank::FullHouse);
    assert!(HandRank::FullHouse < HandRank::FourOfAKind);
    assert!(HandRank::FourOfAKind < HandRank::StraightFlush);
    assert!(HandRank::StraightFlush < HandRank::RoyalFlush);
    assert_eq!(HandRank::HighCard.index(), 0);
    assert_eq!(HandRank::RoyalFlush.index(), 9);
}

#[test]
fn random_hand_holds_distinct_valid_cards() {
    let h = Hand::random(5);
    assert_eq!(h.cards.len(), 5);
    for i in 0..5 {
        let c = h.cards[i];
        assert!(2 <= c.rank && c.rank <= 14 && c.suit <= 3);
        for j in 0..i {
            assert_ne!(h.cards[j], c);
        }
    }
}

/// Drawing the whole deck forces the random draw through every deck size,
/// and must still yield 52 distinct cards.
#[test]
fn random_hand_can_draw_whole_deck() {
    let h = Hand::random(52);
    assert_eq!(h.cards.len(), 52);
    for i in 0..52 {
        for j in 0..i {
            assert_ne!(h.cards[j], h.cards[i]);
        }
    }
}
