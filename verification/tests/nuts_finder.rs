//! End-to-end scenarios for the nuts finder.

use poker_kata::card::{Card, Hand, HandRank};
use poker_kata::nuts::find_nuts;

#[test]
fn test_royal_flush() {
    let community_cards = vec![
        Card { rank: 10, suit: 0 },
        Card { rank: 11, suit: 0 },
        Card { rank: 12, suit: 0 },
        Card { rank: 13, suit: 0 },
        Card { rank: 14, suit: 0 },
    ];

    let (best_rank, best_hand) = find_nuts(&community_cards);

    assert_eq!(best_rank, HandRank::RoyalFlush);

    // Verify the cards in the best hand.
    assert_eq!(best_hand.cards.len(), 5);
    assert!(best_hand.cards.contains(&Card { rank: 10, suit: 0 }));
    assert!(best_hand.cards.contains(&Card { rank: 11, suit: 0 }));
    assert!(best_hand.cards.contains(&Card { rank: 12, suit: 0 }));
    assert!(best_hand.cards.contains(&Card { rank: 13, suit: 0 }));
    assert!(best_hand.cards.contains(&Card { rank: 14, suit: 0 }));
}

#[test]
fn test_four_of_a_kind() {
    let community_cards = vec![
        Card { rank: 10, suit: 0 },
        Card { rank: 10, suit: 1 },
        Card { rank: 7, suit: 2 },
        Card { rank: 2, suit: 0 },
        Card { rank: 3, suit: 2 },
    ];

    let (best_rank, best_hand) = find_nuts(&community_cards);

    assert_eq!(best_rank, HandRank::FourOfAKind);

    assert_eq!(best_hand.cards.len(), 5);
    assert!(best_hand.cards.contains(&Card { rank: 10, suit: 0 }));
    assert!(best_hand.cards.contains(&Card { rank: 10, suit: 1 }));
    assert!(best_hand.cards.contains(&Card { rank: 10, suit: 2 }));
    assert!(best_hand.cards.contains(&Card { rank: 10, suit: 3 }));
}

#[test]
fn test_straight_flush() {
    let community_cards = vec![
        Card { rank: 2, suit: 0 },
        Card { rank: 2, suit: 1 },
        Card { rank: 5, suit: 0 },
        Card { rank: 6, suit: 0 },
        Card { rank: 9, suit: 2 },
    ];

    let (best_rank, best_hand) = find_nuts(&community_cards);

    assert_eq!(best_rank, HandRank::StraightFlush);

    assert_eq!(best_hand.cards.len(), 5);
    assert!(best_hand.cards.contains(&Card { rank: 3, suit: 0 }));
    assert!(best_hand.cards.contains(&Card { rank: 4, suit: 0 }));
}

/// The finder completes a four-flush board to a royal flush.
#[test]
fn finder_completes_royal() {
    let community = vec![
        Card { rank: 14, suit: 0 },
        Card { rank: 13, suit: 0 },
        Card { rank: 12, suit: 0 },
        Card { rank: 5, suit: 1 },
        Card { rank: 2, suit: 2 },
    ];
    let (rank, hand) = find_nuts(&community);
    assert_eq!(rank, HandRank::RoyalFlush);
    assert!(hand.cards.contains(&Card { rank: 11, suit: 0 }));
    assert!(hand.cards.contains(&Card { rank: 10, suit: 0 }));
}

/// On a rainbow board with no pair, quads are out of reach; here the two
/// hole cards 8 and 10 complete the board's 7-9-J to a straight, which
/// beats the three of a kind that pairing any board card twice would give.
#[test]
fn finder_rainbow_board_reaches_straight() {
    let community = vec![
        Card { rank: 2, suit: 0 },
        Card { rank: 7, suit: 1 },
        Card { rank: 9, suit: 2 },
        Card { rank: 11, suit: 3 },
        Card { rank: 13, suit: 0 },
    ];
    let (rank, _hand) = find_nuts(&community);
    assert_eq!(rank, HandRank::Straight);
}

/// A low four-flush with a straight draw becomes a straight flush, whether
/// the finder runs it up or down.
#[test]
fn finder_low_club_run() {
    let community = vec![
        Card { rank: 2, suit: 3 },
        Card { rank: 3, suit: 3 },
        Card { rank: 4, suit: 3 },
        Card { rank: 5, suit: 3 },
        Card { rank: 9, suit: 2 },
    ];
    let (rank, _hand) = find_nuts(&community);
    assert_eq!(rank, HandRank::StraightFlush);
}

/// The witness the finder returns is itself a reachable hand of the
/// returned category: five distinct cards, at most two from outside the
/// community, evaluating to the returned rank.
#[test]
fn finder_witness_is_valid() {
    let community = vec![
        Card { rank: 10, suit: 0 },
        Card { rank: 10, suit: 1 },
        Card { rank: 7, suit: 2 },
        Card { rank: 2, suit: 0 },
        Card { rank: 3, suit: 2 },
    ];
    let (rank, hand) = find_nuts(&community);
    assert_eq!(hand.cards.len(), 5);
    for i in 0..5 {
        let c = hand.cards[i];
        assert!(2 <= c.rank && c.rank <= 14 && c.suit <= 3);
        for j in 0..i {
            assert_ne!(hand.cards[j], c);
        }
    }
    let outside = hand
        .cards
        .iter()
        .filter(|c| !community.contains(c))
        .count();
    assert!(outside <= 2);
    let witness = Hand::new(hand.cards.clone());
    assert_eq!(witness.evaluate(), rank);
}

/// The category the finder settles on does not depend on the order of the
/// community cards.
#[test]
fn finder_category_ignores_order() {
    let community = vec![
        Card { rank: 2, suit: 0 },
        Card { rank: 2, suit: 1 },
        Card { rank: 5, suit: 0 },
        Card { rank: 6, suit: 0 },
        Card { rank: 9, suit: 2 },
    ];
    let mut shuffled = community.clone();
    shuffled.reverse();
    let (rank_a, _) = find_nuts(&community);
    let (rank_b, _) = find_nuts(&shuffled);
    assert_eq!(rank_a, rank_b);
}

/// The finder's category is at least as strong as any hand built from the
/// board plus two outside cards; here the board's own one pair.
#[test]
fn finder_beats_board_hand() {
    let community = vec![
        Card { rank: 10, suit: 0 },
        Card { rank: 10, suit: 1 },
        Card { rank: 7, suit: 2 },
        Card { rank: 2, suit: 0 },
        Card { rank: 3, suit: 2 },
    ];
    let board = Hand::new(community.clone());
    let board_rank = board.evaluate();
    assert_eq!(board_rank, HandRank::OnePair);
    let (best, _) = find_nuts(&community);
    assert!(best.index() >= board_rank.index());
}
