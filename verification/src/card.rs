//! The card model: one of 52 playing cards, a five-card hand, and the nine
//! hand categories in canonical poker order.

use rand::Rng;
use vstd::prelude::*;

verus! {

/// One playing card. `rank` runs from 2 to 14 (11 = J, 12 = Q, 13 = K,
/// 14 = A) and `suit` from 0 to 3 (spades, hearts, diamonds, clubs).
#[derive(Debug, Copy, Clone, Hash, PartialEq, Eq, Structural, PartialOrd, Ord)]
pub struct Card {
    pub rank: u8,
    pub suit: u8,
}

/// A card lies inside the 52-card deck.
pub open spec fn valid_card(c: Card) -> bool {
    2 <= c.rank && c.rank <= 14 && c.suit <= 3
}

/// Every card of the sequence lies inside the deck.
pub open spec fn all_valid(s: Seq<Card>) -> bool {
    forall|i: int| 0 <= i < s.len() ==> valid_card(#[trigger] s[i])
}

/// A well-formed hand: exactly five distinct cards of the deck.
pub open spec fn wf_hand(s: Seq<Card>) -> bool {
    &&& s.len() == 5
    &&& all_valid(s)
    &&& s.no_duplicates()
}

impl Card {
    /// Validated constructor; out-of-range values are a programmer error.
    pub fn new(rank: u8, suit: u8) -> (c: Card)
        requires
            2 <= rank <= 14,
            suit <= 3,
        ensures
            c.rank == rank,
            c.suit == suit,
            valid_card(c),
    {
        Card { rank, suit }
    }
}

/// The nine hand categories, weakest first. The derived order follows the
/// declaration order, which is the canonical poker hierarchy.
#[derive(Debug, Copy, Clone, PartialEq, Eq, Structural, PartialOrd, Ord)]
pub enum HandRank {
    HighCard,
    OnePair,
    TwoPair,
    ThreeOfAKind,
    Straight,
    Flush,
    FullHouse,
    FourOfAKind,
    StraightFlush,
    RoyalFlush,
}

/// Position of a category in the poker hierarchy, 0 for the weakest.
pub open spec fn rank_value(r: HandRank) -> int {
    match r {
        HandRank::HighCard => 0,
        HandRank::OnePair => 1,
        HandRank::TwoPair => 2,
        HandRank::ThreeOfAKind => 3,
        HandRank::Straight => 4,
        HandRank::Flush => 5,
        HandRank::FullHouse => 6,
        HandRank::FourOfAKind => 7,
        HandRank::StraightFlush => 8,
        HandRank::RoyalFlush => 9,
    }
}

/// The total order on categories that the library exposes.
pub open spec fn rank_le(a: HandRank, b: HandRank) -> bool {
    rank_value(a) <= rank_value(b)
}

impl HandRank {
    /// Position of this category in the hierarchy, 0 for the weakest.
    pub fn index(&self) -> (v: u8)
        ensures
            v as int == rank_value(*self),
    {
        match *self {
            HandRank::HighCard => 0,
            HandRank::OnePair => 1,
            HandRank::TwoPair => 2,
            HandRank::ThreeOfAKind => 3,
            HandRank::Straight => 4,
            HandRank::Flush => 5,
            HandRank::FullHouse => 6,
            HandRank::FourOfAKind => 7,
            HandRank::StraightFlush => 8,
            HandRank::RoyalFlush => 9,
        }
    }
}

/// Human form of a rank: "2" through "10", then "J", "Q", "K", "A".
pub open spec fn spec_rank_symbol(r: int) -> Seq<char> {
    if r == 2 {
        "2"@
    } else if r == 3 {
        "3"@
    } else if r == 4 {
        "4"@
    } else if r == 5 {
        "5"@
    } else if r == 6 {
        "6"@
    } else if r == 7 {
        "7"@
    } else if r == 8 {
        "8"@
    } else if r == 9 {
        "9"@
    } else if r == 10 {
        "10"@
    } else if r == 11 {
        "J"@
    } else if r == 12 {
        "Q"@
    } else if r == 13 {
        "K"@
    } else if r == 14 {
        "A"@
    } else {
        ""@
    }
}

/// Glyph of a suit: spades, hearts, diamonds, clubs.
pub open spec fn spec_suit_symbol(u: int) -> Seq<char> {
    if u == 0 {
        "\u{2660}"@
    } else if u == 1 {
        "\u{2665}"@
    } else if u == 2 {
        "\u{2666}"@
    } else if u == 3 {
        "\u{2663}"@
    } else {
        ""@
    }
}

/// Human form of a card: rank symbol, one space, suit glyph.
pub open spec fn spec_card_render(c: Card) -> Seq<char> {
    spec_rank_symbol(c.rank as int) + " "@ + spec_suit_symbol(c.suit as int)
}

impl Card {
    /// Render this card for display, e.g. "A \u{2660}" for the ace of
    /// spades.
    pub fn render(&self) -> (out: String)
        ensures
            out@ == spec_card_render(*self),
    {
        let rank_str: &str = match self.rank {
            2 => "2",
            3 => "3",
            4 => "4",
            5 => "5",
            6 => "6",
            7 => "7",
            8 => "8",
            9 => "9",
            10 => "10",
            11 => "J",
            12 => "Q",
            13 => "K",
            14 => "A",
            _ => "",
        };
        let suit_str: &str = match self.suit {
            0 => "\u{2660}",
            1 => "\u{2665}",
            2 => "\u{2666}",
            3 => "\u{2663}",
            _ => "",
        };
        let mut out = String::from_str(rank_str);
        out.append(" ");
        out.append(suit_str);
        out
    }
}

/// Human name of a hand category, "High Card" through "Royal Flush".
pub open spec fn spec_rank_name(r: HandRank) -> Seq<char> {
    match r {
        HandRank::HighCard => "High Card"@,
        HandRank::OnePair => "One Pair"@,
        HandRank::TwoPair => "Two Pair"@,
        HandRank::ThreeOfAKind => "Three of a Kind"@,
        HandRank::Straight => "Straight"@,
        HandRank::Flush => "Flush"@,
        HandRank::FullHouse => "Full House"@,
        HandRank::FourOfAKind => "Four of a Kind"@,
        HandRank::StraightFlush => "Straight Flush"@,
        HandRank::RoyalFlush => "Royal Flush"@,
    }
}

impl HandRank {
    /// Render this category for display, e.g. "Full House".
    pub fn name(&self) -> (out: String)
        ensures
            out@ == spec_rank_name(*self),
    {
        String::from_str(
            match *self {
                HandRank::HighCard => "High Card",
                HandRank::OnePair => "One Pair",
                HandRank::TwoPair => "Two Pair",
                HandRank::ThreeOfAKind => "Three of a Kind",
                HandRank::Straight => "Straight",
                HandRank::Flush => "Flush",
                HandRank::FullHouse => "Full House",
                HandRank::FourOfAKind => "Four of a Kind",
                HandRank::StraightFlush => "Straight Flush",
                HandRank::RoyalFlush => "Royal Flush",
            },
        )
    }
}

/// A five-card hand. Evaluation assumes, and `wf_hand` expresses, that the
/// cards are pairwise distinct.
pub struct Hand {
    pub cards: Vec<Card>,
}

/// Relies on rand::Rng::gen_range over `0..n`: the drawn value lies in the
/// given half-open range, and the call panics only when the range is empty.
#[verifier::external_body]
fn random_below(n: usize) -> (r: usize)
    requires
        n > 0,
    ensures
        r < n,
{
    rand::thread_rng().gen_range(0..n)
}

/// The full 52-card deck, each valid card exactly once.
#[verifier::loop_isolation(false)]
fn full_deck() -> (deck: Vec<Card>)
    ensures
        deck@.len() == 52,
        all_valid(deck@),
        deck@.no_duplicates(),
{
    let mut deck: Vec<Card> = Vec::new();
    let mut suit: u8 = 0;
    while suit < 4
        invariant
            suit <= 4,
            deck@.len() == suit * 13,
            all_valid(deck@),
            forall|k: int| 0 <= k < deck@.len() ==> (#[trigger] deck@[k]).suit < suit,
            deck@.no_duplicates(),
        decreases 4 - suit,
    {
        let mut rank: u8 = 2;
        while rank < 15
            invariant
                suit < 4,
                2 <= rank <= 15,
                deck@.len() == suit * 13 + (rank - 2),
                all_valid(deck@),
                forall|k: int|
                    0 <= k < deck@.len() ==> (#[trigger] deck@[k]).suit < suit || (deck@[k].suit
                        == suit && deck@[k].rank < rank),
                deck@.no_duplicates(),
            decreases 15 - rank,
        {
            let c = Card { rank, suit };
            let ghost old_deck = deck@;
            proof {
                if old_deck.contains(c) {
                    let k = choose|k: int| 0 <= k < old_deck.len() && old_deck[k] == c;
                    assert(old_deck[k].suit < suit || old_deck[k].rank < rank);
                }
                crate::nuts::lemma_push_nodup(old_deck, c);
            }
            deck.push(c);
            rank = rank + 1;
        }
        suit = suit + 1;
    }
    deck
}

impl Hand {
    /// Wraps exactly five cards; any other length is a programmer error.
    pub fn new(cards: Vec<Card>) -> (h: Hand)
        requires
            cards@.len() == 5,
        ensures
            h.cards@ == cards@,
    {
        Hand { cards }
    }

    /// A hand of `size` distinct cards drawn at random from the deck. Which
    /// cards come out is left to the random source; every outcome holds
    /// `size` distinct valid cards.
    #[verifier::loop_isolation(false)]
    pub fn random(size: usize) -> (h: Hand)
        requires
            size <= 52,
        ensures
            h.cards@.len() == size,
            all_valid(h.cards@),
            h.cards@.no_duplicates(),
    {
        let mut deck = full_deck();
        let mut cards: Vec<Card> = Vec::new();
        let mut k: usize = 0;
        while k < size
            invariant
                k <= size,
                cards@.len() == k,
                deck@.len() == 52 - k,
                all_valid(cards@),
                all_valid(deck@),
                cards@.no_duplicates(),
                deck@.no_duplicates(),
                forall|x: Card| #[trigger] deck@.contains(x) ==> !cards@.contains(x),
            decreases size - k,
        {
            let idx = random_below(deck.len());
            let c = deck[idx];
            let ghost old_cards = cards@;
            let ghost old_deck = deck@;
            proof {
                assert(old_deck.contains(old_deck[idx as int]));
                crate::nuts::lemma_push_nodup(old_cards, c);
            }
            cards.push(c);
            deck.remove(idx);
            proof {
                old_deck.remove_ensures(idx as int);
                assert forall|x: Card| #[trigger] deck@.contains(x) implies old_deck.contains(
                    x,
                ) by {
                    let q = choose|q: int| 0 <= q < deck@.len() && deck@[q] == x;
                    if q < idx {
                        assert(old_deck[q] == x);
                    } else {
                        assert(old_deck[q + 1] == x);
                    }
                }
                assert forall|i: int, j: int|
                    0 <= i < j < deck@.len() implies deck@[i] != deck@[j] by {
                    if j < idx {
                    } else if i < idx {
                        assert(deck@[i] == old_deck[i] && deck@[j] == old_deck[j + 1]);
                    } else {
                        assert(deck@[i] == old_deck[i + 1] && deck@[j] == old_deck[j + 1]);
                    }
                }
                assert forall|x: Card| #[trigger] deck@.contains(x) implies !cards@.contains(
                    x,
                ) by {
                    let q = choose|q: int| 0 <= q < deck@.len() && deck@[q] == x;
                    crate::nuts::lemma_push_contains(old_cards, c, x);
                    if x == c {
                        if q < idx {
                            assert(old_deck[q] == x && old_deck[idx as int] == c);
                        } else {
                            assert(old_deck[q + 1] == x && old_deck[idx as int] == c);
                        }
                    }
                }
                assert forall|k2: int| 0 <= k2 < deck@.len() implies valid_card(
                    #[trigger] deck@[k2],
                ) by {
                    if k2 < idx {
                        assert(deck@[k2] == old_deck[k2]);
                    } else {
                        assert(deck@[k2] == old_deck[k2 + 1]);
                    }
                }
            }
            k = k + 1;
        }
        Hand { cards }
    }
}

} // verus!
