//! The five-card hand evaluator: classification of a well-formed hand into
//! one of the nine categories, together with the counting lemmas that relate
//! the classification to the ranks and suits of the hand.

use vstd::prelude::*;

use crate::card::{all_valid, valid_card, wf_hand, Card, Hand, HandRank};

verus! {

/// The card with the given rank and suit, both given as mathematical ints.
pub open spec fn card_of(r: int, u: int) -> Card {
    Card { rank: r as u8, suit: u as u8 }
}

/// 1 when the condition holds, 0 otherwise.
pub open spec fn ind(b: bool) -> int {
    if b {
        1
    } else {
        0
    }
}

/// How many of the four cards of rank `r` appear in `s`. For a sequence
/// without duplicates this is the number of cards of rank `r`; it depends
/// only on which cards `s` contains, never on their order.
pub open spec fn rank_count(s: Seq<Card>, r: int) -> int {
    ind(s.contains(card_of(r, 0))) + ind(s.contains(card_of(r, 1))) + ind(
        s.contains(card_of(r, 2)),
    ) + ind(s.contains(card_of(r, 3)))
}

/// All cards of the sequence share one suit.
pub open spec fn spec_flush(s: Seq<Card>) -> bool {
    forall|i: int, j: int|
        #![trigger s[i], s[j]]
        0 <= i < s.len() && 0 <= j < s.len() ==> s[i].suit == s[j].suit
}

/// The five consecutive ranks starting at `lo` are each present exactly once.
pub open spec fn spec_straight_at(s: Seq<Card>, lo: int) -> bool {
    forall|r: int| lo <= r < lo + 5 ==> #[trigger] rank_count(s, r) == 1
}

/// The wheel: ace plus the ranks 2, 3, 4 and 5, each exactly once.
pub open spec fn spec_wheel(s: Seq<Card>) -> bool {
    &&& rank_count(s, 14) == 1
    &&& forall|r: int| 2 <= r <= 5 ==> #[trigger] rank_count(s, r) == 1
}

/// Five consecutive ranks each present once, or the wheel, the only straight
/// in which the ace plays low.
pub open spec fn spec_straight(s: Seq<Card>) -> bool {
    (exists|lo: int| 2 <= lo <= 10 && spec_straight_at(s, lo)) || spec_wheel(s)
}

/// Some rank appears exactly `n` times.
pub open spec fn spec_has_count(s: Seq<Card>, n: int) -> bool {
    exists|r: int| 2 <= r <= 14 && #[trigger] rank_count(s, r) == n
}

/// Two different ranks each appear exactly twice.
pub open spec fn spec_two_pairs(s: Seq<Card>) -> bool {
    exists|r1: int, r2: int|
        2 <= r1 < r2 <= 14 && #[trigger] rank_count(s, r1) == 2 && #[trigger] rank_count(s, r2)
            == 2
}

/// The category of a five-card hand, decided in the canonical order. A royal
/// flush is the ace-high straight flush, with ranks exactly 10 through ace;
/// the suited wheel counts as an ordinary straight flush.
pub open spec fn classify(s: Seq<Card>) -> HandRank {
    if spec_flush(s) && spec_straight(s) {
        if spec_straight_at(s, 10) {
            HandRank::RoyalFlush
        } else {
            HandRank::StraightFlush
        }
    } else if spec_has_count(s, 4) {
        HandRank::FourOfAKind
    } else if spec_has_count(s, 3) && spec_has_count(s, 2) {
        HandRank::FullHouse
    } else if spec_flush(s) {
        HandRank::Flush
    } else if spec_straight(s) {
        HandRank::Straight
    } else if spec_has_count(s, 3) {
        HandRank::ThreeOfAKind
    } else if spec_two_pairs(s) {
        HandRank::TwoPair
    } else if spec_has_count(s, 2) {
        HandRank::OnePair
    } else {
        HandRank::HighCard
    }
}

/// Position-by-position count of the cards of rank `r`, used to tie the
/// counting loops to `rank_count`.
pub open spec fn seq_rank_count(s: Seq<Card>, r: int) -> int
    decreases s.len(),
{
    if s.len() == 0 {
        0
    } else {
        seq_rank_count(s.drop_last(), r) + ind(s.last().rank == r)
    }
}

/// On a duplicate-free sequence of valid cards the positional count agrees
/// with the contains-based count. The rank must not wrap when cast to `u8`.
pub proof fn lemma_rank_count_agrees(s: Seq<Card>, r: int)
    requires
        all_valid(s),
        s.no_duplicates(),
        0 <= r < 256,
    ensures
        seq_rank_count(s, r) == rank_count(s, r),
    decreases s.len(),
{
    if s.len() == 0 {
        assert(forall|c: Card| !s.contains(c));
    } else {
        let t = s.drop_last();
        let c = s.last();
        assert(t.no_duplicates());
        assert(all_valid(t));
        lemma_rank_count_agrees(t, r);
        assert(!t.contains(c)) by {
            if t.contains(c) {
                let i = choose|i: int| 0 <= i < t.len() && t[i] == c;
                assert(s[i] == s[s.len() - 1]);
            }
        }
        assert forall|x: Card| #[trigger] s.contains(x) <==> t.contains(x) || x == c by {
            if s.contains(x) {
                let i = choose|i: int| 0 <= i < s.len() && s[i] == x;
                if i < s.len() - 1 {
                    assert(t[i] == x);
                } else {
                    assert(x == c);
                }
            }
            if t.contains(x) {
                let i = choose|i: int| 0 <= i < t.len() && t[i] == x;
                assert(s[i] == x);
            }
            if x == c {
                assert(s[s.len() - 1] == c);
            }
        }
        if c.rank == r {
            assert(card_of(r, c.suit as int) == c);
            assert forall|u: int| 0 <= u <= 3 && u != c.suit implies card_of(r, u) != c by {}
        } else {
            assert forall|u: int| 0 <= u <= 3 implies card_of(r, u) != c by {}
        }
    }
}

/// Sum of the positional counts over the rank interval `[lo, hi)`.
pub open spec fn sum_counts(s: Seq<Card>, lo: int, hi: int) -> int
    decreases hi - lo,
{
    if lo >= hi {
        0
    } else {
        seq_rank_count(s, lo) + sum_counts(s, lo + 1, hi)
    }
}

proof fn lemma_count_nonneg(s: Seq<Card>, r: int)
    ensures
        seq_rank_count(s, r) >= 0,
    decreases s.len(),
{
    if s.len() > 0 {
        lemma_count_nonneg(s.drop_last(), r);
    }
}

proof fn lemma_sum_nonneg(s: Seq<Card>, lo: int, hi: int)
    ensures
        sum_counts(s, lo, hi) >= 0,
    decreases hi - lo,
{
    if lo < hi {
        lemma_count_nonneg(s, lo);
        lemma_sum_nonneg(s, lo + 1, hi);
    }
}

proof fn lemma_sum_split(s: Seq<Card>, lo: int, mid: int, hi: int)
    requires
        lo <= mid <= hi,
    ensures
        sum_counts(s, lo, hi) == sum_counts(s, lo, mid) + sum_counts(s, mid, hi),
    decreases mid - lo,
{
    if lo < mid {
        lemma_sum_split(s, lo + 1, mid, hi);
    }
}

proof fn lemma_sum_zero(s: Seq<Card>, lo: int, hi: int, r: int)
    requires
        sum_counts(s, lo, hi) == 0,
        lo <= r < hi,
    ensures
        seq_rank_count(s, r) == 0,
    decreases r - lo,
{
    lemma_count_nonneg(s, lo);
    lemma_sum_nonneg(s, lo + 1, hi);
    if lo < r {
        lemma_sum_zero(s, lo + 1, hi, r);
    }
}

proof fn lemma_sum_ones(s: Seq<Card>, lo: int, hi: int)
    requires
        lo <= hi,
        forall|r: int| lo <= r < hi ==> #[trigger] seq_rank_count(s, r) == 1,
    ensures
        sum_counts(s, lo, hi) == hi - lo,
    decreases hi - lo,
{
    if lo < hi {
        lemma_sum_ones(s, lo + 1, hi);
    }
}

proof fn lemma_sum_drop_last(s: Seq<Card>, lo: int, hi: int)
    requires
        s.len() > 0,
    ensures
        sum_counts(s, lo, hi) == sum_counts(s.drop_last(), lo, hi) + ind(
            lo <= s.last().rank < hi,
        ),
    decreases hi - lo,
{
    if lo < hi {
        lemma_sum_drop_last(s, lo + 1, hi);
    }
}

/// A sequence of valid cards has as many rank occurrences, summed over the
/// thirteen ranks, as it has cards.
pub proof fn lemma_total_is_len(s: Seq<Card>)
    requires
        all_valid(s),
    ensures
        sum_counts(s, 2, 15) == s.len(),
    decreases s.len(),
{
    if s.len() == 0 {
        lemma_sum_ones_empty(s, 2, 15);
    } else {
        let t = s.drop_last();
        assert(all_valid(t));
        lemma_total_is_len(t);
        lemma_sum_drop_last(s, 2, 15);
        assert(valid_card(s[s.len() - 1]));
    }
}

proof fn lemma_sum_ones_empty(s: Seq<Card>, lo: int, hi: int)
    requires
        s.len() == 0,
    ensures
        sum_counts(s, lo, hi) == 0,
    decreases hi - lo,
{
    if lo < hi {
        lemma_sum_ones_empty(s, lo + 1, hi);
    }
}

/// In a flush no rank can appear twice: two cards of one rank would need two
/// different suits.
pub proof fn lemma_flush_counts(s: Seq<Card>)
    requires
        spec_flush(s),
    ensures
        forall|r: int| #[trigger] rank_count(s, r) <= 1,
{
    assert forall|r: int| #[trigger] rank_count(s, r) <= 1 by {
        assert forall|u1: int, u2: int|
            0 <= u1 < u2 <= 3 implies !(s.contains(card_of(r, u1)) && s.contains(
            card_of(r, u2),
        )) by {
            if s.contains(card_of(r, u1)) && s.contains(card_of(r, u2)) {
                let i1 = choose|i: int| 0 <= i < s.len() && s[i] == card_of(r, u1);
                let i2 = choose|i: int| 0 <= i < s.len() && s[i] == card_of(r, u2);
                assert(s[i1].suit == s[i2].suit);
            }
        }
    }
}

/// In a straight hand of five cards, ranks outside the straight are absent
/// and ranks inside appear once; in particular no rank repeats.
pub proof fn lemma_straight_counts(s: Seq<Card>)
    requires
        wf_hand(s),
        spec_straight(s),
    ensures
        forall|r: int| 2 <= r <= 14 ==> #[trigger] rank_count(s, r) <= 1,
{
    assert forall|r: int| 2 <= r <= 14 implies #[trigger] rank_count(s, r) == seq_rank_count(
        s,
        r,
    ) by {
        lemma_rank_count_agrees(s, r);
    }
    lemma_total_is_len(s);
    if exists|lo: int| 2 <= lo <= 10 && spec_straight_at(s, lo) {
        let lo = choose|lo: int| 2 <= lo <= 10 && spec_straight_at(s, lo);
        lemma_sum_split(s, 2, lo, 15);
        lemma_sum_split(s, lo, lo + 5, 15);
        assert forall|r: int| lo <= r < lo + 5 implies #[trigger] seq_rank_count(s, r) == 1 by {
            assert(rank_count(s, r) == 1);
        }
        lemma_sum_ones(s, lo, lo + 5);
        lemma_sum_nonneg(s, 2, lo);
        lemma_sum_nonneg(s, lo + 5, 15);
        assert forall|r: int| 2 <= r <= 14 && !(lo <= r < lo + 5) implies #[trigger] rank_count(
            s,
            r,
        ) == 0 by {
            if r < lo {
                lemma_sum_zero(s, 2, lo, r);
            } else {
                lemma_sum_zero(s, lo + 5, 15, r);
            }
        }
    } else {
        lemma_sum_split(s, 2, 6, 15);
        lemma_sum_split(s, 6, 14, 15);
        assert forall|r: int| 2 <= r < 6 implies #[trigger] seq_rank_count(s, r) == 1 by {
            assert(rank_count(s, r) == 1);
        }
        lemma_sum_ones(s, 2, 6);
        lemma_sum_nonneg(s, 6, 14);
        assert(sum_counts(s, 15, 15) == 0);
        assert(sum_counts(s, 14, 15) == seq_rank_count(s, 14));
        assert forall|r: int| 6 <= r <= 13 implies #[trigger] rank_count(s, r) == 0 by {
            lemma_sum_zero(s, 6, 14, r);
        }
    }
}

/// Law: a hand classifies as Flush, StraightFlush or RoyalFlush exactly
/// when its five cards all share one suit.
pub proof fn lemma_flush_iff(h: Seq<Card>)
    requires
        wf_hand(h),
    ensures
        (classify(h) == HandRank::Flush || classify(h) == HandRank::StraightFlush || classify(h)
            == HandRank::RoyalFlush) <==> spec_flush(h),
{
    if spec_flush(h) {
        lemma_flush_counts(h);
        assert(!spec_has_count(h, 4)) by {
            if spec_has_count(h, 4) {
                let r = choose|r: int| 2 <= r <= 14 && rank_count(h, r) == 4;
                assert(rank_count(h, r) <= 1);
            }
        }
        assert(!spec_has_count(h, 3)) by {
            if spec_has_count(h, 3) {
                let r = choose|r: int| 2 <= r <= 14 && rank_count(h, r) == 3;
                assert(rank_count(h, r) <= 1);
            }
        }
    }
}

/// Law: a hand classifies as Straight, StraightFlush or RoyalFlush exactly
/// when its ranks are five consecutive values, or the wheel.
pub proof fn lemma_straight_iff(h: Seq<Card>)
    requires
        wf_hand(h),
    ensures
        (classify(h) == HandRank::Straight || classify(h) == HandRank::StraightFlush || classify(
            h,
        ) == HandRank::RoyalFlush) <==> spec_straight(h),
{
    if spec_straight(h) {
        lemma_straight_counts(h);
        assert(!spec_has_count(h, 4)) by {
            if spec_has_count(h, 4) {
                let r = choose|r: int| 2 <= r <= 14 && rank_count(h, r) == 4;
                assert(rank_count(h, r) <= 1);
            }
        }
        assert(!spec_has_count(h, 3)) by {
            if spec_has_count(h, 3) {
                let r = choose|r: int| 2 <= r <= 14 && rank_count(h, r) == 3;
                assert(rank_count(h, r) <= 1);
            }
        }
        assert(!spec_has_count(h, 2)) by {
            if spec_has_count(h, 2) {
                let r = choose|r: int| 2 <= r <= 14 && rank_count(h, r) == 2;
                assert(rank_count(h, r) <= 1);
            }
        }
    }
}

/// Law: a hand classifies as RoyalFlush exactly when it is a flush whose
/// ranks are 10, jack, queen, king and ace: the ace-high straight flush.
pub proof fn lemma_royal_iff(h: Seq<Card>)
    requires
        wf_hand(h),
    ensures
        classify(h) == HandRank::RoyalFlush <==> (spec_flush(h) && spec_straight_at(h, 10)),
{
    if spec_flush(h) && spec_straight_at(h, 10) {
        assert(2 <= 10 <= 10 && spec_straight_at(h, 10));
        assert(spec_straight(h));
    }
}

/// Number of cards in `cards` whose rank is `r`.
fn count_rank(cards: &Vec<Card>, r: u8) -> (n: usize)
    requires
        all_valid(cards@),
        cards@.no_duplicates(),
    ensures
        n as int == rank_count(cards@, r as int),
{
    let mut n: usize = 0;
    let mut i: usize = 0;
    while i < cards.len()
        invariant
            i <= cards@.len(),
            n <= i,
            n as int == seq_rank_count(cards@.take(i as int), r as int),
        decreases cards@.len() - i,
    {
        proof {
            assert(cards@.take(i + 1).drop_last() =~= cards@.take(i as int));
            assert(cards@.take(i + 1).last() == cards@[i as int]);
        }
        if cards[i].rank == r {
            n = n + 1;
        }
        i = i + 1;
    }
    proof {
        assert(cards@.take(cards@.len() as int) =~= cards@);
        lemma_rank_count_agrees(cards@, r as int);
    }
    n
}

/// Do all cards share one suit?
fn check_flush(cards: &Vec<Card>) -> (b: bool)
    requires
        cards@.len() >= 1,
    ensures
        b == spec_flush(cards@),
{
    let s0 = cards[0].suit;
    let mut i: usize = 1;
    while i < cards.len()
        invariant
            1 <= i <= cards@.len(),
            s0 == cards@[0].suit,
            forall|k: int| #![trigger cards@[k]] 0 <= k < i ==> cards@[k].suit == s0,
        decreases cards@.len() - i,
    {
        if cards[i].suit != s0 {
            return false;
        }
        i = i + 1;
    }
    true
}

/// Are the five consecutive ranks starting at `lo` each present once?
fn check_straight_at(cards: &Vec<Card>, lo: u8) -> (b: bool)
    requires
        all_valid(cards@),
        cards@.no_duplicates(),
        2 <= lo <= 10,
    ensures
        b == spec_straight_at(cards@, lo as int),
{
    let mut k: u8 = 0;
    while k < 5
        invariant
            k <= 5,
            2 <= lo <= 10,
            all_valid(cards@),
            cards@.no_duplicates(),
            forall|r: int| lo <= r < lo + k ==> #[trigger] rank_count(cards@, r) == 1,
        decreases 5 - k,
    {
        if count_rank(cards, lo + k) != 1 {
            return false;
        }
        k = k + 1;
    }
    true
}

/// Does the hand hold any straight, the wheel included?
fn check_straight(cards: &Vec<Card>) -> (b: bool)
    requires
        all_valid(cards@),
        cards@.no_duplicates(),
    ensures
        b == spec_straight(cards@),
{
    let mut lo: u8 = 2;
    while lo < 11
        invariant
            2 <= lo <= 11,
            all_valid(cards@),
            cards@.no_duplicates(),
            forall|l: int| 2 <= l < lo ==> !spec_straight_at(cards@, l),
        decreases 11 - lo,
    {
        if check_straight_at(cards, lo) {
            return true;
        }
        lo = lo + 1;
    }
    if count_rank(cards, 14) == 1 {
        let mut r: u8 = 2;
        while r < 6
            invariant
                2 <= r <= 6,
                all_valid(cards@),
                cards@.no_duplicates(),
                rank_count(cards@, 14) == 1,
                forall|l: int| 2 <= l <= 10 ==> !spec_straight_at(cards@, l),
                forall|r2: int| 2 <= r2 < r ==> #[trigger] rank_count(cards@, r2) == 1,
            decreases 6 - r,
        {
            if count_rank(cards, r) != 1 {
                return false;
            }
            r = r + 1;
        }
        return true;
    }
    false
}

/// Does some rank appear exactly `n` times?
fn check_count(cards: &Vec<Card>, n: usize) -> (b: bool)
    requires
        all_valid(cards@),
        cards@.no_duplicates(),
    ensures
        b == spec_has_count(cards@, n as int),
{
    let mut r: u8 = 2;
    while r < 15
        invariant
            2 <= r <= 15,
            all_valid(cards@),
            cards@.no_duplicates(),
            forall|r2: int| 2 <= r2 < r ==> #[trigger] rank_count(cards@, r2) != n,
        decreases 15 - r,
    {
        if count_rank(cards, r) == n {
            return true;
        }
        r = r + 1;
    }
    false
}

/// Do two different ranks each appear exactly twice?
fn check_two_pairs(cards: &Vec<Card>) -> (b: bool)
    requires
        all_valid(cards@),
        cards@.no_duplicates(),
    ensures
        b == spec_two_pairs(cards@),
{
    let mut r: u8 = 2;
    let mut seen: bool = false;
    while r < 15
        invariant
            2 <= r <= 15,
            all_valid(cards@),
            cards@.no_duplicates(),
            seen == (exists|r1: int| 2 <= r1 < r && #[trigger] rank_count(cards@, r1) == 2),
            forall|r1: int, r2: int|
                2 <= r1 < r2 < r ==> !(#[trigger] rank_count(cards@, r1) == 2
                    && #[trigger] rank_count(cards@, r2) == 2),
        decreases 15 - r,
    {
        if count_rank(cards, r) == 2 {
            if seen {
                proof {
                    let r1 = choose|r1: int| 2 <= r1 < r && rank_count(cards@, r1) == 2;
                    assert(2 <= r1 < r as int <= 14 && rank_count(cards@, r1) == 2 && rank_count(
                        cards@,
                        r as int,
                    ) == 2);
                }
                return true;
            }
            seen = true;
        }
        r = r + 1;
    }
    false
}

/// Classify a well-formed five-card selection.
pub(crate) fn classify_cards(cards: &Vec<Card>) -> (r: HandRank)
    requires
        wf_hand(cards@),
    ensures
        r == classify(cards@),
{
    let flush = check_flush(cards);
    let straight = check_straight(cards);
    if flush && straight {
        if check_straight_at(cards, 10) {
            HandRank::RoyalFlush
        } else {
            HandRank::StraightFlush
        }
    } else if check_count(cards, 4) {
        HandRank::FourOfAKind
    } else {
        let c3 = check_count(cards, 3);
        let c2 = check_count(cards, 2);
        if c3 && c2 {
            HandRank::FullHouse
        } else if flush {
            HandRank::Flush
        } else if straight {
            HandRank::Straight
        } else if c3 {
            HandRank::ThreeOfAKind
        } else if check_two_pairs(cards) {
            HandRank::TwoPair
        } else if c2 {
            HandRank::OnePair
        } else {
            HandRank::HighCard
        }
    }
}

impl Hand {
    /// Classify this hand. A pure total function of the five cards: every
    /// well-formed hand maps to exactly the category given by `classify`.
    pub fn evaluate(&self) -> (r: HandRank)
        requires
            wf_hand(self.cards@),
        ensures
            r == classify(self.cards@),
    {
        classify_cards(&self.cards)
    }
}

} // verus!
