//! The nuts finder: given five community cards, the strongest category that
//! any two hole cards drawn from the rest of the deck can reach, together
//! with one concrete winning five-card selection.

use vstd::prelude::*;

use crate::card::{all_valid, rank_le, rank_value, valid_card, wf_hand, Card, Hand, HandRank};
use crate::eval::{classify, classify_cards};
use vstd::set_lib::{lemma_int_range, lemma_len_subset, lemma_subset_equality, set_int_range};

verus! {

/// Every card of `h` appears in `s`.
pub open spec fn covered_by(h: Seq<Card>, s: Seq<Card>) -> bool {
    forall|k: int| 0 <= k < h.len() ==> s.contains(#[trigger] h[k])
}

/// Every card of `h` is a community card or one of the two cards `c1`, `c2`.
pub open spec fn within(comm: Seq<Card>, h: Seq<Card>, c1: Card, c2: Card) -> bool {
    forall|k: int| 0 <= k < h.len() ==> comm.contains(#[trigger] h[k]) || h[k] == c1 || h[k] == c2
}

/// A hand reachable on the given community: five distinct valid cards of
/// which at most two lie outside the community, those two being the hole
/// cards.
pub open spec fn candidate(comm: Seq<Card>, h: Seq<Card>) -> bool {
    &&& wf_hand(h)
    &&& exists|c1: Card, c2: Card| #[trigger] within(comm, h, c1, c2)
}

/// Two sequences hold exactly the same cards.
pub open spec fn same_cards(a: Seq<Card>, b: Seq<Card>) -> bool {
    forall|c: Card| #![trigger a.contains(c)] #![trigger b.contains(c)] a.contains(c)
        <==> b.contains(c)
}

/// Every well-formed five-card selection out of `s` classifies at or below
/// `best`.
pub open spec fn all_covered_le(s: Seq<Card>, best: HandRank) -> bool {
    forall|h: Seq<Card>| wf_hand(h) && covered_by(h, s) ==> rank_le(#[trigger] classify(h), best)
}

/// The sequence `s` with position `a` removed.
pub open spec fn drop_one(s: Seq<Card>, a: int) -> Seq<Card> {
    Seq::new(
        (s.len() - 1) as nat,
        |i: int|
            if i < a {
                s[i]
            } else {
                s[i + 1]
            },
    )
}

/// The sequence `s` with positions `a` and `b` removed, for `a < b`.
pub open spec fn drop_two(s: Seq<Card>, a: int, b: int) -> Seq<Card> {
    Seq::new(
        (s.len() - 2) as nat,
        |i: int|
            if i < a {
                s[i]
            } else if i < b - 1 {
                s[i + 1]
            } else {
                s[i + 2]
            },
    )
}

/// Membership in a pushed sequence.
pub proof fn lemma_push_contains(s: Seq<Card>, x: Card, y: Card)
    ensures
        s.push(x).contains(y) <==> s.contains(y) || y == x,
{
    if s.push(x).contains(y) {
        let i = choose|i: int| 0 <= i < s.push(x).len() && s.push(x)[i] == y;
        if i < s.len() {
            assert(s[i] == y);
        }
    }
    if s.contains(y) {
        let i = choose|i: int| 0 <= i < s.len() && s[i] == y;
        assert(s.push(x)[i] == y);
    }
    if y == x {
        assert(s.push(x)[s.len() as int] == y);
    }
}

/// Pushing a fresh card keeps a sequence duplicate-free.
pub proof fn lemma_push_nodup(s: Seq<Card>, x: Card)
    requires
        s.no_duplicates(),
        !s.contains(x),
    ensures
        s.push(x).no_duplicates(),
{
    assert forall|i: int, j: int|
        0 <= i < j < s.push(x).len() implies s.push(x)[i] != s.push(x)[j] by {
        if j < s.len() {
        } else {
            assert(s.push(x)[i] == s[i]);
            if s[i] == x {
                assert(s.contains(x));
            }
        }
    }
}

/// What `drop_one` holds: one position of `s` taken out, the rest kept.
proof fn lemma_drop_one_props(s: Seq<Card>, a: int)
    requires
        0 <= a < s.len(),
        s.no_duplicates(),
        all_valid(s),
    ensures
        drop_one(s, a).len() == s.len() - 1,
        drop_one(s, a).no_duplicates(),
        all_valid(drop_one(s, a)),
        covered_by(drop_one(s, a), s),
        forall|x: Card| #[trigger]
            drop_one(s, a).contains(x) <==> exists|q: int|
                0 <= q < s.len() && q != a && #[trigger] s[q] == x,
{
    let d = drop_one(s, a);
    assert forall|i: int, j: int| 0 <= i < j < d.len() implies d[i] != d[j] by {}
    assert forall|k: int| 0 <= k < d.len() implies s.contains(#[trigger] d[k]) by {
        if k < a {
            assert(d[k] == s[k]);
        } else {
            assert(d[k] == s[k + 1]);
        }
    }
    assert forall|x: Card| #[trigger] d.contains(x) implies exists|q: int|
        0 <= q < s.len() && q != a && #[trigger] s[q] == x by {
        let i = choose|i: int| 0 <= i < d.len() && d[i] == x;
        if i < a {
            assert(s[i] == x);
        } else {
            assert(s[i + 1] == x);
        }
    }
    assert forall|x: Card| (exists|q: int| 0 <= q < s.len() && q != a && #[trigger] s[q] == x)
        implies #[trigger] d.contains(x) by {
        let q = choose|q: int| 0 <= q < s.len() && q != a && s[q] == x;
        if q < a {
            assert(d[q] == x);
        } else {
            assert(d[q - 1] == x);
        }
    }
}

/// What `drop_two` holds: two positions of `s` taken out, the rest kept.
proof fn lemma_drop_two_props(s: Seq<Card>, a: int, b: int)
    requires
        0 <= a < b < s.len(),
        s.no_duplicates(),
        all_valid(s),
    ensures
        drop_two(s, a, b).len() == s.len() - 2,
        drop_two(s, a, b).no_duplicates(),
        all_valid(drop_two(s, a, b)),
        covered_by(drop_two(s, a, b), s),
        forall|x: Card| #[trigger]
            drop_two(s, a, b).contains(x) <==> exists|q: int|
                0 <= q < s.len() && q != a && q != b && #[trigger] s[q] == x,
{
    let d = drop_two(s, a, b);
    assert forall|i: int, j: int| 0 <= i < j < d.len() implies d[i] != d[j] by {}
    assert forall|k: int| 0 <= k < d.len() implies s.contains(#[trigger] d[k]) by {
        if k < a {
            assert(d[k] == s[k]);
        } else if k < b - 1 {
            assert(d[k] == s[k + 1]);
        } else {
            assert(d[k] == s[k + 2]);
        }
    }
    assert forall|x: Card| #[trigger] d.contains(x) implies exists|q: int|
        0 <= q < s.len() && q != a && q != b && #[trigger] s[q] == x by {
        let i = choose|i: int| 0 <= i < d.len() && d[i] == x;
        if i < a {
            assert(s[i] == x);
        } else if i < b - 1 {
            assert(s[i + 1] == x);
        } else {
            assert(s[i + 2] == x);
        }
    }
    assert forall|x: Card|
        (exists|q: int| 0 <= q < s.len() && q != a && q != b && #[trigger] s[q] == x)
        implies #[trigger] d.contains(x) by {
        let q = choose|q: int| 0 <= q < s.len() && q != a && q != b && s[q] == x;
        if q < a {
            assert(d[q] == x);
        } else if q < b {
            assert(d[q - 1] == x);
        } else {
            assert(d[q - 2] == x);
        }
    }
}

/// A finite set strictly smaller than another it sits inside misses one of
/// the larger set's elements.
proof fn lemma_missing_element(s: Set<int>, t: Set<int>)
    requires
        s.finite(),
        t.finite(),
        s.subset_of(t),
        s.len() < t.len(),
    ensures
        exists|x: int| t.contains(x) && !s.contains(x),
{
    if forall|x: int| #[trigger] t.contains(x) ==> s.contains(x) {
        lemma_len_subset(t, s);
    }
}

/// A duplicate-free five-card hand drawn from a duplicate-free seven-card
/// pool holds exactly the pool minus two of its positions.
proof fn lemma_five_of_seven(h: Seq<Card>, s: Seq<Card>)
    requires
        h.len() == 5,
        h.no_duplicates(),
        s.len() == 7,
        s.no_duplicates(),
        all_valid(s),
        covered_by(h, s),
    ensures
        exists|p: (int, int)|
            0 <= p.0 < p.1 < 7 && same_cards(h, drop_two(s, p.0, p.1)),
{
    assert(s.contains(h[0]) && s.contains(h[1]) && s.contains(h[2]) && s.contains(h[3])
        && s.contains(h[4]));
    let m0 = choose|i: int| 0 <= i < s.len() && s[i] == h[0];
    let m1 = choose|i: int| 0 <= i < s.len() && s[i] == h[1];
    let m2 = choose|i: int| 0 <= i < s.len() && s[i] == h[2];
    let m3 = choose|i: int| 0 <= i < s.len() && s[i] == h[3];
    let m4 = choose|i: int| 0 <= i < s.len() && s[i] == h[4];
    let mset = Set::empty().insert(m0).insert(m1).insert(m2).insert(m3).insert(m4);
    assert(mset.finite());
    assert(mset.len() == 5) by {
        assert(Set::empty().insert(m0).len() == 1);
        assert(Set::empty().insert(m0).insert(m1).len() == 2);
        assert(Set::empty().insert(m0).insert(m1).insert(m2).len() == 3);
        assert(Set::empty().insert(m0).insert(m1).insert(m2).insert(m3).len() == 4);
    }
    let t = set_int_range(0, 7);
    lemma_int_range(0, 7);
    assert(mset.subset_of(t));
    lemma_missing_element(mset, t);
    let a = choose|x: int| t.contains(x) && !mset.contains(x);
    let mset6 = mset.insert(a);
    assert(mset6.len() == 6);
    assert(mset6.subset_of(t));
    lemma_missing_element(mset6, t);
    let b0 = choose|x: int| t.contains(x) && !mset6.contains(x);
    let a1 = if a < b0 {
        a
    } else {
        b0
    };
    let b1 = if a < b0 {
        b0
    } else {
        a
    };
    assert(0 <= a1 < b1 < 7);
    let mset7 = mset6.insert(b0);
    assert(mset7.len() == 7);
    assert(mset7.subset_of(t));
    lemma_subset_equality(mset7, t);
    lemma_drop_two_props(s, a1, b1);
    let d = drop_two(s, a1, b1);
    assert forall|x: Card| #[trigger] h.contains(x) implies d.contains(x) by {
        let k = choose|k: int| 0 <= k < h.len() && h[k] == x;
        let q = if k == 0 {
            m0
        } else if k == 1 {
            m1
        } else if k == 2 {
            m2
        } else if k == 3 {
            m3
        } else {
            m4
        };
        assert(0 <= q < s.len() && q != a1 && q != b1 && s[q] == x);
    }
    assert forall|x: Card| #[trigger] d.contains(x) implies h.contains(x) by {
        let q = choose|q: int| 0 <= q < s.len() && q != a1 && q != b1 && s[q] == x;
        assert(t.contains(q));
        assert(mset7.contains(q));
        assert(mset.contains(q));
        if q == m0 {
            assert(h[0] == x);
        } else if q == m1 {
            assert(h[1] == x);
        } else if q == m2 {
            assert(h[2] == x);
        } else if q == m3 {
            assert(h[3] == x);
        } else {
            assert(h[4] == x);
        }
    }
    assert(same_cards(h, drop_two(s, a1, b1)));
    assert(0 <= (a1, b1).0 < (a1, b1).1 < 7 && same_cards(h, drop_two(s, (a1, b1).0, (a1, b1).1)));
}

/// A duplicate-free five-card hand drawn from a duplicate-free six-card pool
/// holds exactly the pool minus one of its positions.
proof fn lemma_five_of_six(h: Seq<Card>, s: Seq<Card>)
    requires
        h.len() == 5,
        h.no_duplicates(),
        s.len() == 6,
        s.no_duplicates(),
        all_valid(s),
        covered_by(h, s),
    ensures
        exists|a: int| 0 <= a < 6 && same_cards(h, #[trigger] drop_one(s, a)),
{
    assert(s.contains(h[0]) && s.contains(h[1]) && s.contains(h[2]) && s.contains(h[3])
        && s.contains(h[4]));
    let m0 = choose|i: int| 0 <= i < s.len() && s[i] == h[0];
    let m1 = choose|i: int| 0 <= i < s.len() && s[i] == h[1];
    let m2 = choose|i: int| 0 <= i < s.len() && s[i] == h[2];
    let m3 = choose|i: int| 0 <= i < s.len() && s[i] == h[3];
    let m4 = choose|i: int| 0 <= i < s.len() && s[i] == h[4];
    let mset = Set::empty().insert(m0).insert(m1).insert(m2).insert(m3).insert(m4);
    assert(mset.finite());
    assert(mset.len() == 5) by {
        assert(Set::empty().insert(m0).len() == 1);
        assert(Set::empty().insert(m0).insert(m1).len() == 2);
        assert(Set::empty().insert(m0).insert(m1).insert(m2).len() == 3);
        assert(Set::empty().insert(m0).insert(m1).insert(m2).insert(m3).len() == 4);
    }
    let t = set_int_range(0, 6);
    lemma_int_range(0, 6);
    assert(mset.subset_of(t));
    lemma_missing_element(mset, t);
    let a = choose|x: int| t.contains(x) && !mset.contains(x);
    let mset6 = mset.insert(a);
    assert(mset6.len() == 6);
    assert(mset6.subset_of(t));
    lemma_subset_equality(mset6, t);
    lemma_drop_one_props(s, a);
    let d = drop_one(s, a);
    assert forall|x: Card| #[trigger] h.contains(x) implies d.contains(x) by {
        let k = choose|k: int| 0 <= k < h.len() && h[k] == x;
        let q = if k == 0 {
            m0
        } else if k == 1 {
            m1
        } else if k == 2 {
            m2
        } else if k == 3 {
            m3
        } else {
            m4
        };
        assert(0 <= q < s.len() && q != a && s[q] == x);
    }
    assert forall|x: Card| #[trigger] d.contains(x) implies h.contains(x) by {
        let q = choose|q: int| 0 <= q < s.len() && q != a && s[q] == x;
        assert(t.contains(q));
        assert(mset6.contains(q));
        assert(mset.contains(q));
        if q == m0 {
            assert(h[0] == x);
        } else if q == m1 {
            assert(h[1] == x);
        } else if q == m2 {
            assert(h[2] == x);
        } else if q == m3 {
            assert(h[3] == x);
        } else {
            assert(h[4] == x);
        }
    }
    assert(0 <= a < 6 && same_cards(h, drop_one(s, a)));
}

/// A duplicate-free hand drawn from an equally long duplicate-free pool is
/// the whole pool.
proof fn lemma_cover_same_len(h: Seq<Card>, s: Seq<Card>)
    requires
        h.no_duplicates(),
        s.no_duplicates(),
        h.len() == s.len(),
        covered_by(h, s),
    ensures
        same_cards(h, s),
{
    broadcast use vstd::seq_lib::seq_to_set_is_finite;

    h.unique_seq_to_set();
    s.unique_seq_to_set();
    assert forall|x: Card| #[trigger] h.to_set().contains(x) implies s.to_set().contains(x) by {
        let k = choose|k: int| 0 <= k < h.len() && h[k] == x;
        assert(s.contains(h[k]));
    }
    lemma_subset_equality(h.to_set(), s.to_set());
    assert forall|c: Card| h.contains(c) <==> s.contains(c) by {
        assert(h.to_set().contains(c) == s.to_set().contains(c));
    }
}

/// Classification is a function of which cards a hand holds, never of their
/// order: two hands of the same cards fall in the same category.
pub proof fn lemma_classify_same_cards(a: Seq<Card>, b: Seq<Card>)
    requires
        a.len() > 0,
        b.len() > 0,
        same_cards(a, b),
    ensures
        classify(a) == classify(b),
{
    assert forall|r: int|
        #![trigger crate::eval::rank_count(a, r)]
        #![trigger crate::eval::rank_count(b, r)]
        crate::eval::rank_count(a, r) == crate::eval::rank_count(b, r) by {
        assert(a.contains(crate::eval::card_of(r, 0)) == b.contains(crate::eval::card_of(r, 0)));
        assert(a.contains(crate::eval::card_of(r, 1)) == b.contains(crate::eval::card_of(r, 1)));
        assert(a.contains(crate::eval::card_of(r, 2)) == b.contains(crate::eval::card_of(r, 2)));
        assert(a.contains(crate::eval::card_of(r, 3)) == b.contains(crate::eval::card_of(r, 3)));
    }
    assert(crate::eval::spec_flush(a) == crate::eval::spec_flush(b)) by {
        if crate::eval::spec_flush(a) {
            lemma_flush_transfers(a, b);
        }
        if crate::eval::spec_flush(b) {
            lemma_flush_transfers(b, a);
        }
    }
    assert(crate::eval::spec_straight(a) == crate::eval::spec_straight(b)) by {
        if crate::eval::spec_straight(a) {
            lemma_straight_transfers(a, b);
        }
        if crate::eval::spec_straight(b) {
            lemma_straight_transfers(b, a);
        }
    }
}

/// A flush stays a flush on any reordering of the same cards.
proof fn lemma_flush_transfers(a: Seq<Card>, b: Seq<Card>)
    requires
        same_cards(a, b),
        crate::eval::spec_flush(a),
    ensures
        crate::eval::spec_flush(b),
{
    assert forall|i: int, j: int|
        #![trigger b[i], b[j]]
        0 <= i < b.len() && 0 <= j < b.len() implies b[i].suit == b[j].suit by {
        assert(b.contains(b[i]) && b.contains(b[j]));
        assert(a.contains(b[i]) && a.contains(b[j]));
        let ii = choose|k: int| 0 <= k < a.len() && a[k] == b[i];
        let jj = choose|k: int| 0 <= k < a.len() && a[k] == b[j];
        assert(a[ii].suit == a[jj].suit);
    }
}

/// A straight stays a straight on any reordering of the same cards.
proof fn lemma_straight_transfers(a: Seq<Card>, b: Seq<Card>)
    requires
        same_cards(a, b),
        crate::eval::spec_straight(a),
    ensures
        crate::eval::spec_straight(b),
{
    assert forall|r: int|
        #![trigger crate::eval::rank_count(a, r)]
        #![trigger crate::eval::rank_count(b, r)]
        crate::eval::rank_count(a, r) == crate::eval::rank_count(b, r) by {
        assert(a.contains(crate::eval::card_of(r, 0)) == b.contains(crate::eval::card_of(r, 0)));
        assert(a.contains(crate::eval::card_of(r, 1)) == b.contains(crate::eval::card_of(r, 1)));
        assert(a.contains(crate::eval::card_of(r, 2)) == b.contains(crate::eval::card_of(r, 2)));
        assert(a.contains(crate::eval::card_of(r, 3)) == b.contains(crate::eval::card_of(r, 3)));
    }
    if exists|lo: int| 2 <= lo <= 10 && crate::eval::spec_straight_at(a, lo) {
        let lo = choose|lo: int| 2 <= lo <= 10 && crate::eval::spec_straight_at(a, lo);
        assert(crate::eval::spec_straight_at(b, lo)) by {
            assert forall|r: int| lo <= r < lo + 5 implies #[trigger] crate::eval::rank_count(
                b,
                r,
            ) == 1 by {
                assert(crate::eval::rank_count(a, r) == 1);
            }
        }
    } else {
        assert(crate::eval::spec_wheel(b)) by {
            assert forall|r: int| 2 <= r <= 5 implies #[trigger] crate::eval::rank_count(b, r)
                == 1 by {
                assert(crate::eval::rank_count(a, r) == 1);
            }
            assert(crate::eval::rank_count(a, 14) == 1);
        }
    }
}

/// Is the card among the given ones?
fn contains_card(v: &Vec<Card>, c: Card) -> (b: bool)
    ensures
        b == v@.contains(c),
{
    let mut i: usize = 0;
    while i < v.len()
        invariant
            i <= v@.len(),
            forall|k: int| 0 <= k < i ==> v@[k] != c,
        decreases v@.len() - i,
    {
        if v[i] == c {
            return true;
        }
        i = i + 1;
    }
    false
}

/// A fresh vector with the same cards in the same order.
#[verifier::loop_isolation(false)]
fn copy_cards(v: &Vec<Card>) -> (r: Vec<Card>)
    ensures
        r@ == v@,
{
    let mut r: Vec<Card> = Vec::new();
    let mut i: usize = 0;
    while i < v.len()
        invariant
            i <= v@.len(),
            r@.len() == i,
            forall|k: int| 0 <= k < i ==> r@[k] == v@[k],
        decreases v@.len() - i,
    {
        r.push(v[i]);
        i = i + 1;
    }
    proof {
        assert(r@ =~= v@);
    }
    r
}

/// The community cards followed by one extra card.
fn with_one(comm: &Vec<Card>, c: Card) -> (r: Vec<Card>)
    ensures
        r@ == comm@.push(c),
{
    let mut r = copy_cards(comm);
    r.push(c);
    proof {
        assert(r@ =~= comm@.push(c));
    }
    r
}

/// The community cards followed by two extra cards.
fn with_two(comm: &Vec<Card>, c: Card, d: Card) -> (r: Vec<Card>)
    ensures
        r@ == comm@.push(c).push(d),
{
    let mut r = copy_cards(comm);
    r.push(c);
    r.push(d);
    proof {
        assert(r@ =~= comm@.push(c).push(d));
    }
    r
}

/// The given cards with position `a` left out.
#[verifier::loop_isolation(false)]
fn remove_one(v: &Vec<Card>, a: usize) -> (r: Vec<Card>)
    requires
        a < v@.len(),
    ensures
        r@ == drop_one(v@, a as int),
{
    let mut r: Vec<Card> = Vec::new();
    let mut p: usize = 0;
    while p < v.len()
        invariant
            p <= v@.len(),
            r@.len() == (if p <= a {
                p as int
            } else {
                p - 1
            }),
            forall|k: int| 0 <= k < r@.len() ==> r@[k] == drop_one(v@, a as int)[k],
        decreases v@.len() - p,
    {
        if p != a {
            r.push(v[p]);
        }
        p = p + 1;
    }
    proof {
        assert(r@ =~= drop_one(v@, a as int));
    }
    r
}

/// The given cards with positions `a` and `b` left out.
#[verifier::loop_isolation(false)]
fn remove_two(v: &Vec<Card>, a: usize, b: usize) -> (r: Vec<Card>)
    requires
        a < b < v@.len(),
    ensures
        r@ == drop_two(v@, a as int, b as int),
{
    let mut r: Vec<Card> = Vec::new();
    let mut p: usize = 0;
    while p < v.len()
        invariant
            p <= v@.len(),
            r@.len() == (if p <= a {
                p as int
            } else if p <= b {
                p - 1
            } else {
                p - 2
            }),
            forall|k: int| 0 <= k < r@.len() ==> r@[k] == drop_two(v@, a as int, b as int)[k],
        decreases v@.len() - p,
    {
        if p != a && p != b {
            r.push(v[p]);
        }
        p = p + 1;
    }
    proof {
        assert(r@ =~= drop_two(v@, a as int, b as int));
    }
    r
}

/// The 52-card deck minus the given cards: exactly every valid card that is
/// not among `comm`, each once.
#[verifier::loop_isolation(false)]
fn build_deck(comm: &Vec<Card>) -> (deck: Vec<Card>)
    requires
        all_valid(comm@),
        comm@.no_duplicates(),
    ensures
        all_valid(deck@),
        deck@.no_duplicates(),
        forall|c: Card| #[trigger] deck@.contains(c) ==> !comm@.contains(c),
        forall|c: Card| valid_card(c) && !comm@.contains(c) ==> #[trigger] deck@.contains(c),
{
    let mut deck: Vec<Card> = Vec::new();
    let mut suit: u8 = 0;
    while suit < 4
        invariant
            suit <= 4,
            all_valid(deck@),
            deck@.no_duplicates(),
            forall|c: Card| #[trigger] deck@.contains(c) ==> !comm@.contains(c),
            forall|k: int| 0 <= k < deck@.len() ==> (#[trigger] deck@[k]).suit < suit,
            forall|c: Card|
                valid_card(c) && !comm@.contains(c) && c.suit < suit ==> #[trigger] deck@.contains(
                    c,
                ),
        decreases 4 - suit,
    {
        let mut rank: u8 = 2;
        while rank < 15
            invariant
                suit < 4,
                2 <= rank <= 15,
                all_valid(deck@),
                deck@.no_duplicates(),
                forall|c: Card| #[trigger] deck@.contains(c) ==> !comm@.contains(c),
                forall|k: int|
                    0 <= k < deck@.len() ==> (#[trigger] deck@[k]).suit < suit || (deck@[k].suit
                        == suit && deck@[k].rank < rank),
                forall|c: Card|
                    valid_card(c) && !comm@.contains(c) && (c.suit < suit || (c.suit == suit
                        && c.rank < rank)) ==> #[trigger] deck@.contains(c),
            decreases 15 - rank,
        {
            let c = Card { rank, suit };
            if !contains_card(comm, c) {
                let ghost old_deck = deck@;
                proof {
                    if old_deck.contains(c) {
                        let k = choose|k: int| 0 <= k < old_deck.len() && old_deck[k] == c;
                        assert(old_deck[k].suit < suit || old_deck[k].rank < rank);
                    }
                    lemma_push_nodup(old_deck, c);
                }
                deck.push(c);
                proof {
                    assert forall|x: Card| #[trigger] deck@.contains(x) implies old_deck.contains(
                        x,
                    ) || x == c by {
                        lemma_push_contains(old_deck, c, x);
                    }
                    assert forall|x: Card|
                        old_deck.contains(x) || x == c implies #[trigger] deck@.contains(x) by {
                        lemma_push_contains(old_deck, c, x);
                    }
                }
            }
            rank = rank + 1;
        }
        suit = suit + 1;
    }
    deck
}

/// Raise the running best over every five-card selection out of a six-card
/// pool; afterwards no such selection beats the best.
#[verifier::loop_isolation(false)]
fn scan_six(six: &Vec<Card>, best_rank: &mut HandRank, best_cards: &mut Vec<Card>)
    requires
        six@.len() == 6,
        all_valid(six@),
        six@.no_duplicates(),
        wf_hand(old(best_cards)@),
        classify(old(best_cards)@) == *old(best_rank),
    ensures
        wf_hand(final(best_cards)@),
        classify(final(best_cards)@) == *final(best_rank),
        rank_le(*old(best_rank), *final(best_rank)),
        final(best_cards)@ == old(best_cards)@ || covered_by(final(best_cards)@, six@),
        all_covered_le(six@, *final(best_rank)),
{
    let mut a: usize = 0;
    while a < 6
        invariant
            a <= 6,
            wf_hand(best_cards@),
            classify(best_cards@) == *best_rank,
            rank_le(*old(best_rank), *best_rank),
            best_cards@ == old(best_cards)@ || covered_by(best_cards@, six@),
            forall|x: int|
                0 <= x < a ==> rank_le(#[trigger] classify(drop_one(six@, x)), *best_rank),
        decreases 6 - a,
    {
        let hand5 = remove_one(six, a);
        proof {
            lemma_drop_one_props(six@, a as int);
        }
        let r = classify_cards(&hand5);
        if r.index() > best_rank.index() {
            *best_rank = r;
            *best_cards = hand5;
        }
        a = a + 1;
    }
    proof {
        assert forall|h: Seq<Card>| wf_hand(h) && covered_by(h, six@) implies rank_le(
            #[trigger] classify(h),
            *best_rank,
        ) by {
            lemma_five_of_six(h, six@);
            let a = choose|a: int| 0 <= a < 6 && same_cards(h, #[trigger] drop_one(six@, a));
            lemma_drop_one_props(six@, a);
            lemma_classify_same_cards(h, drop_one(six@, a));
        }
    }
}

/// Raise the running best over every five-card selection out of a
/// seven-card pool; afterwards no such selection beats the best.
#[verifier::loop_isolation(false)]
fn scan_seven(seven: &Vec<Card>, best_rank: &mut HandRank, best_cards: &mut Vec<Card>)
    requires
        seven@.len() == 7,
        all_valid(seven@),
        seven@.no_duplicates(),
        wf_hand(old(best_cards)@),
        classify(old(best_cards)@) == *old(best_rank),
    ensures
        wf_hand(final(best_cards)@),
        classify(final(best_cards)@) == *final(best_rank),
        rank_le(*old(best_rank), *final(best_rank)),
        final(best_cards)@ == old(best_cards)@ || covered_by(final(best_cards)@, seven@),
        all_covered_le(seven@, *final(best_rank)),
{
    let mut a: usize = 0;
    while a < 7
        invariant
            a <= 7,
            wf_hand(best_cards@),
            classify(best_cards@) == *best_rank,
            rank_le(*old(best_rank), *best_rank),
            best_cards@ == old(best_cards)@ || covered_by(best_cards@, seven@),
            forall|x: int, y: int|
                0 <= x < y < 7 && x < a ==> rank_le(
                    #[trigger] classify(drop_two(seven@, x, y)),
                    *best_rank,
                ),
        decreases 7 - a,
    {
        let mut b: usize = a + 1;
        while b < 7
            invariant
                a < b <= 7,
                a < 7,
                wf_hand(best_cards@),
                classify(best_cards@) == *best_rank,
                rank_le(*old(best_rank), *best_rank),
                best_cards@ == old(best_cards)@ || covered_by(best_cards@, seven@),
                forall|x: int, y: int|
                    0 <= x < y < 7 && x < a ==> rank_le(
                        #[trigger] classify(drop_two(seven@, x, y)),
                        *best_rank,
                    ),
                forall|y: int|
                    a < y < b ==> rank_le(
                        #[trigger] classify(drop_two(seven@, a as int, y)),
                        *best_rank,
                    ),
            decreases 7 - b,
        {
            let hand5 = remove_two(seven, a, b);
            proof {
                lemma_drop_two_props(seven@, a as int, b as int);
            }
            let r = classify_cards(&hand5);
            if r.index() > best_rank.index() {
                *best_rank = r;
                *best_cards = hand5;
            }
            b = b + 1;
        }
        a = a + 1;
    }
    proof {
        assert forall|h: Seq<Card>| wf_hand(h) && covered_by(h, seven@) implies rank_le(
            #[trigger] classify(h),
            *best_rank,
        ) by {
            lemma_five_of_seven(h, seven@);
            let p = choose|p: (int, int)|
                0 <= p.0 < p.1 < 7 && same_cards(h, drop_two(seven@, p.0, p.1));
            lemma_drop_two_props(seven@, p.0, p.1);
            lemma_classify_same_cards(h, drop_two(seven@, p.0, p.1));
        }
    }
}

/// Once every pool that two deck cards can build has been scanned, the best
/// dominates every reachable hand.
proof fn lemma_best_covers_all(comm: Seq<Card>, deck: Seq<Card>, best: HandRank)
    requires
        comm.len() == 5,
        all_valid(comm),
        comm.no_duplicates(),
        all_valid(deck),
        deck.no_duplicates(),
        forall|c: Card| valid_card(c) && !comm.contains(c) ==> #[trigger] deck.contains(c),
        all_covered_le(comm, best),
        forall|i: int| 0 <= i < deck.len() ==> all_covered_le(comm.push(#[trigger] deck[i]), best),
        forall|i: int, j: int|
            0 <= i < j < deck.len() ==> all_covered_le(
                comm.push(#[trigger] deck[i]).push(#[trigger] deck[j]),
                best,
            ),
    ensures
        forall|h: Seq<Card>| candidate(comm, h) ==> rank_le(#[trigger] classify(h), best),
{
    assert forall|h: Seq<Card>| candidate(comm, h) implies rank_le(
        #[trigger] classify(h),
        best,
    ) by {
        let (c1, c2) = choose|c1: Card, c2: Card| within(comm, h, c1, c2);
        if forall|k: int| 0 <= k < h.len() ==> comm.contains(#[trigger] h[k]) {
            assert(covered_by(h, comm));
        } else {
            let k1 = choose|k: int| 0 <= k < h.len() && !comm.contains(#[trigger] h[k]);
            let o1 = h[k1];
            assert(valid_card(o1));
            assert(deck.contains(o1));
            let i1 = choose|i: int| 0 <= i < deck.len() && deck[i] == o1;
            if forall|k: int| 0 <= k < h.len() ==> comm.contains(#[trigger] h[k]) || h[k] == o1 {
                assert forall|k: int| 0 <= k < h.len() implies comm.push(deck[i1]).contains(
                    #[trigger] h[k],
                ) by {
                    lemma_push_contains(comm, deck[i1], h[k]);
                }
                assert(covered_by(h, comm.push(deck[i1])));
                assert(all_covered_le(comm.push(deck[i1]), best));
            } else {
                let k2 = choose|k: int|
                    0 <= k < h.len() && !comm.contains(#[trigger] h[k]) && h[k] != o1;
                let o2 = h[k2];
                assert(deck.contains(o2));
                let i2 = choose|i: int| 0 <= i < deck.len() && deck[i] == o2;
                assert(o1 == c1 || o1 == c2);
                assert(o2 == c1 || o2 == c2);
                assert(i1 != i2);
                let ia = if i1 < i2 {
                    i1
                } else {
                    i2
                };
                let ib = if i1 < i2 {
                    i2
                } else {
                    i1
                };
                let pool = comm.push(deck[ia]).push(deck[ib]);
                assert forall|k: int| 0 <= k < h.len() implies pool.contains(
                    #[trigger] h[k],
                ) by {
                    assert(comm.contains(h[k]) || h[k] == o1 || h[k] == o2);
                    lemma_push_contains(comm, deck[ia], h[k]);
                    lemma_push_contains(comm.push(deck[ia]), deck[ib], h[k]);
                }
                assert(covered_by(h, pool));
                assert(all_covered_le(pool, best));
            }
        }
    }
}

/// The nuts on the given community: the strongest category any two hole
/// cards from outside the community can reach, with one winning five-card
/// selection. The returned selection is a reachable hand of that category,
/// and no reachable hand classifies above the returned category.
#[verifier::loop_isolation(false)]
pub fn find_nuts(community: &Vec<Card>) -> (res: (HandRank, Hand))
    requires
        community@.len() == 5,
        all_valid(community@),
        community@.no_duplicates(),
    ensures
        candidate(community@, res.1.cards@),
        classify(res.1.cards@) == res.0,
        forall|h: Seq<Card>| candidate(community@, h) ==> rank_le(#[trigger] classify(h), res.0),
{
    let deck = build_deck(community);
    let mut best_cards = copy_cards(community);
    let mut best_rank = classify_cards(&best_cards);
    proof {
        assert(within(community@, best_cards@, community@[0], community@[0]));
        assert forall|h: Seq<Card>| wf_hand(h) && covered_by(h, community@) implies rank_le(
            #[trigger] classify(h),
            best_rank,
        ) by {
            lemma_cover_same_len(h, community@);
            lemma_classify_same_cards(h, community@);
        }
    }
    let mut i: usize = 0;
    while i < deck.len()
        invariant
            i <= deck@.len(),
            wf_hand(best_cards@),
            classify(best_cards@) == best_rank,
            candidate(community@, best_cards@),
            all_covered_le(community@, best_rank),
            forall|x: int|
                0 <= x < i ==> all_covered_le(community@.push(#[trigger] deck@[x]), best_rank),
        decreases deck@.len() - i,
    {
        let six = with_one(community, deck[i]);
        proof {
            assert(deck@.contains(deck@[i as int]));
            lemma_push_nodup(community@, deck@[i as int]);
            assert forall|k: int| 0 <= k < six@.len() implies valid_card(#[trigger] six@[k]) by {}
        }
        let ghost prev_rank = best_rank;
        scan_six(&six, &mut best_rank, &mut best_cards);
        proof {
            if best_cards@ != community@ && covered_by(best_cards@, six@) {
                assert forall|k: int| 0 <= k < best_cards@.len() implies community@.contains(
                    #[trigger] best_cards@[k],
                ) || best_cards@[k] == deck@[i as int] || best_cards@[k] == deck@[i as int] by {
                    lemma_push_contains(community@, deck@[i as int], best_cards@[k]);
                }
                assert(within(community@, best_cards@, deck@[i as int], deck@[i as int]));
            }
        }
        i = i + 1;
    }
    let mut i: usize = 0;
    while i < deck.len()
        invariant
            i <= deck@.len(),
            wf_hand(best_cards@),
            classify(best_cards@) == best_rank,
            candidate(community@, best_cards@),
            all_covered_le(community@, best_rank),
            forall|x: int|
                0 <= x < deck@.len() ==> all_covered_le(
                    community@.push(#[trigger] deck@[x]),
                    best_rank,
                ),
            forall|x: int, y: int|
                0 <= x < y < deck@.len() && x < i ==> all_covered_le(
                    community@.push(#[trigger] deck@[x]).push(#[trigger] deck@[y]),
                    best_rank,
                ),
        decreases deck@.len() - i,
    {
        let mut j: usize = i + 1;
        while j < deck.len()
            invariant
                i + 1 <= j <= deck@.len(),
                i < deck@.len(),
                wf_hand(best_cards@),
                classify(best_cards@) == best_rank,
                candidate(community@, best_cards@),
                all_covered_le(community@, best_rank),
                forall|x: int|
                    0 <= x < deck@.len() ==> all_covered_le(
                        community@.push(#[trigger] deck@[x]),
                        best_rank,
                    ),
                forall|x: int, y: int|
                    0 <= x < y < deck@.len() && x < i ==> all_covered_le(
                        community@.push(#[trigger] deck@[x]).push(#[trigger] deck@[y]),
                        best_rank,
                    ),
                forall|y: int|
                    i < y < j ==> all_covered_le(
                        community@.push(deck@[i as int]).push(#[trigger] deck@[y]),
                        best_rank,
                    ),
            decreases deck@.len() - j,
        {
            let seven = with_two(community, deck[i], deck[j]);
            proof {
                assert(deck@.contains(deck@[i as int]));
                assert(deck@.contains(deck@[j as int]));
                lemma_push_nodup(community@, deck@[i as int]);
                assert(!community@.push(deck@[i as int]).contains(deck@[j as int])) by {
                    lemma_push_contains(community@, deck@[i as int], deck@[j as int]);
                }
                lemma_push_nodup(community@.push(deck@[i as int]), deck@[j as int]);
                assert forall|k: int|
                    0 <= k < seven@.len() implies valid_card(#[trigger] seven@[k]) by {}
            }
            scan_seven(&seven, &mut best_rank, &mut best_cards);
            proof {
                if best_cards@ != community@ && covered_by(best_cards@, seven@) {
                    assert forall|k: int| 0 <= k < best_cards@.len() implies community@.contains(
                        #[trigger] best_cards@[k],
                    ) || best_cards@[k] == deck@[i as int] || best_cards@[k] == deck@[
                        j as int
                    ] by {
                        lemma_push_contains(community@, deck@[i as int], best_cards@[k]);
                        lemma_push_contains(
                            community@.push(deck@[i as int]),
                            deck@[j as int],
                            best_cards@[k],
                        );
                    }
                    assert(within(community@, best_cards@, deck@[i as int], deck@[j as int]));
                }
            }
            j = j + 1;
        }
        i = i + 1;
    }
    proof {
        lemma_best_covers_all(community@, deck@, best_rank);
    }
    (best_rank, Hand { cards: best_cards })
}

/// Law: the category that the nuts search settles on is a function of the
/// community as a set of cards. Any two results that are each reachable and
/// maximal for communities holding the same cards agree.
pub proof fn lemma_nuts_deterministic(
    comm1: Seq<Card>,
    comm2: Seq<Card>,
    r1: HandRank,
    r2: HandRank,
    w1: Seq<Card>,
    w2: Seq<Card>,
)
    requires
        same_cards(comm1, comm2),
        candidate(comm1, w1),
        classify(w1) == r1,
        forall|h: Seq<Card>| candidate(comm1, h) ==> rank_le(#[trigger] classify(h), r1),
        candidate(comm2, w2),
        classify(w2) == r2,
        forall|h: Seq<Card>| candidate(comm2, h) ==> rank_le(#[trigger] classify(h), r2),
    ensures
        r1 == r2,
{
    let (a1, b1) = choose|a: Card, b: Card| within(comm1, w1, a, b);
    assert forall|k: int|
        0 <= k < w1.len() implies comm2.contains(#[trigger] w1[k]) || w1[k] == a1 || w1[k]
        == b1 by {}
    assert(within(comm2, w1, a1, b1));
    assert(candidate(comm2, w1));
    let (a2, b2) = choose|a: Card, b: Card| within(comm2, w2, a, b);
    assert forall|k: int|
        0 <= k < w2.len() implies comm1.contains(#[trigger] w2[k]) || w2[k] == a2 || w2[k]
        == b2 by {}
    assert(within(comm1, w2, a2, b2));
    assert(candidate(comm1, w2));
    assert(rank_le(r1, r2) && rank_le(r2, r1));
    assert(rank_value(r1) == rank_value(r2));
    assert(r1 == r2);
}

} // verus!
