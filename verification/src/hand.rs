use vstd::prelude::*;
use vstd::relations::*;
use vstd::seq_lib::*;
use vstd::multiset::*;
use crate::card::{Card, rank_code};

verus! {

/// Tags a straight (or straight flush) as the ace-low run A-2-3-4-5, where the
/// ace acts as rank one, or as any other run of five consecutive ranks. The
/// ace-low straight is weaker than every other straight.
#[derive(Clone, Copy, PartialEq, Eq, Structural, Debug)]
pub enum StraightType {
    AceLow,
    Other,
}

/// The ten hand categories, from weakest to strongest.
#[derive(Clone, Copy, PartialEq, Eq, Structural, Debug)]
pub enum HandType {
    HighCard,
    Pair,
    TwoPair,
    ThreeOfAKind,
    Straight(StraightType),
    Flush,
    FullHouse,
    FourOfAKind,
    StraightFlush(StraightType),
    RoyalFlush,
}

/// The one way hand construction can fail: the input did not hold exactly
/// five cards.
#[derive(Clone, Copy, PartialEq, Eq, Structural, Debug)]
pub enum HandError {
    InvalidHandSize,
}

/// The ranks of the given cards as integer codes, in the cards' order.
pub open spec fn rank_seq(cards: Seq<Card>) -> Seq<int> {
    cards.map_values(|c: Card| rank_code(c.0))
}

/// The ordering on integer rank codes by which a hand is sorted.
pub open spec fn rank_leq() -> spec_fn(int, int) -> bool {
    |x: int, y: int| x <= y
}

/// The ranks of the given cards as integer codes, sorted ascending.
pub open spec fn sorted_rank_seq(cards: Seq<Card>) -> Seq<int> {
    rank_seq(cards).sort_by(rank_leq())
}

/// All the given cards share one suit.
pub open spec fn all_same_suit(cards: Seq<Card>) -> bool {
    forall|i: int, j: int| #![trigger cards[i], cards[j]]
        0 <= i < cards.len() && 0 <= j < cards.len() ==> cards[i].1 == cards[j].1
}

/// The sorted rank codes are exactly Ten, Jack, Queen, King, Ace.
pub open spec fn royal_ranks(rs: Seq<int>) -> bool {
    rs.len() == 5 && rs[0] == 8 && rs[1] == 9 && rs[2] == 10 && rs[3] == 11 && rs[4] == 12
}

/// Four of the five sorted cards share a rank: positions 0-3 or 1-4.
pub open spec fn four_kind_ranks(rs: Seq<int>) -> bool {
    rs.len() == 5 && ((rs[0] == rs[1] && rs[1] == rs[2] && rs[2] == rs[3]) || (rs[1] == rs[2]
        && rs[2] == rs[3] && rs[3] == rs[4]))
}

/// A three-of-a-kind and a pair split the five sorted cards: positions 0-2
/// with 3-4, or 0-1 with 2-4.
pub open spec fn full_house_ranks(rs: Seq<int>) -> bool {
    rs.len() == 5 && ((rs[0] == rs[1] && rs[1] == rs[2] && rs[3] == rs[4]) || (rs[0] == rs[1]
        && rs[2] == rs[3] && rs[3] == rs[4]))
}

/// Whether the sorted rank codes form a straight, and of which kind: the
/// ace-low pattern Two, Three, Four, Five, Ace, or five consecutive codes.
/// No other wraparound qualifies.
pub open spec fn straight_kind(rs: Seq<int>) -> Option<StraightType> {
    if rs.len() != 5 {
        None
    } else if rs[0] == 0 && rs[1] == 1 && rs[2] == 2 && rs[3] == 3 && rs[4] == 12 {
        Some(StraightType::AceLow)
    } else if rs[1] == rs[0] + 1 && rs[2] == rs[1] + 1 && rs[3] == rs[2] + 1 && rs[4] == rs[3]
        + 1 {
        Some(StraightType::Other)
    } else {
        None
    }
}

/// Three cards in one of the contiguous sorted windows 0-2, 1-3 or 2-4 share
/// a rank.
pub open spec fn three_kind_ranks(rs: Seq<int>) -> bool {
    rs.len() == 5 && ((rs[0] == rs[1] && rs[1] == rs[2]) || (rs[1] == rs[2] && rs[2] == rs[3])
        || (rs[2] == rs[3] && rs[3] == rs[4]))
}

/// Two disjoint same-rank pairs among the five sorted cards, in one of the
/// positional patterns 0-1 with 2-3, 0-1 with 3-4, or 1-2 with 3-4.
pub open spec fn two_pair_ranks(rs: Seq<int>) -> bool {
    rs.len() == 5 && ((rs[0] == rs[1] && rs[2] == rs[3]) || (rs[0] == rs[1] && rs[3] == rs[4])
        || (rs[1] == rs[2] && rs[3] == rs[4]))
}

/// Some two adjacent sorted cards share a rank.
pub open spec fn pair_ranks(rs: Seq<int>) -> bool {
    rs.len() == 5 && (rs[0] == rs[1] || rs[1] == rs[2] || rs[2] == rs[3] || rs[3] == rs[4])
}

/// The category of a hand whose sorted rank codes are `rs` and whose suits
/// all agree exactly when `flush` holds. The patterns are tested from
/// strongest to weakest and the first match wins.
pub open spec fn classify(rs: Seq<int>, flush: bool) -> HandType {
    if flush && royal_ranks(rs) {
        HandType::RoyalFlush
    } else if flush && straight_kind(rs) is Some {
        HandType::StraightFlush(StraightType::Other)
    } else if four_kind_ranks(rs) {
        HandType::FourOfAKind
    } else if full_house_ranks(rs) {
        HandType::FullHouse
    } else if flush {
        HandType::Flush
    } else if straight_kind(rs) is Some {
        HandType::Straight(straight_kind(rs).unwrap())
    } else if three_kind_ranks(rs) {
        HandType::ThreeOfAKind
    } else if two_pair_ranks(rs) {
        HandType::TwoPair
    } else if pair_ranks(rs) {
        HandType::Pair
    } else {
        HandType::HighCard
    }
}

/// The category that classification assigns to the given cards, in any input
/// order: the cards are sorted by rank and the positional patterns are read
/// off the sorted codes.
pub open spec fn hand_type_of(cards: Seq<Card>) -> HandType {
    classify(sorted_rank_seq(cards), all_same_suit(cards))
}

/// The cards stand in ascending rank order.
pub open spec fn sorted_by_rank(s: Seq<Card>) -> bool {
    forall|i: int, j: int| #![trigger s[i], s[j]]
        0 <= i <= j < s.len() ==> rank_code(s[i].0) <= rank_code(s[j].0)
}

/// The ordering on rank codes is total.
proof fn lemma_rank_leq_total()
    ensures
        total_ordering(rank_leq()),
{
    let leq = rank_leq();
    assert forall|x: int| #[trigger] leq(x, x) by {}
    assert forall|x: int, y: int| #[trigger] leq(x, y) && #[trigger] leq(y, x) implies x == y by {}
    assert forall|x: int, y: int, z: int| #[trigger] leq(x, y) && #[trigger] leq(y, z) implies leq(
        x,
        z,
    ) by {}
    assert forall|x: int, y: int| #[trigger] leq(x, y) || #[trigger] leq(y, x) by {}
}

/// Inserting an element anywhere in a sequence inserts it into the
/// sequence's multiset.
proof fn lemma_insert_to_multiset<A>(s: Seq<A>, i: int, x: A)
    requires
        0 <= i <= s.len(),
    ensures
        s.insert(i, x).to_multiset() == s.to_multiset().insert(x),
{
    broadcast use group_to_multiset_ensures;
    broadcast use group_multiset_axioms;

    let t = s.insert(i, x);
    s.insert_ensures(i, x);
    assert(t.remove(i) =~= s);
    assert(t.remove(i).to_multiset() =~= t.to_multiset().remove(x));
    assert(t.contains(x));
    assert(t.to_multiset().count(x) > 0);
    assert forall|y: A|
        #[trigger] t.to_multiset().count(y) == s.to_multiset().insert(x).count(y) by {
        if y == x {
            assert(s.to_multiset().count(x) == t.to_multiset().remove(x).count(x));
        } else {
            assert(s.to_multiset().count(y) == t.to_multiset().remove(x).count(y));
        }
    }
    assert(t.to_multiset() =~= s.to_multiset().insert(x));
}

/// Removing the card at an index removes its code from the rank sequence.
proof fn lemma_rank_seq_remove(s: Seq<Card>, i: int)
    requires
        0 <= i < s.len(),
    ensures
        rank_seq(s.remove(i)) =~= rank_seq(s).remove(i),
{
    assert forall|k: int| 0 <= k < s.len() - 1 implies rank_seq(s.remove(i))[k] == rank_seq(
        s,
    ).remove(i)[k] by {
        if k < i {
            assert(s.remove(i)[k] == s[k]);
        } else {
            assert(s.remove(i)[k] == s[k + 1]);
        }
    }
}

/// Two sequences holding the same cards hold the same rank codes.
proof fn lemma_rank_multiset_congruence(a: Seq<Card>, b: Seq<Card>)
    requires
        a.to_multiset() == b.to_multiset(),
    ensures
        rank_seq(a).to_multiset() == rank_seq(b).to_multiset(),
    decreases a.len(),
{
    broadcast use group_to_multiset_ensures;
    broadcast use group_multiset_axioms;

    if a.len() == 0 {
        assert(a.to_multiset().len() == a.len());
        assert(b.to_multiset().len() == b.len());
        assert(b.len() == 0);
        assert(rank_seq(a) =~= rank_seq(b));
    } else {
        let n = a.len() - 1;
        let x = a[n];
        assert(a.contains(x));
        assert(b.to_multiset().count(x) > 0);
        assert(b.contains(x));
        let j = choose|j: int| 0 <= j < b.len() && b[j] == x;
        let a1 = a.remove(n);
        let b1 = b.remove(j);
        assert(a1.to_multiset() == a.to_multiset().remove(x));
        assert(b1.to_multiset() == b.to_multiset().remove(x));
        lemma_rank_multiset_congruence(a1, b1);
        lemma_rank_seq_remove(a, n);
        lemma_rank_seq_remove(b, j);
        let c = rank_code(x.0);
        assert(rank_seq(a)[n] == c);
        assert(rank_seq(b)[j] == c);
        assert(rank_seq(a).remove(n).to_multiset() == rank_seq(a).to_multiset().remove(c));
        assert(rank_seq(b).remove(j).to_multiset() == rank_seq(b).to_multiset().remove(c));
        assert(rank_seq(a1).to_multiset() == rank_seq(a).to_multiset().remove(c));
        assert(rank_seq(b1).to_multiset() == rank_seq(b).to_multiset().remove(c));
        assert(rank_seq(a).contains(c));
        assert(rank_seq(b).contains(c));
        assert(rank_seq(a).to_multiset().count(c) > 0);
        assert(rank_seq(b).to_multiset().count(c) > 0);
        assert forall|y: int|
            #[trigger] rank_seq(a).to_multiset().count(y) == rank_seq(b).to_multiset().count(
                y,
            ) by {
            if y == c {
                assert(rank_seq(a).to_multiset().remove(c).count(c) == rank_seq(
                    b,
                ).to_multiset().remove(c).count(c));
            } else {
                assert(rank_seq(a).to_multiset().remove(c).count(y) == rank_seq(
                    b,
                ).to_multiset().remove(c).count(y));
            }
        }
        assert(rank_seq(a).to_multiset() =~= rank_seq(b).to_multiset());
    }
}

/// A sequence holding the same cards as one where all suits agree also has
/// all suits agreeing.
proof fn lemma_all_same_suit_one_way(a: Seq<Card>, b: Seq<Card>)
    requires
        a.to_multiset() == b.to_multiset(),
        all_same_suit(a),
    ensures
        all_same_suit(b),
{
    broadcast use group_to_multiset_ensures;

    assert forall|i: int, j: int| #![trigger b[i], b[j]]
        0 <= i < b.len() && 0 <= j < b.len() implies b[i].1 == b[j].1 by {
        assert(b.contains(b[i]));
        assert(b.to_multiset().count(b[i]) > 0);
        assert(a.contains(b[i]));
        assert(b.contains(b[j]));
        assert(b.to_multiset().count(b[j]) > 0);
        assert(a.contains(b[j]));
        let ki = choose|k: int| 0 <= k < a.len() && a[k] == b[i];
        let kj = choose|k: int| 0 <= k < a.len() && a[k] == b[j];
        assert(a[ki].1 == a[kj].1);
    }
}

/// Whether all suits agree depends only on which cards are held, not on
/// their order.
proof fn lemma_all_same_suit_congruence(a: Seq<Card>, b: Seq<Card>)
    requires
        a.to_multiset() == b.to_multiset(),
    ensures
        all_same_suit(a) == all_same_suit(b),
{
    if all_same_suit(a) {
        lemma_all_same_suit_one_way(a, b);
    }
    if all_same_suit(b) {
        lemma_all_same_suit_one_way(b, a);
    }
}

/// A rank-sorted rearrangement of the cards carries exactly the sorted rank
/// sequence of the original.
proof fn lemma_sorted_perm_rank_seq(cards: Seq<Card>, sorted: Seq<Card>)
    requires
        sorted.to_multiset() == cards.to_multiset(),
        sorted_by_rank(sorted),
    ensures
        rank_seq(sorted) == sorted_rank_seq(cards),
{
    let leq = rank_leq();
    lemma_rank_leq_total();
    lemma_rank_multiset_congruence(sorted, cards);
    rank_seq(cards).lemma_sort_by_ensures(leq);
    assert forall|i: int, j: int| 0 <= i < j < rank_seq(sorted).len() implies #[trigger] leq(
        rank_seq(sorted)[i],
        rank_seq(sorted)[j],
    ) by {
        assert(rank_code(sorted[i].0) <= rank_code(sorted[j].0));
    }
    assert(sorted_by(rank_seq(sorted), leq));
    lemma_sorted_unique(rank_seq(sorted), sorted_rank_seq(cards), leq);
}

/// The strength code of a category: a hand of a higher code beats one of a
/// lower code. The two straight kinds and the two straight-flush kinds get
/// their own codes, with the ace-low kind just below the other, so an
/// ace-low straight loses to every other straight.
pub open spec fn hand_type_code(t: HandType) -> int {
    match t {
        HandType::HighCard => 0,
        HandType::Pair => 1,
        HandType::TwoPair => 2,
        HandType::ThreeOfAKind => 3,
        HandType::Straight(StraightType::AceLow) => 4,
        HandType::Straight(StraightType::Other) => 5,
        HandType::Flush => 6,
        HandType::FullHouse => 7,
        HandType::FourOfAKind => 8,
        HandType::StraightFlush(StraightType::AceLow) => 9,
        HandType::StraightFlush(StraightType::Other) => 10,
        HandType::RoyalFlush => 11,
    }
}

/// The order of two integers.
pub open spec fn int_cmp(a: int, b: int) -> core::cmp::Ordering {
    if a < b {
        core::cmp::Ordering::Less
    } else if a == b {
        core::cmp::Ordering::Equal
    } else {
        core::cmp::Ordering::Greater
    }
}

/// Lexicographic order of two five-element rank sequences: the first
/// differing position decides.
pub open spec fn lex_rank_cmp(x: Seq<int>, y: Seq<int>) -> core::cmp::Ordering
    recommends
        x.len() == 5,
        y.len() == 5,
{
    if x[0] != y[0] {
        int_cmp(x[0], y[0])
    } else if x[1] != y[1] {
        int_cmp(x[1], y[1])
    } else if x[2] != y[2] {
        int_cmp(x[2], y[2])
    } else if x[3] != y[3] {
        int_cmp(x[3], y[3])
    } else if x[4] != y[4] {
        int_cmp(x[4], y[4])
    } else {
        core::cmp::Ordering::Equal
    }
}

/// How two hands compare: categories of different strength order the hands;
/// hands of one category are ordered lexicographically by their sorted rank
/// sequences, so suits never break a tie.
pub open spec fn hand_cmp(a: Seq<Card>, b: Seq<Card>) -> core::cmp::Ordering {
    let ca = hand_type_code(hand_type_of(a));
    let cb = hand_type_code(hand_type_of(b));
    if ca != cb {
        int_cmp(ca, cb)
    } else {
        lex_rank_cmp(sorted_rank_seq(a), sorted_rank_seq(b))
    }
}

/// Exactly five cards, kept in the order they were given. Classification
/// sorts a working copy; the hand itself is never mutated.
#[derive(Debug, PartialEq)]
pub struct Hand {
    cards: Vec<Card>,
}

impl View for Hand {
    type V = Seq<Card>;

    closed spec fn view(&self) -> Seq<Card> {
        self.cards@
    }
}

impl Hand {
    #[verifier::type_invariant]
    spec fn wf(self) -> bool {
        self.cards@.len() == 5
    }

    /// Builds a hand from the given cards. Succeeds exactly when five cards
    /// are given; any other length is rejected with `InvalidHandSize`.
    /// Duplicate cards are not rejected.
    pub fn new(cards: &[Card]) -> (r: Result<Hand, HandError>)
        ensures
            cards@.len() == 5 ==> (r matches Ok(h) && h@ == cards@),
            cards@.len() != 5 ==> r == Err::<Hand, HandError>(HandError::InvalidHandSize),
    {
        if cards.len() == 5 {
            Ok(Hand { cards: vstd::slice::slice_to_vec(cards) })
        } else {
            Err(HandError::InvalidHandSize)
        }
    }

    /// A copy of the hand's cards in ascending rank order, by insertion sort.
    #[verifier::loop_isolation(false)]
    fn sorted_cards(&self) -> (v: Vec<Card>)
        ensures
            v@.len() == self@.len(),
            v@.to_multiset() == self@.to_multiset(),
            sorted_by_rank(v@),
            rank_seq(v@) == sorted_rank_seq(self@),
            all_same_suit(v@) == all_same_suit(self@),
    {
        broadcast use group_to_multiset_ensures;
        broadcast use group_multiset_axioms;

        let n = self.cards.len();
        let mut v: Vec<Card> = Vec::new();
        let mut i: usize = 0;
        while i < n
            invariant
                n == self.cards@.len(),
                i <= n,
                v@.len() == i,
                v@.to_multiset() == self.cards@.subrange(0, i as int).to_multiset(),
                sorted_by_rank(v@),
            decreases n - i,
        {
            let c = self.cards[i];
            let code = c.0.code();
            let mut k: usize = 0;
            while k < v.len() && v[k].0.code() <= code
                invariant
                    k <= v@.len(),
                    forall|m: int| 0 <= m < k ==> rank_code((#[trigger] v@[m]).0) <= rank_code(c.0),
                decreases v@.len() - k,
            {
                k += 1;
            }
            let ghost pre = v@;
            proof {
                assert(k as int == pre.len() || rank_code(pre[k as int].0) > rank_code(c.0));
            }
            v.insert(k, c);
            i += 1;
            proof {
                pre.insert_ensures(k as int, c);
                assert forall|a: int, b: int| #![trigger v@[a], v@[b]]
                    0 <= a <= b < v@.len() implies rank_code(v@[a].0) <= rank_code(v@[b].0) by {
                    let ki = k as int;
                    if a < ki {
                        assert(v@[a] == pre[a]);
                    }
                    if b < ki {
                        assert(v@[b] == pre[b]);
                    }
                    if a > ki {
                        assert(v@[a] == pre[a - 1]);
                    }
                    if b > ki {
                        assert(v@[b] == pre[b - 1]);
                        if ki < pre.len() {
                            assert(rank_code(pre[ki].0) <= rank_code(pre[b - 1].0));
                        }
                    }
                }
                lemma_insert_to_multiset(pre, k as int, c);
                assert(v@.to_multiset() == pre.to_multiset().insert(c));
                assert(self.cards@.subrange(0, i as int) =~= self.cards@.subrange(
                    0,
                    i as int - 1,
                ).push(c));
                assert(self.cards@.subrange(0, i as int - 1).push(c).to_multiset()
                    == self.cards@.subrange(0, i as int - 1).to_multiset().insert(c));
            }
        }
        proof {
            assert(self.cards@.subrange(0, n as int) =~= self.cards@);
            lemma_sorted_perm_rank_seq(self.cards@, v@);
            lemma_all_same_suit_congruence(v@, self.cards@);
        }
        v
    }

    /// Classifies the hand: sorts a copy of the cards by rank and tests the
    /// category patterns from strongest to weakest, returning the first
    /// match. Every hand receives exactly one category; classification never
    /// fails and depends only on which cards are held, not on their order.
    pub fn hand_type(&self) -> (t: HandType)
        ensures
            t == hand_type_of(self@),
    {
        proof {
            use_type_invariant(self);
        }
        let sorted = SortedHand { cards: self.sorted_cards() };
        if let Some(t) = sorted.is_royal_flush() {
            t
        } else if let Some(t) = sorted.is_straight_flush() {
            t
        } else if let Some(t) = sorted.is_four_of_a_kind() {
            t
        } else if let Some(t) = sorted.is_full_house() {
            t
        } else if let Some(t) = sorted.is_flush() {
            t
        } else if let Some(st) = sorted.is_straight() {
            HandType::Straight(st)
        } else if let Some(t) = sorted.is_three_of_a_kind() {
            t
        } else if let Some(t) = sorted.is_two_pair() {
            t
        } else if let Some(t) = sorted.is_pair() {
            t
        } else {
            HandType::HighCard
        }
    }
}

/// A hand's five cards in ascending rank order: the substrate on which the
/// category predicates read their fixed positional patterns.
pub struct SortedHand {
    cards: Vec<Card>,
}

impl View for SortedHand {
    type V = Seq<Card>;

    closed spec fn view(&self) -> Seq<Card> {
        self.cards@
    }
}

impl SortedHand {
    /// The sorted ranks are exactly Ten, Jack, Queen, King, Ace and the five
    /// suits agree.
    pub fn is_royal_flush(&self) -> (r: Option<HandType>)
        requires
            self@.len() == 5,
        ensures
            r == (if royal_ranks(rank_seq(self@)) && all_same_suit(self@) {
                Some(HandType::RoyalFlush)
            } else {
                None::<HandType>
            }),
    {
        if self.cards[0].0.code() == 8 && self.cards[1].0.code() == 9 && self.cards[2].0.code()
            == 10 && self.cards[3].0.code() == 11 && self.cards[4].0.code() == 12
            && self.is_flush().is_some() {
            Some(HandType::RoyalFlush)
        } else {
            None
        }
    }

    /// The five suits agree and the sorted ranks form a straight of either
    /// kind.
    pub fn is_straight_flush(&self) -> (r: Option<HandType>)
        requires
            self@.len() == 5,
        ensures
            r == (if all_same_suit(self@) && straight_kind(rank_seq(self@)) is Some {
                Some(HandType::StraightFlush(StraightType::Other))
            } else {
                None::<HandType>
            }),
    {
        if self.is_flush().is_some() && self.is_straight().is_some() {
            Some(HandType::StraightFlush(StraightType::Other))
        } else {
            None
        }
    }

    /// Four of the five sorted cards share a rank: positions 0-3 or 1-4.
    pub fn is_four_of_a_kind(&self) -> (r: Option<HandType>)
        requires
            self@.len() == 5,
        ensures
            r == (if four_kind_ranks(rank_seq(self@)) {
                Some(HandType::FourOfAKind)
            } else {
                None::<HandType>
            }),
    {
        let c0 = self.cards[0].0.code();
        let c1 = self.cards[1].0.code();
        let c2 = self.cards[2].0.code();
        let c3 = self.cards[3].0.code();
        let c4 = self.cards[4].0.code();
        if (c0 == c1 && c1 == c2 && c2 == c3) || (c1 == c2 && c2 == c3 && c3 == c4) {
            Some(HandType::FourOfAKind)
        } else {
            None
        }
    }

    /// A three-of-a-kind and a pair split the five sorted cards: positions
    /// 0-2 with 3-4, or 0-1 with 2-4.
    pub fn is_full_house(&self) -> (r: Option<HandType>)
        requires
            self@.len() == 5,
        ensures
            r == (if full_house_ranks(rank_seq(self@)) {
                Some(HandType::FullHouse)
            } else {
                None::<HandType>
            }),
    {
        let c0 = self.cards[0].0.code();
        let c1 = self.cards[1].0.code();
        let c2 = self.cards[2].0.code();
        let c3 = self.cards[3].0.code();
        let c4 = self.cards[4].0.code();
        if (c0 == c1 && c1 == c2 && c3 == c4) || (c0 == c1 && c2 == c3 && c3 == c4) {
            Some(HandType::FullHouse)
        } else {
            None
        }
    }

    /// All five suits agree.
    pub fn is_flush(&self) -> (r: Option<HandType>)
        requires
            self@.len() == 5,
        ensures
            r == (if all_same_suit(self@) {
                Some(HandType::Flush)
            } else {
                None::<HandType>
            }),
    {
        let s0 = self.cards[0].1;
        if self.cards[1].1 == s0 && self.cards[2].1 == s0 && self.cards[3].1 == s0
            && self.cards[4].1 == s0 {
            Some(HandType::Flush)
        } else {
            None
        }
    }

    /// The sorted ranks form a straight: the ace-low pattern Two, Three,
    /// Four, Five, Ace, or any run of five consecutive rank codes.
    pub fn is_straight(&self) -> (r: Option<StraightType>)
        requires
            self@.len() == 5,
        ensures
            r == straight_kind(rank_seq(self@)),
    {
        let c0 = self.cards[0].0.code();
        let c1 = self.cards[1].0.code();
        let c2 = self.cards[2].0.code();
        let c3 = self.cards[3].0.code();
        let c4 = self.cards[4].0.code();
        if c0 == 0 && c1 == 1 && c2 == 2 && c3 == 3 && c4 == 12 {
            Some(StraightType::AceLow)
        } else if c1 == c0 + 1 && c2 == c1 + 1 && c3 == c2 + 1 && c4 == c3 + 1 {
            Some(StraightType::Other)
        } else {
            None
        }
    }

    /// Three cards in one of the contiguous sorted windows 0-2, 1-3 or 2-4
    /// share a rank.
    pub fn is_three_of_a_kind(&self) -> (r: Option<HandType>)
        requires
            self@.len() == 5,
        ensures
            r == (if three_kind_ranks(rank_seq(self@)) {
                Some(HandType::ThreeOfAKind)
            } else {
                None::<HandType>
            }),
    {
        let c0 = self.cards[0].0.code();
        let c1 = self.cards[1].0.code();
        let c2 = self.cards[2].0.code();
        let c3 = self.cards[3].0.code();
        let c4 = self.cards[4].0.code();
        if (c0 == c1 && c1 == c2) || (c1 == c2 && c2 == c3) || (c2 == c3 && c3 == c4) {
            Some(HandType::ThreeOfAKind)
        } else {
            None
        }
    }

    /// Two disjoint same-rank pairs among the five sorted cards, in one of
    /// the positional patterns 0-1 with 2-3, 0-1 with 3-4, or 1-2 with 3-4.
    pub fn is_two_pair(&self) -> (r: Option<HandType>)
        requires
            self@.len() == 5,
        ensures
            r == (if two_pair_ranks(rank_seq(self@)) {
                Some(HandType::TwoPair)
            } else {
                None::<HandType>
            }),
    {
        let c0 = self.cards[0].0.code();
        let c1 = self.cards[1].0.code();
        let c2 = self.cards[2].0.code();
        let c3 = self.cards[3].0.code();
        let c4 = self.cards[4].0.code();
        if (c0 == c1 && c2 == c3) || (c0 == c1 && c3 == c4) || (c1 == c2 && c3 == c4) {
            Some(HandType::TwoPair)
        } else {
            None
        }
    }

    /// Some two adjacent sorted cards share a rank.
    pub fn is_pair(&self) -> (r: Option<HandType>)
        requires
            self@.len() == 5,
        ensures
            r == (if pair_ranks(rank_seq(self@)) {
                Some(HandType::Pair)
            } else {
                None::<HandType>
            }),
    {
        let c0 = self.cards[0].0.code();
        let c1 = self.cards[1].0.code();
        let c2 = self.cards[2].0.code();
        let c3 = self.cards[3].0.code();
        let c4 = self.cards[4].0.code();
        if c0 == c1 || c1 == c2 || c2 == c3 || c3 == c4 {
            Some(HandType::Pair)
        } else {
            None
        }
    }
}

/// The strength code of a category as a machine integer.
fn strength(t: &HandType) -> (c: u8)
    ensures
        c as int == hand_type_code(*t),
{
    match t {
        HandType::HighCard => 0,
        HandType::Pair => 1,
        HandType::TwoPair => 2,
        HandType::ThreeOfAKind => 3,
        HandType::Straight(StraightType::AceLow) => 4,
        HandType::Straight(StraightType::Other) => 5,
        HandType::Flush => 6,
        HandType::FullHouse => 7,
        HandType::FourOfAKind => 8,
        HandType::StraightFlush(StraightType::AceLow) => 9,
        HandType::StraightFlush(StraightType::Other) => 10,
        HandType::RoyalFlush => 11,
    }
}

impl PartialOrd for Hand {
    /// Compares two hands as `hand_cmp` says: by category strength, then
    /// lexicographically by the sorted rank sequences. The result is always
    /// `Some`, since every pair of hands is ordered.
    fn partial_cmp(&self, other: &Hand) -> (r: Option<core::cmp::Ordering>) {
        proof {
            use_type_invariant(self);
            use_type_invariant(other);
        }
        let ca = strength(&self.hand_type());
        let cb = strength(&other.hand_type());
        if ca < cb {
            Some(core::cmp::Ordering::Less)
        } else if ca > cb {
            Some(core::cmp::Ordering::Greater)
        } else {
            let sa = self.sorted_cards();
            let sb = other.sorted_cards();
            let mut i: usize = 0;
            while i < 5
                invariant
                    i <= 5,
                    sa@.len() == 5,
                    sb@.len() == 5,
                    hand_type_code(hand_type_of(self@)) == hand_type_code(hand_type_of(other@)),
                    rank_seq(sa@) == sorted_rank_seq(self@),
                    rank_seq(sb@) == sorted_rank_seq(other@),
                    forall|m: int|
                        0 <= m < i ==> rank_code((#[trigger] sa@[m]).0) == rank_code(sb@[m].0),
                decreases 5 - i,
            {
                let x = sa[i].0.code();
                let y = sb[i].0.code();
                if x < y {
                    return Some(core::cmp::Ordering::Less);
                }
                if x > y {
                    return Some(core::cmp::Ordering::Greater);
                }
                i += 1;
            }
            Some(core::cmp::Ordering::Equal)
        }
    }
}

impl vstd::std_specs::cmp::PartialOrdSpecImpl for Hand {
    open spec fn obeys_partial_cmp_spec() -> bool {
        true
    }

    open spec fn partial_cmp_spec(&self, other: &Hand) -> Option<core::cmp::Ordering> {
        Some(hand_cmp(self@, other@))
    }
}

/// Classification does not depend on the order in which the cards were
/// given: two hands holding the same cards receive the same category.
pub proof fn lemma_hand_type_permutation_invariant(a: Seq<Card>, b: Seq<Card>)
    requires
        a.to_multiset() == b.to_multiset(),
    ensures
        hand_type_of(a) == hand_type_of(b),
{
    lemma_rank_multiset_congruence(a, b);
    lemma_all_same_suit_congruence(a, b);
    let leq = rank_leq();
    lemma_rank_leq_total();
    rank_seq(a).lemma_sort_by_ensures(leq);
    rank_seq(b).lemma_sort_by_ensures(leq);
    assert(sorted_rank_seq(a).to_multiset() == sorted_rank_seq(b).to_multiset());
    lemma_sorted_unique(sorted_rank_seq(a), sorted_rank_seq(b), leq);
}

/// Classification respects the category precedence: a hand whose sorted
/// ranks and suits match a category's structural pattern is reported as that
/// category or a stronger one, never a weaker one. A hand with four equal
/// ranks, say, also matches the three-of-a-kind and pair patterns, but is
/// always reported at least as strong as four of a kind.
pub proof fn lemma_category_precedence(cards: Seq<Card>)
    ensures
        all_same_suit(cards) && royal_ranks(sorted_rank_seq(cards)) ==> hand_type_of(cards)
            == HandType::RoyalFlush,
        all_same_suit(cards) && straight_kind(sorted_rank_seq(cards)) is Some ==> hand_type_code(
            hand_type_of(cards),
        ) >= hand_type_code(HandType::StraightFlush(StraightType::Other)),
        four_kind_ranks(sorted_rank_seq(cards)) ==> hand_type_code(hand_type_of(cards))
            >= hand_type_code(HandType::FourOfAKind),
        full_house_ranks(sorted_rank_seq(cards)) ==> hand_type_code(hand_type_of(cards))
            >= hand_type_code(HandType::FullHouse),
        all_same_suit(cards) ==> hand_type_code(hand_type_of(cards)) >= hand_type_code(
            HandType::Flush,
        ),
        straight_kind(sorted_rank_seq(cards)) matches Some(st) ==> hand_type_code(
            hand_type_of(cards),
        ) >= hand_type_code(HandType::Straight(st)),
        three_kind_ranks(sorted_rank_seq(cards)) ==> hand_type_code(hand_type_of(cards))
            >= hand_type_code(HandType::ThreeOfAKind),
        two_pair_ranks(sorted_rank_seq(cards)) ==> hand_type_code(hand_type_of(cards))
            >= hand_type_code(HandType::TwoPair),
        pair_ranks(sorted_rank_seq(cards)) ==> hand_type_code(hand_type_of(cards))
            >= hand_type_code(HandType::Pair),
{
}

/// A hand whose sorted ranks are Two, Three, Four, Five, Ace but whose suits
/// do not all agree is classified as the ace-low straight.
pub proof fn lemma_ace_low_straight_classification(cards: Seq<Card>)
    requires
        straight_kind(sorted_rank_seq(cards)) == Some(StraightType::AceLow),
        !all_same_suit(cards),
    ensures
        hand_type_of(cards) == HandType::Straight(StraightType::AceLow),
{
}

/// Under comparison, a hand classified as an ace-low straight is strictly
/// weaker than any hand classified as another straight, whichever cards make
/// up either hand.
pub proof fn lemma_ace_low_straight_weakest(a: Seq<Card>, b: Seq<Card>)
    requires
        hand_type_of(a) == HandType::Straight(StraightType::AceLow),
        hand_type_of(b) == HandType::Straight(StraightType::Other),
    ensures
        hand_cmp(a, b) == core::cmp::Ordering::Less,
        hand_cmp(b, a) == core::cmp::Ordering::Greater,
{
}

} // verus!
