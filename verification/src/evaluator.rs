//! The hand evaluator: from up to seven cards to the strength of the best
//! five among them.
//!
//! Five cards or fewer are classified as they stand, by how often each rank
//! occurs, whether all share a suit, and whether the ranks form a run. Of
//! more than five cards the strength is the best that remains after cards
//! are put aside, one at a time, until five are left.

use crate::card::Card;
use crate::hand::Hand;
use crate::rank::{stronger, HandCategory, HandRank, TieBreak};
use vstd::prelude::*;

verus! {

/// How many cards of `s` have the rank value `v`.
pub open spec fn rank_count(s: Seq<Card>, v: int) -> nat
    decreases s.len(),
{
    if s.len() == 0 {
        0
    } else {
        rank_count(s.drop_last(), v) + if s.last().rank.value() == v {
            1nat
        } else {
            0nat
        }
    }
}

/// The weight of a rank value in a hand: 16 times the number of its cards,
/// plus the value; 0 where the hand has no card of it. A rank with more
/// cards is heavier, and of two with equally many the higher is heavier.
pub open spec fn rank_weight(s: Seq<Card>, v: int) -> int {
    if rank_count(s, v) == 0 {
        0
    } else {
        16 * rank_count(s, v) + v
    }
}

/// The largest weight below `bound` among the rank values 2 to `top`; 0
/// where there is none.
pub open spec fn heaviest_below(s: Seq<Card>, bound: int, top: int) -> int
    decreases top,
{
    if top < 2 {
        0
    } else {
        let rest = heaviest_below(s, bound, top - 1);
        let w = rank_weight(s, top);
        if w < bound && w > rest {
            w
        } else {
            rest
        }
    }
}

/// The weight of the `i`-th heaviest rank of the hand, counting from 0; 0
/// where the hand has fewer ranks.
pub open spec fn key_weight(s: Seq<Card>, i: nat) -> int
    decreases i,
{
    if i == 0 {
        heaviest_below(s, 256, 14)
    } else {
        heaviest_below(s, key_weight(s, (i - 1) as nat), 14)
    }
}

/// The `i`-th heaviest rank value of the hand; 0 where the hand has fewer
/// ranks.
pub open spec fn key_rank(s: Seq<Card>, i: nat) -> int {
    key_weight(s, i) % 16
}

/// How many cards the `i`-th heaviest rank of the hand has.
pub open spec fn key_count(s: Seq<Card>, i: nat) -> int {
    key_weight(s, i) / 16
}

/// The rank value that stands at the place `v` of a run: the ace for the
/// place below the two.
pub open spec fn run_rank(v: int) -> int {
    if v == 1 {
        14
    } else {
        v
    }
}

/// Whether the hand holds the five ranks of the run that ends at `high`.
pub open spec fn has_run(s: Seq<Card>, high: int) -> bool {
    &&& rank_count(s, run_rank(high)) > 0
    &&& rank_count(s, run_rank(high - 1)) > 0
    &&& rank_count(s, run_rank(high - 2)) > 0
    &&& rank_count(s, run_rank(high - 3)) > 0
    &&& rank_count(s, run_rank(high - 4)) > 0
}

/// The highest end, from 5 to `top`, of a run that the hand holds; 0 where
/// it holds none.
pub open spec fn highest_run(s: Seq<Card>, top: int) -> int
    decreases top,
{
    if top < 5 {
        0
    } else if has_run(s, top) {
        top
    } else {
        highest_run(s, top - 1)
    }
}

/// The highest card of the hand's straight, 5 for ace to five; 0 where the
/// ranks form no straight.
pub open spec fn straight_high(s: Seq<Card>) -> int {
    highest_run(s, 14)
}

/// Whether the cards, at least five, all have one suit.
pub open spec fn is_flush(s: Seq<Card>) -> bool {
    s.len() >= 5 && forall|i: int| 0 <= i < s.len() ==> (#[trigger] s[i]).suit == s[0].suit
}

/// The category of a hand of at most five cards.
pub open spec fn category_of(s: Seq<Card>) -> HandCategory {
    let high = straight_high(s);
    let most = key_count(s, 0);
    let next = key_count(s, 1);
    if is_flush(s) && high == 14 {
        HandCategory::RoyalFlush
    } else if is_flush(s) && high > 0 {
        HandCategory::StraightFlush
    } else if most >= 4 {
        HandCategory::FourOfAKind
    } else if most == 3 && next >= 2 {
        HandCategory::FullHouse
    } else if is_flush(s) {
        HandCategory::Flush
    } else if high > 0 {
        HandCategory::Straight
    } else if most == 3 {
        HandCategory::ThreeOfAKind
    } else if most == 2 && next == 2 {
        HandCategory::TwoPair
    } else if most == 2 {
        HandCategory::Pair
    } else {
        HandCategory::HighCard
    }
}

/// Whether the key of the category is the highest card of a run.
pub open spec fn ranked_by_run(c: HandCategory) -> bool {
    c == HandCategory::Straight || c == HandCategory::StraightFlush || c
        == HandCategory::RoyalFlush
}

/// The key of a hand of at most five cards: for a run its highest card,
/// else the ranks of the hand, heaviest first.
pub open spec fn tiebreak_of(s: Seq<Card>) -> TieBreak {
    if ranked_by_run(category_of(s)) {
        TieBreak { k0: straight_high(s) as u8, k1: 0, k2: 0, k3: 0, k4: 0 }
    } else {
        TieBreak {
            k0: key_rank(s, 0) as u8,
            k1: key_rank(s, 1) as u8,
            k2: key_rank(s, 2) as u8,
            k3: key_rank(s, 3) as u8,
            k4: key_rank(s, 4) as u8,
        }
    }
}

/// The strength of a hand of at most five cards, taken as it stands.
pub open spec fn rank_of(s: Seq<Card>) -> HandRank {
    HandRank { category: category_of(s), tiebreak: tiebreak_of(s) }
}

/// The strength of a hand: as it stands with five cards or fewer, else the
/// best strength that is left when one card is put aside.
pub open spec fn best_rank(s: Seq<Card>) -> HandRank
    decreases s.len(), s.len() + 1,
{
    if s.len() <= 5 {
        rank_of(s)
    } else {
        best_without_one(s, s.len())
    }
}

/// The best strength of the hand without one of its first `k` cards.
pub open spec fn best_without_one(s: Seq<Card>, k: nat) -> HandRank
    decreases s.len(), k,
{
    if s.len() == 0 || k > s.len() {
        rank_of(s)
    } else if k <= 1 {
        best_rank(s.remove(0))
    } else {
        stronger(best_without_one(s, (k - 1) as nat), best_rank(s.remove(k - 1)))
    }
}

/// A rank occurs no more often than the hand has cards.
pub proof fn lemma_rank_count_bound(s: Seq<Card>, v: int)
    ensures
        rank_count(s, v) <= s.len(),
        !(2 <= v <= 14) ==> rank_count(s, v) == 0,
    decreases s.len(),
{
    if s.len() > 0 {
        lemma_rank_count_bound(s.drop_last(), v);
    }
}

/// The heaviest weight below a bound is the weight of some rank from 2 to
/// 14, or 0, and stays below the bound.
pub proof fn lemma_heaviest_range(s: Seq<Card>, bound: int, top: int)
    requires
        top <= 14,
    ensures
        0 <= heaviest_below(s, bound, top),
        heaviest_below(s, bound, top) <= 16 * s.len() + 14,
        bound > 0 ==> heaviest_below(s, bound, top) < bound,
        heaviest_below(s, bound, top) == 0 || (2 <= heaviest_below(s, bound, top) % 16 <= 14
            && heaviest_below(s, bound, top) / 16 >= 1),
    decreases top,
{
    if top >= 2 {
        lemma_heaviest_range(s, bound, top - 1);
        lemma_rank_count_bound(s, top);
    }
}

/// The weights of the key are small enough for a byte, and so are its rank
/// values.
pub proof fn lemma_key_range(s: Seq<Card>, i: nat)
    ensures
        0 <= key_weight(s, i) <= 16 * s.len() + 14,
        0 <= key_rank(s, i) <= 14,
        0 <= key_count(s, i) <= s.len(),
    decreases i,
{
    if i == 0 {
        lemma_heaviest_range(s, 256, 14);
    } else {
        lemma_key_range(s, (i - 1) as nat);
        lemma_heaviest_range(s, key_weight(s, (i - 1) as nat), 14);
    }
}

/// The highest card of a straight is 0 or from 5 to 14.
pub proof fn lemma_run_range(s: Seq<Card>, top: int)
    requires
        top <= 14,
    ensures
        highest_run(s, top) == 0 || 5 <= highest_run(s, top) <= 14,
    decreases top,
{
    if top >= 5 && !has_run(s, top) {
        lemma_run_range(s, top - 1);
    }
}

/// The values of a key are rank values or 0: none is above 14, and the byte
/// that holds a value cuts nothing off. The key of a run is its highest
/// card, from 5 to 14; every other key lists the ranks of the hand.
pub proof fn lemma_key_values(s: Seq<Card>)
    ensures
        rank_of(s).tiebreak.k0 <= 14,
        rank_of(s).tiebreak.k1 <= 14,
        rank_of(s).tiebreak.k2 <= 14,
        rank_of(s).tiebreak.k3 <= 14,
        rank_of(s).tiebreak.k4 <= 14,
        ranked_by_run(category_of(s)) ==> rank_of(s).tiebreak.k0 == straight_high(s) && 5
            <= straight_high(s),
        !ranked_by_run(category_of(s)) ==> rank_of(s).tiebreak.k0 == key_rank(s, 0) && rank_of(
            s,
        ).tiebreak.k1 == key_rank(s, 1) && rank_of(s).tiebreak.k2 == key_rank(s, 2) && rank_of(
            s,
        ).tiebreak.k3 == key_rank(s, 3) && rank_of(s).tiebreak.k4 == key_rank(s, 4),
{
    lemma_key_range(s, 0);
    lemma_key_range(s, 1);
    lemma_key_range(s, 2);
    lemma_key_range(s, 3);
    lemma_key_range(s, 4);
    lemma_run_range(s, 14);
}

/// Counts the cards of each rank value: the entry at `v` is the number of
/// cards with the value `v`.
fn count_ranks(cards: &Vec<Card>) -> (counts: Vec<u8>)
    requires
        cards@.len() <= 7,
    ensures
        counts@.len() == 15,
        forall|v: int| 0 <= v < 15 ==> counts@[v] == rank_count(cards@, v),
{
    let mut counts: Vec<u8> = vec![0u8; 15];
    let mut i: usize = 0;
    while i < cards.len()
        invariant
            i <= cards@.len(),
            cards@.len() <= 7,
            counts@.len() == 15,
            forall|v: int|
                0 <= v < 15 ==> counts@[v] == rank_count(cards@.subrange(0, i as int), v),
        decreases cards@.len() - i,
    {
        let v = cards[i].rank.value();
        proof {
            let before = cards@.subrange(0, i as int);
            let after = cards@.subrange(0, i + 1);
            assert(after.drop_last() =~= before);
            assert(after.last() == cards@[i as int]);
            lemma_rank_count_bound(before, v as int);
        }
        let c = counts[v as usize];
        counts.set(v as usize, c + 1);
        i += 1;
    }
    proof {
        assert(cards@.subrange(0, i as int) =~= cards@);
    }
    counts
}

/// The weight of the rank value `v`, from the counts of the hand `s`.
fn weight_at(counts: &Vec<u8>, v: u8, Ghost(s): Ghost<Seq<Card>>) -> (w: u8)
    requires
        s.len() <= 7,
        2 <= v <= 14,
        counts@.len() == 15,
        forall|u: int| 0 <= u < 15 ==> counts@[u] == rank_count(s, u),
    ensures
        w == rank_weight(s, v as int),
        w <= 126,
{
    proof {
        lemma_rank_count_bound(s, v as int);
    }
    let c = counts[v as usize];
    if c == 0 {
        0
    } else {
        16 * c + v
    }
}

/// The largest weight below `bound` in the hand `s`, from its counts.
fn heaviest(counts: &Vec<u8>, bound: u16, Ghost(s): Ghost<Seq<Card>>) -> (w: u8)
    requires
        s.len() <= 7,
        counts@.len() == 15,
        forall|u: int| 0 <= u < 15 ==> counts@[u] == rank_count(s, u),
    ensures
        w == heaviest_below(s, bound as int, 14),
{
    let mut best: u8 = 0;
    let mut v: u8 = 2;
    while v <= 14
        invariant
            2 <= v <= 15,
            s.len() <= 7,
            counts@.len() == 15,
            forall|u: int| 0 <= u < 15 ==> counts@[u] == rank_count(s, u),
            best == heaviest_below(s, bound as int, v - 1),
        decreases 15 - v,
    {
        let w = weight_at(counts, v, Ghost(s));
        if (w as u16) < bound && w > best {
            best = w;
        }
        v += 1;
    }
    best
}

/// The highest card of the straight in the hand `s`, from its counts; 0
/// where there is none.
fn find_straight(counts: &Vec<u8>, Ghost(s): Ghost<Seq<Card>>) -> (high: u8)
    requires
        counts@.len() == 15,
        forall|u: int| 0 <= u < 15 ==> counts@[u] == rank_count(s, u),
    ensures
        high == straight_high(s),
{
    let mut top: u8 = 14;
    while top >= 5
        invariant
            4 <= top <= 14,
            counts@.len() == 15,
            forall|u: int| 0 <= u < 15 ==> counts@[u] == rank_count(s, u),
            straight_high(s) == highest_run(s, top as int),
        decreases top,
    {
        let low = if top == 5 {
            14
        } else {
            (top - 4) as usize
        };
        if counts[top as usize] > 0 && counts[top as usize - 1] > 0 && counts[top as usize - 2] > 0
            && counts[top as usize - 3] > 0 && counts[low] > 0 {
            return top;
        }
        top -= 1;
    }
    0
}

/// Whether the cards, at least five, all have one suit.
fn all_one_suit(cards: &Vec<Card>) -> (flush: bool)
    ensures
        flush == is_flush(cards@),
{
    if cards.len() < 5 {
        return false;
    }
    let first = cards[0].suit;
    let mut i: usize = 1;
    while i < cards.len()
        invariant
            1 <= i <= cards@.len(),
            cards@.len() >= 5,
            first == cards@[0].suit,
            forall|j: int| 0 <= j < i ==> (#[trigger] cards@[j]).suit == first,
        decreases cards@.len() - i,
    {
        if cards[i].suit != first {
            return false;
        }
        i += 1;
    }
    true
}

/// The strength of at most five cards, taken as they stand.
fn rank_cards(cards: &Vec<Card>) -> (rank: HandRank)
    requires
        cards@.len() <= 5,
    ensures
        rank == rank_of(cards@),
{
    let ghost s = cards@;
    let counts = count_ranks(cards);
    let w0 = heaviest(&counts, 256, Ghost(s));
    let w1 = heaviest(&counts, w0 as u16, Ghost(s));
    let w2 = heaviest(&counts, w1 as u16, Ghost(s));
    let w3 = heaviest(&counts, w2 as u16, Ghost(s));
    let w4 = heaviest(&counts, w3 as u16, Ghost(s));
    proof {
        reveal_with_fuel(key_weight, 5);
        assert(w0 == key_weight(s, 0));
        assert(w1 == key_weight(s, 1));
        assert(w2 == key_weight(s, 2));
        assert(w3 == key_weight(s, 3));
        assert(w4 == key_weight(s, 4));
        lemma_run_range(s, 14);
    }
    let high = find_straight(&counts, Ghost(s));
    let flush = all_one_suit(cards);
    let most = w0 / 16;
    let next = w1 / 16;
    let category = if flush && high == 14 {
        HandCategory::RoyalFlush
    } else if flush && high > 0 {
        HandCategory::StraightFlush
    } else if most >= 4 {
        HandCategory::FourOfAKind
    } else if most == 3 && next >= 2 {
        HandCategory::FullHouse
    } else if flush {
        HandCategory::Flush
    } else if high > 0 {
        HandCategory::Straight
    } else if most == 3 {
        HandCategory::ThreeOfAKind
    } else if most == 2 && next == 2 {
        HandCategory::TwoPair
    } else if most == 2 {
        HandCategory::Pair
    } else {
        HandCategory::HighCard
    };
    let tiebreak = match category {
        HandCategory::Straight | HandCategory::StraightFlush | HandCategory::RoyalFlush => TieBreak {
            k0: high,
            k1: 0,
            k2: 0,
            k3: 0,
            k4: 0,
        },
        _ => TieBreak { k0: w0 % 16, k1: w1 % 16, k2: w2 % 16, k3: w3 % 16, k4: w4 % 16 },
    };
    HandRank { category, tiebreak }
}

/// The cards without the one at `skip`, in their order.
fn without(cards: &Vec<Card>, skip: usize) -> (rest: Vec<Card>)
    requires
        skip < cards@.len(),
    ensures
        rest@ == cards@.remove(skip as int),
{
    let mut rest: Vec<Card> = Vec::new();
    let mut i: usize = 0;
    while i < cards.len()
        invariant
            i <= cards@.len(),
            skip < cards@.len(),
            i <= skip ==> rest@ == cards@.subrange(0, i as int),
            i > skip ==> rest@ == cards@.subrange(0, skip as int) + cards@.subrange(
                skip + 1,
                i as int,
            ),
        decreases cards@.len() - i,
    {
        if i != skip {
            rest.push(cards[i]);
        }
        proof {
            if i < skip {
                assert(rest@ =~= cards@.subrange(0, i + 1));
            } else if i == skip {
                assert(rest@ =~= cards@.subrange(0, skip as int) + cards@.subrange(
                    skip + 1,
                    i + 1,
                ));
            } else {
                assert(rest@ =~= cards@.subrange(0, skip as int) + cards@.subrange(
                    skip + 1,
                    i + 1,
                ));
            }
        }
        i += 1;
    }
    proof {
        assert(rest@ =~= cards@.remove(skip as int));
    }
    rest
}

/// The strength of the best five of the cards.
fn best_of(cards: &Vec<Card>) -> (rank: HandRank)
    requires
        cards@.len() <= 7,
    ensures
        rank == best_rank(cards@),
    decreases cards@.len(),
{
    if cards.len() <= 5 {
        rank_cards(cards)
    } else {
        let first = without(cards, 0);
        let mut best = best_of(&first);
        let mut i: usize = 1;
        while i < cards.len()
            invariant
                1 <= i <= cards@.len(),
                5 < cards@.len() <= 7,
                best == best_without_one(cards@, i as nat),
            decreases cards@.len() - i,
        {
            let rest = without(cards, i);
            let rank = best_of(&rest);
            if rank.beats(&best) {
                best = rank;
            }
            i += 1;
        }
        best
    }
}

/// The evaluator of hands.
pub struct HandEvaluator;

impl HandEvaluator {
    /// The strength of a hand of up to seven cards: the category of its
    /// best five cards and the key that orders hands of that category. The
    /// order in which the hand holds its cards does not enter.
    pub fn evaluate(hand: &Hand) -> (rank: HandRank)
        ensures
            rank == best_rank(hand@),
    {
        best_of(hand.cards())
    }
}

} // verus!
