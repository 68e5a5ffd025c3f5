//! The straight from ace to five: the ace stands below the two there, so
//! this is the lowest straight of all.

use crate::card::Card;
use crate::evaluator::{
    category_of, has_run, heaviest_below, highest_run, is_flush, key_count, key_weight,
    rank_count, rank_of, rank_weight, straight_high,
};
use crate::rank::{lemma_strength_order, HandCategory};
use vstd::prelude::*;

verus! {

/// Every card counts for exactly one of the rank values 2 to 14.
pub proof fn lemma_counts_sum(s: Seq<Card>)
    ensures
        rank_count(s, 2) + rank_count(s, 3) + rank_count(s, 4) + rank_count(s, 5) + rank_count(
            s,
            6,
        ) + rank_count(s, 7) + rank_count(s, 8) + rank_count(s, 9) + rank_count(s, 10)
            + rank_count(s, 11) + rank_count(s, 12) + rank_count(s, 13) + rank_count(s, 14)
            == s.len(),
    decreases s.len(),
{
    if s.len() > 0 {
        lemma_counts_sum(s.drop_last());
    }
}

/// Five cards that hold the run from ace to five are a straight with the
/// five as its highest card, or a straight flush where they share a suit.
proof fn lemma_wheel_rank(s: Seq<Card>)
    requires
        s.len() == 5,
        has_run(s, 5),
    ensures
        straight_high(s) == 5,
        key_count(s, 0) == 1,
        category_of(s) == if is_flush(s) {
            HandCategory::StraightFlush
        } else {
            HandCategory::Straight
        },
        rank_of(s).tiebreak.k0 == 5,
{
    lemma_counts_sum(s);
    assert(rank_count(s, 14) == 1 && rank_count(s, 2) == 1 && rank_count(s, 3) == 1 && rank_count(
        s,
        4,
    ) == 1 && rank_count(s, 5) == 1);
    assert(rank_count(s, 6) == 0 && rank_count(s, 7) == 0 && rank_count(s, 8) == 0 && rank_count(
        s,
        9,
    ) == 0 && rank_count(s, 10) == 0 && rank_count(s, 11) == 0 && rank_count(s, 12) == 0
        && rank_count(s, 13) == 0);
    assert(straight_high(s) == 5) by {
        reveal_with_fuel(highest_run, 11);
    }
    assert(key_weight(s, 0) == 30) by {
        reveal_with_fuel(heaviest_below, 15);
        assert(rank_weight(s, 14) == 30);
    }
}

/// Five cards that hold the run from two to six are a straight with the
/// six as its highest card, or a straight flush where they share a suit.
proof fn lemma_six_high_rank(s: Seq<Card>)
    requires
        s.len() == 5,
        has_run(s, 6),
    ensures
        straight_high(s) == 6,
        key_count(s, 0) == 1,
        category_of(s) == if is_flush(s) {
            HandCategory::StraightFlush
        } else {
            HandCategory::Straight
        },
        rank_of(s).tiebreak.k0 == 6,
{
    lemma_counts_sum(s);
    assert(rank_count(s, 6) == 1 && rank_count(s, 2) == 1 && rank_count(s, 3) == 1 && rank_count(
        s,
        4,
    ) == 1 && rank_count(s, 5) == 1);
    assert(rank_count(s, 14) == 0 && rank_count(s, 7) == 0 && rank_count(s, 8) == 0 && rank_count(
        s,
        9,
    ) == 0 && rank_count(s, 10) == 0 && rank_count(s, 11) == 0 && rank_count(s, 12) == 0
        && rank_count(s, 13) == 0);
    assert(straight_high(s) == 6) by {
        reveal_with_fuel(highest_run, 11);
    }
    assert(key_weight(s, 0) == 22) by {
        reveal_with_fuel(heaviest_below, 15);
        assert(rank_weight(s, 6) == 22);
    }
}

/// Ace to five ranks strictly below two to six, whatever the suits of the
/// cards: among straights, and among straight flushes.
pub proof fn lemma_wheel_below_six_high(wheel: Seq<Card>, six_high: Seq<Card>)
    requires
        wheel.len() == 5,
        six_high.len() == 5,
        has_run(wheel, 5),
        has_run(six_high, 6),
        is_flush(wheel) == is_flush(six_high),
    ensures
        rank_of(wheel).category == rank_of(six_high).category,
        rank_of(wheel).category == HandCategory::Straight || rank_of(wheel).category
            == HandCategory::StraightFlush,
        rank_of(wheel).tiebreak.k0 == 5,
        rank_of(six_high).tiebreak.k0 == 6,
        rank_of(wheel).strength() < rank_of(six_high).strength(),
{
    lemma_wheel_rank(wheel);
    lemma_six_high_rank(six_high);
    lemma_strength_order(rank_of(wheel), rank_of(six_high));
}

} // verus!
