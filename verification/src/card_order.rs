//! The strength of a hand depends on which cards it holds, not on the order
//! in which it holds them.

use crate::best_five::lemma_best_without_one;
use crate::card::{Card, Rank, Suit};
use crate::evaluator::{
    best_rank, heaviest_below, highest_run, is_flush, key_weight, lemma_rank_count_bound,
    rank_count, rank_of,
};
use crate::rank::lemma_strength_order;
use vstd::multiset::Multiset;
use vstd::prelude::*;

verus! {

/// The rank with the face value `v`.
pub open spec fn rank_with_value(v: int) -> Rank {
    if v == 2 {
        Rank::Two
    } else if v == 3 {
        Rank::Three
    } else if v == 4 {
        Rank::Four
    } else if v == 5 {
        Rank::Five
    } else if v == 6 {
        Rank::Six
    } else if v == 7 {
        Rank::Seven
    } else if v == 8 {
        Rank::Eight
    } else if v == 9 {
        Rank::Nine
    } else if v == 10 {
        Rank::Ten
    } else if v == 11 {
        Rank::Jack
    } else if v == 12 {
        Rank::Queen
    } else if v == 13 {
        Rank::King
    } else {
        Rank::Ace
    }
}

/// How many cards of the rank a collection of cards holds, the four suits
/// together.
pub open spec fn held_of_rank(cards: Multiset<Card>, r: Rank) -> nat {
    cards.count(Card { rank: r, suit: Suit::Hearts }) + cards.count(
        Card { rank: r, suit: Suit::Diamonds },
    ) + cards.count(Card { rank: r, suit: Suit::Clubs }) + cards.count(
        Card { rank: r, suit: Suit::Spades },
    )
}

/// The number of cards of a rank value in a hand is the number of its four
/// cards among the cards held.
pub proof fn lemma_count_by_cards(s: Seq<Card>, v: int)
    requires
        2 <= v <= 14,
    ensures
        rank_count(s, v) == held_of_rank(s.to_multiset(), rank_with_value(v)),
    decreases s.len(),
{
    broadcast use vstd::multiset::group_multiset_axioms;

    if s.len() == 0 {
        s.to_multiset_ensures();
        assert(s.to_multiset().len() == 0);
        let r = rank_with_value(v);
        assert(s.to_multiset().count(Card { rank: r, suit: Suit::Hearts }) == 0);
        assert(s.to_multiset().count(Card { rank: r, suit: Suit::Diamonds }) == 0);
        assert(s.to_multiset().count(Card { rank: r, suit: Suit::Clubs }) == 0);
        assert(s.to_multiset().count(Card { rank: r, suit: Suit::Spades }) == 0);
    } else {
        let front = s.drop_last();
        let last = s.last();
        lemma_count_by_cards(front, v);
        assert(front.push(last) =~= s);
        vstd::seq_lib::to_multiset_build(front, last);
        assert(s.to_multiset() =~= front.to_multiset().insert(last));
        assert(last.rank.value() == v <==> last.rank == rank_with_value(v));
    }
}

/// Hands that hold the same cards hold as many cards of each rank value.
pub proof fn lemma_rank_count_by_cards(s: Seq<Card>, t: Seq<Card>, v: int)
    requires
        s.to_multiset() == t.to_multiset(),
    ensures
        rank_count(s, v) == rank_count(t, v),
{
    if 2 <= v <= 14 {
        lemma_count_by_cards(s, v);
        lemma_count_by_cards(t, v);
    } else {
        lemma_rank_count_bound(s, v);
        lemma_rank_count_bound(t, v);
    }
}

/// Hands that hold the same cards are a flush together or not at all.
proof fn lemma_flush_by_cards(s: Seq<Card>, t: Seq<Card>)
    requires
        s.to_multiset() == t.to_multiset(),
        is_flush(s),
    ensures
        is_flush(t),
{
    vstd::seq_lib::to_multiset_len(s);
    vstd::seq_lib::to_multiset_len(t);
    assert(s.len() == t.len());
    assert forall|c: Card| t.contains(c) implies c.suit == s[0].suit by {
        vstd::seq_lib::to_multiset_contains(t, c);
        vstd::seq_lib::to_multiset_contains(s, c);
        let i = choose|i: int| 0 <= i < s.len() && s[i] == c;
        assert(s[i].suit == s[0].suit);
    }
    assert(t.contains(t[0]));
    assert forall|i: int| 0 <= i < t.len() implies (#[trigger] t[i]).suit == t[0].suit by {
        assert(t.contains(t[i]));
    }
}

/// Hands with as many cards of each rank value have the same heaviest
/// weights.
proof fn lemma_heaviest_by_counts(s: Seq<Card>, t: Seq<Card>, bound: int, top: int)
    requires
        forall|v: int| rank_count(s, v) == rank_count(t, v),
    ensures
        heaviest_below(s, bound, top) == heaviest_below(t, bound, top),
    decreases top,
{
    if top >= 2 {
        lemma_heaviest_by_counts(s, t, bound, top - 1);
    }
}

/// Hands with as many cards of each rank value have the same key weights.
proof fn lemma_key_by_counts(s: Seq<Card>, t: Seq<Card>, i: nat)
    requires
        forall|v: int| rank_count(s, v) == rank_count(t, v),
    ensures
        key_weight(s, i) == key_weight(t, i),
    decreases i,
{
    if i == 0 {
        lemma_heaviest_by_counts(s, t, 256, 14);
    } else {
        lemma_key_by_counts(s, t, (i - 1) as nat);
        lemma_heaviest_by_counts(s, t, key_weight(s, (i - 1) as nat), 14);
    }
}

/// Hands with as many cards of each rank value have the same straight.
proof fn lemma_run_by_counts(s: Seq<Card>, t: Seq<Card>, top: int)
    requires
        forall|v: int| rank_count(s, v) == rank_count(t, v),
    ensures
        highest_run(s, top) == highest_run(t, top),
    decreases top,
{
    if top >= 5 {
        lemma_run_by_counts(s, t, top - 1);
    }
}

/// Taken as they stand, hands that hold the same cards have the same
/// strength.
pub proof fn lemma_rank_of_by_cards(s: Seq<Card>, t: Seq<Card>)
    requires
        s.to_multiset() == t.to_multiset(),
    ensures
        rank_of(s) == rank_of(t),
{
    assert forall|v: int| rank_count(s, v) == rank_count(t, v) by {
        lemma_rank_count_by_cards(s, t, v);
    }
    lemma_key_by_counts(s, t, 0);
    lemma_key_by_counts(s, t, 1);
    lemma_key_by_counts(s, t, 2);
    lemma_key_by_counts(s, t, 3);
    lemma_key_by_counts(s, t, 4);
    lemma_run_by_counts(s, t, 14);
    if is_flush(s) {
        lemma_flush_by_cards(s, t);
    }
    if is_flush(t) {
        lemma_flush_by_cards(t, s);
    }
}

/// No five cards taken from among the cards of a hand rank higher than the
/// hand.
pub proof fn lemma_best_beats_cards_held(s: Seq<Card>, five: Seq<Card>)
    requires
        five.len() == 5,
        five.to_multiset().subset_of(s.to_multiset()),
    ensures
        rank_of(five).strength() <= best_rank(s).strength(),
    decreases s.len(),
{
    broadcast use vstd::multiset::group_multiset_axioms;
    broadcast use vstd::seq_lib::to_multiset_len;

    let held = s.to_multiset();
    let taken = five.to_multiset();
    let left = held.sub(taken);
    assert(left.len() == s.len() - 5);
    if s.len() == 5 {
        assert(held =~= taken) by {
            assert forall|c: Card| held.count(c) == taken.count(c) by {
                assert(left.count(c) <= left.len());
            }
        }
        lemma_rank_of_by_cards(s, five);
    } else {
        let spare = left.choose();
        assert(left.count(spare) > 0);
        assert(held.count(spare) > taken.count(spare));
        vstd::seq_lib::to_multiset_contains(s, spare);
        let i = choose|i: int| 0 <= i < s.len() && s[i] == spare;
        let rest = s.remove(i);
        vstd::seq_lib::to_multiset_remove(s, i);
        assert(taken.subset_of(rest.to_multiset()));
        lemma_best_beats_cards_held(rest, five);
        lemma_best_without_one(s, s.len());
        assert(best_rank(rest).strength() <= best_rank(s).strength());
    }
}

/// The strength of a hand of five or more cards is that of five cards
/// taken from among its cards.
pub proof fn lemma_best_is_of_cards_held(s: Seq<Card>) -> (five: Seq<Card>)
    requires
        s.len() >= 5,
    ensures
        five.len() == 5,
        five.to_multiset().subset_of(s.to_multiset()),
        best_rank(s) == rank_of(five),
    decreases s.len(),
{
    broadcast use vstd::multiset::group_multiset_axioms;

    if s.len() == 5 {
        s
    } else {
        lemma_best_without_one(s, s.len());
        let gone = choose|i: int|
            0 <= i < s.len() && crate::evaluator::best_without_one(s, s.len())
                == #[trigger] best_rank(s.remove(i));
        let five = lemma_best_is_of_cards_held(s.remove(gone));
        vstd::seq_lib::to_multiset_remove(s, gone);
        five
    }
}

/// Hands that hold the same cards have the same strength, in whatever
/// order they hold them.
pub proof fn lemma_best_rank_by_cards(s: Seq<Card>, t: Seq<Card>)
    requires
        s.to_multiset() == t.to_multiset(),
    ensures
        best_rank(s) == best_rank(t),
{
    vstd::seq_lib::to_multiset_len(s);
    vstd::seq_lib::to_multiset_len(t);
    assert(s.len() == t.len());
    if s.len() <= 5 {
        lemma_rank_of_by_cards(s, t);
    } else {
        let of_s = lemma_best_is_of_cards_held(s);
        lemma_best_beats_cards_held(t, of_s);
        let of_t = lemma_best_is_of_cards_held(t);
        lemma_best_beats_cards_held(s, of_t);
        lemma_strength_order(best_rank(s), best_rank(t));
    }
}

} // verus!
