//! The strength of more than five cards is that of their best five: no
//! five of the cards rank higher, and some five rank exactly so.

use crate::card::Card;
use crate::evaluator::{best_rank, best_without_one, rank_of};
use vstd::prelude::*;

verus! {

/// Whether the five positions are positions of a hand of `n` cards, in
/// rising order.
pub open spec fn rising(n: int, a: int, b: int, c: int, d: int, e: int) -> bool {
    0 <= a < b < c < d < e < n
}

/// The five cards of the hand at the positions given.
pub open spec fn five_of(s: Seq<Card>, a: int, b: int, c: int, d: int, e: int) -> Seq<Card> {
    seq![s[a], s[b], s[c], s[d], s[e]]
}

/// The position in the whole hand of the card that stands at `i` once the
/// card at `gone` is put aside.
pub open spec fn with_gap(i: int, gone: int) -> int {
    if i < gone {
        i
    } else {
        i + 1
    }
}

/// The best strength without one of the first `k` cards is at least the
/// strength without any one of them, and is the strength without some one
/// of them.
pub proof fn lemma_best_without_one(s: Seq<Card>, k: nat)
    requires
        1 <= k <= s.len(),
    ensures
        forall|i: int|
            0 <= i < k ==> (#[trigger] best_rank(s.remove(i))).strength() <= best_without_one(
                s,
                k,
            ).strength(),
        exists|i: int| 0 <= i < k && best_without_one(s, k) == #[trigger] best_rank(s.remove(i)),
    decreases k,
{
    if k <= 1 {
        assert(best_without_one(s, k) == best_rank(s.remove(0)));
    } else {
        lemma_best_without_one(s, (k - 1) as nat);
        let before = best_without_one(s, (k - 1) as nat);
        let last = best_rank(s.remove(k - 1));
        let i = choose|i: int| 0 <= i < k - 1 && before == #[trigger] best_rank(s.remove(i));
        if last.strength() > before.strength() {
            assert(best_without_one(s, k) == best_rank(s.remove(k - 1)));
        } else {
            assert(best_without_one(s, k) == best_rank(s.remove(i)));
        }
    }
}

/// The position that a card of the whole hand has once the card at `gone`
/// is put aside.
pub open spec fn without_gap(i: int, gone: int) -> int {
    if i < gone {
        i
    } else {
        i - 1
    }
}

/// A position among the first six that is none of the five.
pub open spec fn free_position(a: int, b: int, c: int, d: int, e: int) -> int {
    if a > 0 {
        0
    } else if b > 1 {
        1
    } else if c > 2 {
        2
    } else if d > 3 {
        3
    } else if e > 4 {
        4
    } else {
        5
    }
}

/// Putting a card aside moves the cards behind it one position down.
proof fn lemma_card_after_gap(s: Seq<Card>, gone: int, i: int)
    requires
        0 <= gone < s.len(),
        0 <= i < s.len() - 1,
    ensures
        s.remove(gone)[i] == s[with_gap(i, gone)],
{
}

/// Five cards of the hand without one card are five cards of the hand.
proof fn lemma_five_with_gap(s: Seq<Card>, gone: int, a: int, b: int, c: int, d: int, e: int)
    requires
        0 <= gone < s.len(),
        rising(s.len() - 1, a, b, c, d, e),
    ensures
        rising(
            s.len() as int,
            with_gap(a, gone),
            with_gap(b, gone),
            with_gap(c, gone),
            with_gap(d, gone),
            with_gap(e, gone),
        ),
        five_of(s.remove(gone), a, b, c, d, e) == five_of(
            s,
            with_gap(a, gone),
            with_gap(b, gone),
            with_gap(c, gone),
            with_gap(d, gone),
            with_gap(e, gone),
        ),
{
    lemma_card_after_gap(s, gone, a);
    lemma_card_after_gap(s, gone, b);
    lemma_card_after_gap(s, gone, c);
    lemma_card_after_gap(s, gone, d);
    lemma_card_after_gap(s, gone, e);
    assert(five_of(s.remove(gone), a, b, c, d, e) =~= five_of(
        s,
        with_gap(a, gone),
        with_gap(b, gone),
        with_gap(c, gone),
        with_gap(d, gone),
        with_gap(e, gone),
    ));
}

/// No five cards of a hand rank higher than the hand.
pub proof fn lemma_best_beats_every_five(s: Seq<Card>, a: int, b: int, c: int, d: int, e: int)
    requires
        rising(s.len() as int, a, b, c, d, e),
    ensures
        rank_of(five_of(s, a, b, c, d, e)).strength() <= best_rank(s).strength(),
    decreases s.len(),
{
    if s.len() <= 5 {
        assert(five_of(s, a, b, c, d, e) =~= s);
    } else {
        let gone = free_position(a, b, c, d, e);
        let rest = s.remove(gone);
        let a2 = without_gap(a, gone);
        let b2 = without_gap(b, gone);
        let c2 = without_gap(c, gone);
        let d2 = without_gap(d, gone);
        let e2 = without_gap(e, gone);
        assert(gone != a && gone != b && gone != c && gone != d && gone != e);
        assert(with_gap(a2, gone) == a);
        assert(with_gap(b2, gone) == b);
        assert(with_gap(c2, gone) == c);
        assert(with_gap(d2, gone) == d);
        assert(with_gap(e2, gone) == e);
        assert(rising(s.len() - 1, a2, b2, c2, d2, e2));
        lemma_five_with_gap(s, gone, a2, b2, c2, d2, e2);
        lemma_best_beats_every_five(rest, a2, b2, c2, d2, e2);
        lemma_best_without_one(s, s.len());
        assert(best_rank(rest).strength() <= best_rank(s).strength());
    }
}

/// The strength of a hand of five or more cards is that of some five of
/// its cards.
pub proof fn lemma_best_is_some_five(s: Seq<Card>) -> (at: (int, int, int, int, int))
    requires
        s.len() >= 5,
    ensures
        rising(s.len() as int, at.0, at.1, at.2, at.3, at.4),
        best_rank(s) == rank_of(five_of(s, at.0, at.1, at.2, at.3, at.4)),
    decreases s.len(),
{
    if s.len() == 5 {
        assert(five_of(s, 0, 1, 2, 3, 4) =~= s);
        (0, 1, 2, 3, 4)
    } else {
        lemma_best_without_one(s, s.len());
        let gone = choose|i: int|
            0 <= i < s.len() && best_without_one(s, s.len()) == #[trigger] best_rank(s.remove(i));
        let rest = s.remove(gone);
        let sub = lemma_best_is_some_five(rest);
        lemma_five_with_gap(s, gone, sub.0, sub.1, sub.2, sub.3, sub.4);
        (
            with_gap(sub.0, gone),
            with_gap(sub.1, gone),
            with_gap(sub.2, gone),
            with_gap(sub.3, gone),
            with_gap(sub.4, gone),
        )
    }
}

} // verus!
