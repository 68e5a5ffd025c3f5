//! The deck: a pool of distinct cards that is shuffled and dealt from its
//! end, never refilled.

use crate::card::{Card, Rank, Suit};
use crate::hand::copy_cards;
use crate::random::random_below;
use vstd::prelude::*;

verus! {

/// Suit of the `i`-th block of thirteen cards in a new deck.
pub open spec fn deck_suit(i: int) -> Suit {
    if i == 0 {
        Suit::Clubs
    } else if i == 1 {
        Suit::Diamonds
    } else if i == 2 {
        Suit::Hearts
    } else {
        Suit::Spades
    }
}

/// Rank of the `i`-th card within a suit of a new deck: ace first, then two
/// up to king.
pub open spec fn deck_rank(i: int) -> Rank {
    if i == 0 {
        Rank::Ace
    } else if i == 1 {
        Rank::Two
    } else if i == 2 {
        Rank::Three
    } else if i == 3 {
        Rank::Four
    } else if i == 4 {
        Rank::Five
    } else if i == 5 {
        Rank::Six
    } else if i == 6 {
        Rank::Seven
    } else if i == 7 {
        Rank::Eight
    } else if i == 8 {
        Rank::Nine
    } else if i == 9 {
        Rank::Ten
    } else if i == 10 {
        Rank::Jack
    } else if i == 11 {
        Rank::Queen
    } else {
        Rank::King
    }
}

/// The `i`-th card of a new deck.
pub open spec fn deck_card(i: int) -> Card {
    Card { rank: deck_rank(i % 13), suit: deck_suit(i / 13) }
}

/// The 52 cards of a new deck in their order: suit by suit, ace to king.
pub open spec fn full_deck() -> Seq<Card> {
    Seq::new(52, |i: int| deck_card(i))
}

/// Position of a card in a new deck.
pub open spec fn deck_position(c: Card) -> int {
    let s: int = match c.suit {
        Suit::Clubs => 0,
        Suit::Diamonds => 1,
        Suit::Hearts => 2,
        Suit::Spades => 3,
    };
    let r: int = match c.rank {
        Rank::Ace => 0,
        other => other.spec_value() - 1,
    };
    13 * s + r
}

/// A new deck holds every card exactly once: the card at position `i` is
/// the only one with that position, and every card has a position.
pub proof fn lemma_full_deck_complete()
    ensures
        full_deck().len() == 52,
        full_deck().no_duplicates(),
        forall|c: Card| 0 <= deck_position(c) < 52 && #[trigger] full_deck().contains(c),
        forall|i: int| 0 <= i < 52 ==> deck_position(#[trigger] full_deck()[i]) == i,
{
    assert forall|i: int| 0 <= i < 52 implies deck_position(#[trigger] full_deck()[i]) == i by {
        assert(0 <= i / 13 < 4);
        assert(0 <= i % 13 < 13);
        assert(13 * (i / 13) + i % 13 == i);
    }
    assert forall|c: Card| 0 <= deck_position(c) < 52 && #[trigger] full_deck().contains(c) by {
        let p = deck_position(c);
        assert(0 <= p < 52);
        assert(full_deck()[p] == c) by {
            assert(p / 13 == p / 13);
            assert(13 * (p / 13) + p % 13 == p);
        }
    }
    assert forall|i: int, j: int| 0 <= i < 52 && 0 <= j < 52 && i != j implies full_deck()[i]
        != full_deck()[j] by {
        assert(deck_position(full_deck()[i]) == i);
        assert(deck_position(full_deck()[j]) == j);
    }
}

/// What one deal does to a pool: the pool that stays and the group that
/// leaves, which is the pool's last `n` cards in their order.
pub open spec fn deal_step(pool: Seq<Card>, n: nat) -> (Seq<Card>, Seq<Card>)
    recommends
        n <= pool.len(),
{
    (pool.subrange(0, pool.len() - n), pool.subrange(pool.len() - n, pool.len() as int))
}

/// The pool that stays after the deals `ns`, made one after the other.
pub open spec fn pool_after(pool: Seq<Card>, ns: Seq<nat>) -> Seq<Card>
    decreases ns.len(),
{
    if ns.len() == 0 {
        pool
    } else {
        deal_step(pool_after(pool, ns.drop_last()), ns.last()).0
    }
}

/// The group that the `k`-th of the deals `ns` hands out.
pub open spec fn group_dealt(pool: Seq<Card>, ns: Seq<nat>, k: int) -> Seq<Card>
    recommends
        0 <= k < ns.len(),
{
    deal_step(pool_after(pool, ns.take(k)), ns[k]).1
}

/// Sum of the requests `ns`.
pub open spec fn total_requested(ns: Seq<nat>) -> nat
    decreases ns.len(),
{
    if ns.len() == 0 {
        0
    } else {
        total_requested(ns.drop_last()) + ns.last()
    }
}

/// A pool of distinct cards. Cards leave it from the end and never come
/// back.
#[derive(Debug)]
pub struct Deck {
    cards: Vec<Card>,
}

impl View for Deck {
    type V = Seq<Card>;

    closed spec fn view(&self) -> Seq<Card> {
        self.cards@
    }
}

impl Clone for Deck {
    fn clone(&self) -> (copy: Deck)
        ensures
            copy@ == self@,
    {
        proof {
            use_type_invariant(self);
        }
        Deck { cards: copy_cards(&self.cards) }
    }
}

impl Deck {
    /// No card is in the pool twice. This holds of every deck at all times.
    #[verifier::type_invariant]
    pub open spec fn wf(&self) -> bool {
        self@.no_duplicates()
    }

    /// The four suits in the order in which a new deck holds them.
    pub fn get_suits() -> (suits: Vec<Suit>)
        ensures
            suits@.len() == 4,
            forall|i: int| 0 <= i < 4 ==> suits@[i] == deck_suit(i),
    {
        vec![Suit::Clubs, Suit::Diamonds, Suit::Hearts, Suit::Spades]
    }

    /// The thirteen ranks in the order in which a new deck holds them.
    pub fn get_ranks() -> (ranks: Vec<Rank>)
        ensures
            ranks@.len() == 13,
            forall|i: int| 0 <= i < 13 ==> ranks@[i] == deck_rank(i),
    {
        vec![
            Rank::Ace,
            Rank::Two,
            Rank::Three,
            Rank::Four,
            Rank::Five,
            Rank::Six,
            Rank::Seven,
            Rank::Eight,
            Rank::Nine,
            Rank::Ten,
            Rank::Jack,
            Rank::Queen,
            Rank::King,
        ]
    }

    /// A full deck in its fixed order, not shuffled.
    pub fn new() -> (deck: Deck)
        ensures
            deck@ == full_deck(),
            deck@.len() == 52,
            deck@.no_duplicates(),
    {
        let ranks = Deck::get_ranks();
        let suits = Deck::get_suits();
        let mut cards_vec: Vec<Card> = Vec::new();
        let mut s: usize = 0;
        while s < 4
            invariant
                s <= 4,
                ranks@.len() == 13,
                suits@.len() == 4,
                forall|i: int| 0 <= i < 13 ==> ranks@[i] == deck_rank(i),
                forall|i: int| 0 <= i < 4 ==> suits@[i] == deck_suit(i),
                cards_vec@.len() == 13 * s,
                forall|i: int| 0 <= i < cards_vec@.len() ==> cards_vec@[i] == deck_card(i),
            decreases 4 - s,
        {
            let mut r: usize = 0;
            while r < 13
                invariant
                    s < 4,
                    r <= 13,
                    ranks@.len() == 13,
                    suits@.len() == 4,
                    forall|i: int| 0 <= i < 13 ==> ranks@[i] == deck_rank(i),
                    forall|i: int| 0 <= i < 4 ==> suits@[i] == deck_suit(i),
                    cards_vec@.len() == 13 * s + r,
                    forall|i: int| 0 <= i < cards_vec@.len() ==> cards_vec@[i] == deck_card(i),
                decreases 13 - r,
            {
                proof {
                    let i = 13 * s + r;
                    assert(i / 13 == s && i % 13 == r);
                }
                cards_vec.push(Card::new(&ranks[r], &suits[s]));
                r += 1;
            }
            s += 1;
        }
        proof {
            assert(cards_vec@ =~= full_deck());
            lemma_full_deck_complete();
        }
        Deck { cards: cards_vec }
    }

    /// Number of cards left in the pool.
    pub fn len(&self) -> (n: usize)
        ensures
            n == self@.len(),
    {
        self.cards.len()
    }

    /// Whether the pool is used up.
    pub fn is_empty(&self) -> (b: bool)
        ensures
            b == (self@.len() == 0),
    {
        self.cards.len() == 0
    }

    /// The cards left in the pool, in their order.
    pub fn cards(&self) -> (cards: &Vec<Card>)
        ensures
            cards@ == self@,
            cards@.no_duplicates(),
    {
        proof {
            use_type_invariant(self);
        }
        &self.cards
    }

    /// Gives up the deck for the cards left in it.
    pub fn check_current_deck(self) -> (cards: Vec<Card>)
        ensures
            cards@ == self@,
            cards@.no_duplicates(),
    {
        proof {
            use_type_invariant(&self);
        }
        self.cards
    }

    /// Exchanges the cards at two positions of the pool.
    pub fn swap(&mut self, i: usize, j: usize)
        requires
            i < old(self)@.len(),
            j < old(self)@.len(),
        ensures
            final(self)@ == old(self)@.update(i as int, old(self)@[j as int]).update(
                j as int,
                old(self)@[i as int],
            ),
            final(self)@.to_multiset() == old(self)@.to_multiset(),
            final(self)@.no_duplicates(),
    {
        proof {
            use_type_invariant(&*self);
            lemma_swap_same_cards(self@, i as int, j as int);
            lemma_same_cards_distinct(
                self@,
                self@.update(i as int, self@[j as int]).update(j as int, self@[i as int]),
            );
        }
        let mut cards: Vec<Card> = Vec::new();
        std::mem::swap(&mut cards, &mut self.cards);
        let a = cards[i];
        let b = cards[j];
        cards.set(i, b);
        cards.set(j, a);
        self.cards = cards;
    }

    /// Puts the pool in a random order. Goes from the last position down to
    /// the second and exchanges each with a position drawn from those up to
    /// and including it. The cards stay the same, each exactly once; which
    /// order comes is up to the draws.
    pub fn shuffle(&mut self)
        ensures
            final(self)@.to_multiset() == old(self)@.to_multiset(),
            final(self)@.len() == old(self)@.len(),
            final(self)@.no_duplicates(),
    {
        let mut rng = rand::thread_rng();
        let mut i: usize = self.len();
        while i > 1
            invariant
                i <= self@.len(),
                self@.len() == old(self)@.len(),
                self@.to_multiset() == old(self)@.to_multiset(),
            decreases i,
        {
            i -= 1;
            let j = random_below(&mut rng, i + 1);
            self.swap(i, j);
        }
        proof {
            use_type_invariant(&*self);
        }
    }

    /// Takes the last `n` cards out of the pool and returns them in their
    /// order. When fewer than `n` cards are left, returns `None` and leaves
    /// the pool as it is.
    pub fn deal(&mut self, n: usize) -> (dealt: Option<Vec<Card>>)
        ensures
            n > old(self)@.len() ==> dealt is None && final(self)@ == old(self)@,
            n <= old(self)@.len() ==> dealt is Some && (final(self)@, dealt->Some_0@) == deal_step(
                old(self)@,
                n as nat,
            ),
            dealt is Some ==> old(self)@ == final(self)@ + dealt->Some_0@,
            dealt is Some ==> dealt->Some_0@.len() == n && dealt->Some_0@.no_duplicates(),
            dealt is Some ==> forall|c: Card| #[trigger]
                dealt->Some_0@.contains(c) ==> old(self)@.contains(c) && !final(self)@.contains(c),
            forall|c: Card| #[trigger] final(self)@.contains(c) ==> old(self)@.contains(c),
            final(self)@.no_duplicates(),
    {
        proof {
            use_type_invariant(&*self);
        }
        if n > self.cards.len() {
            None
        } else {
            let mut cards: Vec<Card> = Vec::new();
            std::mem::swap(&mut cards, &mut self.cards);
            let at = cards.len() - n;
            let result = cards.split_off(at);
            proof {
                lemma_split_distinct(old(self)@, n as nat);
            }
            self.cards = cards;
            Some(result)
        }
    }
}

/// Swapping two positions changes no card and no count.
pub proof fn lemma_swap_same_cards(s: Seq<Card>, i: int, j: int)
    requires
        0 <= i < s.len(),
        0 <= j < s.len(),
    ensures
        s.update(i, s[j]).update(j, s[i]).to_multiset() == s.to_multiset(),
{
    broadcast use vstd::multiset::group_multiset_axioms;

    let s1 = s.update(i, s[j]);
    let s2 = s1.update(j, s[i]);
    vstd::seq_lib::to_multiset_update(s, i, s[j]);
    vstd::seq_lib::to_multiset_update(s1, j, s[i]);
    s.to_multiset_ensures();
    assert(s.to_multiset().count(s[i]) > 0) by {
        assert(s.contains(s[i]));
    }
    assert(s.to_multiset().count(s[j]) > 0) by {
        assert(s.contains(s[j]));
    }
    assert(s2.to_multiset() =~= s.to_multiset());
}

/// A rearrangement of distinct cards holds distinct cards.
pub proof fn lemma_same_cards_distinct(a: Seq<Card>, b: Seq<Card>)
    requires
        a.no_duplicates(),
        a.to_multiset() == b.to_multiset(),
    ensures
        b.no_duplicates(),
{
    a.lemma_multiset_has_no_duplicates();
    b.lemma_multiset_has_no_duplicates_conv();
}

/// One deal from a pool of distinct cards: the group and the pool that
/// stays make up the old pool, each holds distinct cards, and they share
/// none.
pub proof fn lemma_split_distinct(pool: Seq<Card>, n: nat)
    requires
        pool.no_duplicates(),
        n <= pool.len(),
    ensures
        pool == deal_step(pool, n).0 + deal_step(pool, n).1,
        deal_step(pool, n).0.no_duplicates(),
        deal_step(pool, n).1.no_duplicates(),
        deal_step(pool, n).1.len() == n,
        forall|c: Card| #[trigger]
            deal_step(pool, n).1.contains(c) ==> pool.contains(c) && !deal_step(pool, n).0.contains(
                c,
            ),
        forall|c: Card| #[trigger] deal_step(pool, n).0.contains(c) ==> pool.contains(c),
{
    let rest = deal_step(pool, n).0;
    let group = deal_step(pool, n).1;
    let at = pool.len() - n;
    assert(pool =~= rest + group);
    assert forall|c: Card| #[trigger] group.contains(c) implies pool.contains(c) && !rest.contains(
        c,
    ) by {
        let i = choose|i: int| 0 <= i < group.len() && group[i] == c;
        assert(pool[at + i] == c);
        if rest.contains(c) {
            let j = choose|j: int| 0 <= j < rest.len() && rest[j] == c;
            assert(pool[j] == c);
        }
    }
    assert forall|c: Card| #[trigger] rest.contains(c) implies pool.contains(c) by {
        let j = choose|j: int| 0 <= j < rest.len() && rest[j] == c;
        assert(pool[j] == c);
    }
}

/// The requests of a prefix sum to no more than those of the whole.
proof fn lemma_total_prefix(ns: Seq<nat>, k: int)
    requires
        0 <= k <= ns.len(),
    ensures
        total_requested(ns.take(k)) <= total_requested(ns),
        k < ns.len() ==> total_requested(ns.take(k + 1)) == total_requested(ns.take(k)) + ns[k],
        k < ns.len() ==> total_requested(ns.take(k + 1)) <= total_requested(ns),
    decreases ns.len() - k,
{
    if k == ns.len() {
        assert(ns.take(k) =~= ns);
    } else {
        assert(ns.take(k + 1).drop_last() =~= ns.take(k));
        assert(ns.take(k + 1).last() == ns[k]);
        lemma_total_prefix(ns, k + 1);
    }
}

/// After deals that the pool can serve, what stays is the front of the
/// pool, shorter by the sum of the requests.
proof fn lemma_pool_after_is_front(pool: Seq<Card>, ns: Seq<nat>)
    requires
        total_requested(ns) <= pool.len(),
    ensures
        pool_after(pool, ns) == pool.subrange(0, pool.len() - total_requested(ns)),
    decreases ns.len(),
{
    if ns.len() == 0 {
        assert(pool.subrange(0, pool.len() as int) =~= pool);
    } else {
        lemma_pool_after_is_front(pool, ns.drop_last());
        let front = pool_after(pool, ns.drop_last());
        assert(front.subrange(0, front.len() - ns.last()) =~= pool.subrange(
            0,
            pool.len() - total_requested(ns),
        ));
    }
}

/// Deals made one after the other from a pool of distinct cards, whose
/// requests sum to no more than the pool holds: no two groups share a card,
/// and no group shares a card with the pool that stays.
pub proof fn lemma_deals_disjoint(pool: Seq<Card>, ns: Seq<nat>)
    requires
        pool.no_duplicates(),
        total_requested(ns) <= pool.len(),
    ensures
        forall|i: int, j: int, c: Card|
            0 <= i < j < ns.len() && #[trigger] group_dealt(pool, ns, i).contains(c)
                ==> !#[trigger] group_dealt(pool, ns, j).contains(c),
        forall|i: int, c: Card|
            0 <= i < ns.len() && #[trigger] group_dealt(pool, ns, i).contains(c) ==> !pool_after(
                pool,
                ns,
            ).contains(c),
        forall|i: int| 0 <= i < ns.len() ==> (#[trigger] group_dealt(pool, ns, i)).len() == ns[i],
{
    let len = pool.len() as int;
    lemma_pool_after_is_front(pool, ns);
    assert forall|i: int| 0 <= i < ns.len() implies #[trigger] group_dealt(pool, ns, i)
        =~= pool.subrange(
        len - total_requested(ns.take(i + 1)),
        len - total_requested(ns.take(i)),
    ) by {
        lemma_total_prefix(ns, i);
        lemma_pool_after_is_front(pool, ns.take(i));
    }
    assert forall|i: int, j: int, c: Card|
        0 <= i < j < ns.len() && #[trigger] group_dealt(pool, ns, i).contains(c)
            && #[trigger] group_dealt(pool, ns, j).contains(c) implies false by {
        lemma_total_prefix(ns, i);
        lemma_total_prefix(ns, j);
        lemma_total_steps(ns, i + 1, j);
        let gi = group_dealt(pool, ns, i);
        let gj = group_dealt(pool, ns, j);
        let a = choose|a: int| 0 <= a < gi.len() && gi[a] == c;
        let b = choose|b: int| 0 <= b < gj.len() && gj[b] == c;
        assert(pool[len - total_requested(ns.take(i + 1)) + a] == c);
        assert(pool[len - total_requested(ns.take(j + 1)) + b] == c);
    }
    assert forall|i: int, c: Card|
        0 <= i < ns.len() && #[trigger] group_dealt(pool, ns, i).contains(c) implies !pool_after(
        pool,
        ns,
    ).contains(c) by {
        lemma_total_prefix(ns, i);
        let gi = group_dealt(pool, ns, i);
        let rest = pool_after(pool, ns);
        let a = choose|a: int| 0 <= a < gi.len() && gi[a] == c;
        assert(pool[len - total_requested(ns.take(i + 1)) + a] == c);
        if rest.contains(c) {
            let b = choose|b: int| 0 <= b < rest.len() && rest[b] == c;
            assert(pool[b] == c);
        }
    }
    assert forall|i: int| 0 <= i < ns.len() implies (#[trigger] group_dealt(pool, ns, i)).len()
        == ns[i] by {
        lemma_total_prefix(ns, i);
    }
}

/// The requests of a shorter prefix sum to no more than those of a longer.
proof fn lemma_total_steps(ns: Seq<nat>, a: int, b: int)
    requires
        0 <= a <= b <= ns.len(),
    ensures
        total_requested(ns.take(a)) <= total_requested(ns.take(b)),
{
    lemma_total_prefix(ns.take(b), a);
    assert(ns.take(b).take(a) =~= ns.take(a));
}

} // verus!
