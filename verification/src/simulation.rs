//! Counting pocket pairs over many hands of two cards dealt from shuffled
//! decks.

use crate::card::{Card, Rank};
use crate::deck::Deck;
use crate::hand::Hand;
use vstd::prelude::*;

verus! {

/// How many hands were dealt, and how many of them were a pair of each
/// rank.
#[derive(Clone, Copy, Debug, PartialEq, Eq, Structural)]
pub struct MonteCarloPairDistribution {
    pub total_hands: u32,
    pub deuces: usize,
    pub threes: usize,
    pub fours: usize,
    pub fives: usize,
    pub sixes: usize,
    pub sevens: usize,
    pub eights: usize,
    pub nines: usize,
    pub tens: usize,
    pub jacks: usize,
    pub queens: usize,
    pub kings: usize,
    pub aces: usize,
}

/// The rank of which the first two cards are a pair, where they are one.
pub open spec fn pocket_pair(cards: Seq<Card>) -> Option<Rank> {
    if cards.len() >= 2 && cards[0].rank == cards[1].rank {
        Some(cards[0].rank)
    } else {
        None
    }
}

impl Default for MonteCarloPairDistribution {
    fn default() -> (d: MonteCarloPairDistribution)
        ensures
            d.total_hands == 0,
            d.pairs() == 0,
            forall|r: Rank| d.count_for(r) == 0,
    {
        MonteCarloPairDistribution {
            total_hands: 0,
            deuces: 0,
            threes: 0,
            fours: 0,
            fives: 0,
            sixes: 0,
            sevens: 0,
            eights: 0,
            nines: 0,
            tens: 0,
            jacks: 0,
            queens: 0,
            kings: 0,
            aces: 0,
        }
    }
}

impl MonteCarloPairDistribution {
    /// The number of pairs counted for a rank.
    pub open spec fn count_for(self, r: Rank) -> usize {
        match r {
            Rank::Two => self.deuces,
            Rank::Three => self.threes,
            Rank::Four => self.fours,
            Rank::Five => self.fives,
            Rank::Six => self.sixes,
            Rank::Seven => self.sevens,
            Rank::Eight => self.eights,
            Rank::Nine => self.nines,
            Rank::Ten => self.tens,
            Rank::Jack => self.jacks,
            Rank::Queen => self.queens,
            Rank::King => self.kings,
            Rank::Ace => self.aces,
        }
    }

    /// The number of pairs counted, of all ranks together.
    pub open spec fn pairs(self) -> int {
        self.deuces + self.threes + self.fours + self.fives + self.sixes + self.sevens
            + self.eights + self.nines + self.tens + self.jacks + self.queens + self.kings
            + self.aces
    }
}

/// Counts the hand where its first two cards are a pair: the count of
/// their rank goes up by one. Every other count, and the number of hands,
/// stays.
pub fn track_simulation_pairs(
    pair_distribution: MonteCarloPairDistribution,
    h: Hand,
) -> (counted: MonteCarloPairDistribution)
    requires
        h@.len() >= 2,
        pair_distribution.pairs() < usize::MAX,
    ensures
        counted.total_hands == pair_distribution.total_hands,
        forall|r: Rank|
            counted.count_for(r) == pair_distribution.count_for(r) + if pocket_pair(h@) == Some(
                r,
            ) {
                1int
            } else {
                0int
            },
        counted.pairs() == pair_distribution.pairs() + if pocket_pair(h@) is Some {
            1int
        } else {
            0int
        },
{
    let mut pair_distribution = pair_distribution;
    let cards = h.cards();
    match (cards[0].rank, cards[1].rank) {
        (Rank::Two, Rank::Two) => pair_distribution.deuces += 1,
        (Rank::Three, Rank::Three) => pair_distribution.threes += 1,
        (Rank::Four, Rank::Four) => pair_distribution.fours += 1,
        (Rank::Five, Rank::Five) => pair_distribution.fives += 1,
        (Rank::Six, Rank::Six) => pair_distribution.sixes += 1,
        (Rank::Seven, Rank::Seven) => pair_distribution.sevens += 1,
        (Rank::Eight, Rank::Eight) => pair_distribution.eights += 1,
        (Rank::Nine, Rank::Nine) => pair_distribution.nines += 1,
        (Rank::Ten, Rank::Ten) => pair_distribution.tens += 1,
        (Rank::Jack, Rank::Jack) => pair_distribution.jacks += 1,
        (Rank::Queen, Rank::Queen) => pair_distribution.queens += 1,
        (Rank::King, Rank::King) => pair_distribution.kings += 1,
        (Rank::Ace, Rank::Ace) => pair_distribution.aces += 1,
        _ => {},
    }
    pair_distribution
}

/// Deals `n_sims` hands of two cards and counts the pocket pairs among
/// them. The deck is shuffled, and replaced by a new shuffled deck as soon
/// as it is used up, so every hand is dealt. Which pairs come is up to the
/// shuffles; there are never more pairs than hands.
pub fn simulation_builder(n_sims: u32) -> (tracker: MonteCarloPairDistribution)
    ensures
        tracker.total_hands == n_sims,
        0 <= tracker.pairs() <= n_sims,
{
    let mut pair_tracker = MonteCarloPairDistribution::default();
    pair_tracker.total_hands = n_sims;
    let mut deck = Deck::new();
    deck.shuffle();
    let mut i: u32 = 0;
    while i < n_sims
        invariant
            i <= n_sims,
            pair_tracker.total_hands == n_sims,
            0 <= pair_tracker.pairs() <= i,
            2 <= deck@.len() <= 52,
            deck@.len() % 2 == 0,
        decreases n_sims - i,
    {
        let dealt = deck.deal(2);
        if deck.is_empty() {
            deck = Deck::new();
            deck.shuffle();
        }
        match dealt {
            Some(cards) => {
                match Hand::new(cards) {
                    Ok(sim_hand) => {
                        pair_tracker = track_simulation_pairs(pair_tracker, sim_hand);
                    },
                    Err(_) => {},
                }
            },
            None => {},
        }
        i += 1;
    }
    pair_tracker
}

} // verus!
