//! The strength of a hand: its category and the key that orders hands of
//! one category. The order of strengths is defined here and nowhere else.

use std::cmp::Ordering;
use vstd::prelude::*;

verus! {

/// The ten categories of poker hands, weakest first. A royal flush is the
/// ace-high straight flush, told apart by name only.
#[derive(Clone, Copy, Debug, PartialEq, Eq, Structural, Hash, PartialOrd, Ord)]
pub enum HandCategory {
    HighCard,
    Pair,
    TwoPair,
    ThreeOfAKind,
    Straight,
    Flush,
    FullHouse,
    FourOfAKind,
    StraightFlush,
    RoyalFlush,
}

/// The key that orders hands within one category: up to five rank values,
/// the most significant first, zero where the category needs no further
/// value.
///
/// - Pair, three and four of a kind: the rank of the group, then the other
///   ranks from high to low.
/// - Two pair: the higher pair, the lower pair, the fifth card.
/// - Full house: the triple, then the pair.
/// - Straight, straight flush, royal flush: the highest card of the run,
///   which is 5 for ace to five.
/// - Flush and high card: the ranks from high to low.
#[derive(Clone, Copy, Debug, PartialEq, Eq, Structural, Hash)]
pub struct TieBreak {
    pub k0: u8,
    pub k1: u8,
    pub k2: u8,
    pub k3: u8,
    pub k4: u8,
}

/// The strength of a hand.
#[derive(Clone, Copy, Debug, PartialEq, Eq, Structural, Hash)]
pub struct HandRank {
    pub category: HandCategory,
    pub tiebreak: TieBreak,
}

impl HandCategory {
    /// Place of the category in the order, 0 for high card up to 9 for
    /// royal flush.
    pub open spec fn spec_index(&self) -> u8 {
        match self {
            HandCategory::HighCard => 0,
            HandCategory::Pair => 1,
            HandCategory::TwoPair => 2,
            HandCategory::ThreeOfAKind => 3,
            HandCategory::Straight => 4,
            HandCategory::Flush => 5,
            HandCategory::FullHouse => 6,
            HandCategory::FourOfAKind => 7,
            HandCategory::StraightFlush => 8,
            HandCategory::RoyalFlush => 9,
        }
    }

    /// Place of the category in the order, 0 for high card up to 9 for
    /// royal flush.
    #[verifier::when_used_as_spec(spec_index)]
    pub fn index(&self) -> (i: u8)
        ensures
            i == self.spec_index(),
            i <= 9,
    {
        match self {
            HandCategory::HighCard => 0,
            HandCategory::Pair => 1,
            HandCategory::TwoPair => 2,
            HandCategory::ThreeOfAKind => 3,
            HandCategory::Straight => 4,
            HandCategory::Flush => 5,
            HandCategory::FullHouse => 6,
            HandCategory::FourOfAKind => 7,
            HandCategory::StraightFlush => 8,
            HandCategory::RoyalFlush => 9,
        }
    }
}

impl TieBreak {
    /// The key as a sequence, most significant value first.
    pub open spec fn values(&self) -> Seq<u8> {
        seq![self.k0, self.k1, self.k2, self.k3, self.k4]
    }

    /// The key read as one number in base 256.
    pub open spec fn weight(&self) -> int {
        (((self.k0 * 256 + self.k1) * 256 + self.k2) * 256 + self.k3) * 256 + self.k4
    }

    /// The key as a vector, most significant value first.
    pub fn to_vec(&self) -> (v: Vec<u8>)
        ensures
            v@ == self.values(),
    {
        let v = vec![self.k0, self.k1, self.k2, self.k3, self.k4];
        proof {
            assert(v@ =~= self.values());
        }
        v
    }
}

impl HandRank {
    /// The strength as one number: a hand is stronger than another exactly
    /// when its number is larger. The category counts first, the key
    /// second.
    pub open spec fn strength(&self) -> int {
        self.category.spec_index() * 0x100_0000_0000 + self.tiebreak.weight()
    }

    /// Orders two strengths: by category, and within one category by key.
    /// `Equal` means an exact tie.
    pub fn compare(&self, other: &HandRank) -> (o: Ordering)
        ensures
            o == Ordering::Less <==> self.strength() < other.strength(),
            o == Ordering::Equal <==> self.strength() == other.strength(),
            o == Ordering::Greater <==> self.strength() > other.strength(),
            o == Ordering::Equal <==> *self == *other,
    {
        proof {
            lemma_strength_order(*self, *other);
        }
        let a = self.category.index();
        let b = other.category.index();
        if a < b {
            Ordering::Less
        } else if a > b {
            Ordering::Greater
        } else if self.tiebreak.k0 != other.tiebreak.k0 {
            if self.tiebreak.k0 < other.tiebreak.k0 {
                Ordering::Less
            } else {
                Ordering::Greater
            }
        } else if self.tiebreak.k1 != other.tiebreak.k1 {
            if self.tiebreak.k1 < other.tiebreak.k1 {
                Ordering::Less
            } else {
                Ordering::Greater
            }
        } else if self.tiebreak.k2 != other.tiebreak.k2 {
            if self.tiebreak.k2 < other.tiebreak.k2 {
                Ordering::Less
            } else {
                Ordering::Greater
            }
        } else if self.tiebreak.k3 != other.tiebreak.k3 {
            if self.tiebreak.k3 < other.tiebreak.k3 {
                Ordering::Less
            } else {
                Ordering::Greater
            }
        } else if self.tiebreak.k4 != other.tiebreak.k4 {
            if self.tiebreak.k4 < other.tiebreak.k4 {
                Ordering::Less
            } else {
                Ordering::Greater
            }
        } else {
            Ordering::Equal
        }
    }

    /// Whether this strength wins against the other.
    pub fn beats(&self, other: &HandRank) -> (b: bool)
        ensures
            b == (self.strength() > other.strength()),
    {
        match self.compare(other) {
            Ordering::Greater => true,
            _ => false,
        }
    }

    /// Whether the two strengths tie exactly: same category, same key.
    pub fn ties(&self, other: &HandRank) -> (b: bool)
        ensures
            b == (self.strength() == other.strength()),
            b == (self.category == other.category && self.tiebreak == other.tiebreak),
    {
        match self.compare(other) {
            Ordering::Equal => true,
            _ => false,
        }
    }
}

/// The stronger of two strengths; the first where they tie.
pub open spec fn stronger(a: HandRank, b: HandRank) -> HandRank {
    if b.strength() > a.strength() {
        b
    } else {
        a
    }
}

/// The number of a strength orders as category first and key second, value
/// by value, and two strengths with one number are the same.
pub proof fn lemma_strength_order(a: HandRank, b: HandRank)
    ensures
        a.category.spec_index() < b.category.spec_index() ==> a.strength() < b.strength(),
        a.category == b.category ==> (a.strength() < b.strength() <==> a.tiebreak.weight()
            < b.tiebreak.weight()),
        a.tiebreak.k0 < b.tiebreak.k0 ==> a.tiebreak.weight() < b.tiebreak.weight(),
        a.tiebreak.k0 == b.tiebreak.k0 && a.tiebreak.k1 < b.tiebreak.k1 ==> a.tiebreak.weight()
            < b.tiebreak.weight(),
        a.tiebreak.k0 == b.tiebreak.k0 && a.tiebreak.k1 == b.tiebreak.k1 && a.tiebreak.k2
            < b.tiebreak.k2 ==> a.tiebreak.weight() < b.tiebreak.weight(),
        a.tiebreak.k0 == b.tiebreak.k0 && a.tiebreak.k1 == b.tiebreak.k1 && a.tiebreak.k2
            == b.tiebreak.k2 && a.tiebreak.k3 < b.tiebreak.k3 ==> a.tiebreak.weight()
            < b.tiebreak.weight(),
        a.tiebreak.k0 == b.tiebreak.k0 && a.tiebreak.k1 == b.tiebreak.k1 && a.tiebreak.k2
            == b.tiebreak.k2 && a.tiebreak.k3 == b.tiebreak.k3 ==> (a.tiebreak.weight()
            < b.tiebreak.weight() <==> a.tiebreak.k4 < b.tiebreak.k4),
        a.strength() == b.strength() <==> a == b,
        0 <= a.tiebreak.weight() < 0x100_0000_0000,
{
    assert(a.category.spec_index() == b.category.spec_index() ==> a.category == b.category);
}

/// The order of strengths is total: of two strengths exactly one is
/// stronger, or they are the same strength.
pub proof fn lemma_order_total(a: HandRank, b: HandRank)
    ensures
        a.strength() < b.strength() || a.strength() > b.strength() || a == b,
        a == b ==> a.strength() == b.strength(),
{
    lemma_strength_order(a, b);
}

/// The order of strengths is transitive.
pub proof fn lemma_order_transitive(a: HandRank, b: HandRank, c: HandRank)
    requires
        a.strength() <= b.strength(),
        b.strength() <= c.strength(),
    ensures
        a.strength() <= c.strength(),
        a.strength() < b.strength() || b.strength() < c.strength() ==> a.strength() < c.strength(),
{
}

/// The category decides first: a hand of a higher category is stronger,
/// whatever the keys. So royal flush beats straight flush, which beats four
/// of a kind, full house, flush, straight, three of a kind, two pair, pair
/// and high card, in this order.
pub proof fn lemma_category_decides(a: HandRank, b: HandRank)
    requires
        a.category.spec_index() > b.category.spec_index(),
    ensures
        a.strength() > b.strength(),
{
    lemma_strength_order(b, a);
}

/// Two hands of the same category and key tie exactly.
pub proof fn lemma_same_key_ties(a: HandRank, b: HandRank)
    requires
        a.category == b.category,
        a.tiebreak == b.tiebreak,
    ensures
        a.strength() == b.strength(),
        a == b,
{
}

} // verus!
