//! Playing cards: rank, suit, and the pair of both.

use vstd::prelude::*;
use vstd::string::StringExecFns;

verus! {

/// The thirteen ranks, lowest first. The ace is the highest rank; only in
/// the five-high straight does it stand below the two.
#[derive(Clone, Copy, Debug, PartialEq, Eq, Structural, Hash, PartialOrd, Ord)]
pub enum Rank {
    Two,
    Three,
    Four,
    Five,
    Six,
    Seven,
    Eight,
    Nine,
    Ten,
    Jack,
    Queen,
    King,
    Ace,
}

/// The four suits. Suits are not ordered; only equality matters.
#[derive(Clone, Copy, Debug, PartialEq, Eq, Structural, Hash)]
pub enum Suit {
    Hearts,
    Diamonds,
    Clubs,
    Spades,
}

/// One playing card.
#[derive(Clone, Copy, Debug, PartialEq, Eq, Structural, Hash)]
pub struct Card {
    pub rank: Rank,
    pub suit: Suit,
}

impl Rank {
    /// Face value of the rank: 2 for the two up to 14 for the ace.
    pub open spec fn spec_value(&self) -> u8 {
        match self {
            Rank::Two => 2,
            Rank::Three => 3,
            Rank::Four => 4,
            Rank::Five => 5,
            Rank::Six => 6,
            Rank::Seven => 7,
            Rank::Eight => 8,
            Rank::Nine => 9,
            Rank::Ten => 10,
            Rank::Jack => 11,
            Rank::Queen => 12,
            Rank::King => 13,
            Rank::Ace => 14,
        }
    }

    /// The character a rank is written with.
    pub open spec fn symbol(self) -> char {
        match self {
            Rank::Two => '2',
            Rank::Three => '3',
            Rank::Four => '4',
            Rank::Five => '5',
            Rank::Six => '6',
            Rank::Seven => '7',
            Rank::Eight => '8',
            Rank::Nine => '9',
            Rank::Ten => 'T',
            Rank::Jack => 'J',
            Rank::Queen => 'Q',
            Rank::King => 'K',
            Rank::Ace => 'A',
        }
    }

    /// Face value of the rank, from 2 to 14.
    #[verifier::when_used_as_spec(spec_value)]
    pub fn value(&self) -> (v: u8)
        ensures
            v == self.spec_value(),
            2 <= v <= 14,
    {
        match self {
            Rank::Two => 2,
            Rank::Three => 3,
            Rank::Four => 4,
            Rank::Five => 5,
            Rank::Six => 6,
            Rank::Seven => 7,
            Rank::Eight => 8,
            Rank::Nine => 9,
            Rank::Ten => 10,
            Rank::Jack => 11,
            Rank::Queen => 12,
            Rank::King => 13,
            Rank::Ace => 14,
        }
    }

    /// The rank as one character: a digit for two to nine, then `T`, `J`,
    /// `Q`, `K`, `A`.
    pub fn to_string(&self) -> (s: &'static str)
        ensures
            s@ == seq![self.symbol()],
    {
        proof {
            reveal_strlit("2");
            reveal_strlit("3");
            reveal_strlit("4");
            reveal_strlit("5");
            reveal_strlit("6");
            reveal_strlit("7");
            reveal_strlit("8");
            reveal_strlit("9");
            reveal_strlit("T");
            reveal_strlit("J");
            reveal_strlit("Q");
            reveal_strlit("K");
            reveal_strlit("A");
        }
        let s = match self {
            Rank::Two => "2",
            Rank::Three => "3",
            Rank::Four => "4",
            Rank::Five => "5",
            Rank::Six => "6",
            Rank::Seven => "7",
            Rank::Eight => "8",
            Rank::Nine => "9",
            Rank::Ten => "T",
            Rank::Jack => "J",
            Rank::Queen => "Q",
            Rank::King => "K",
            Rank::Ace => "A",
        };
        assert(s@ =~= seq![self.symbol()]);
        s
    }
}

impl Suit {
    /// The character a suit is written with.
    pub open spec fn symbol(self) -> char {
        match self {
            Suit::Hearts => 'h',
            Suit::Diamonds => 'd',
            Suit::Clubs => 'c',
            Suit::Spades => 's',
        }
    }

    /// The suit as one lower-case letter.
    pub fn to_string(&self) -> (s: &'static str)
        ensures
            s@ == seq![self.symbol()],
    {
        proof {
            reveal_strlit("h");
            reveal_strlit("d");
            reveal_strlit("c");
            reveal_strlit("s");
        }
        let s = match self {
            Suit::Hearts => "h",
            Suit::Diamonds => "d",
            Suit::Clubs => "c",
            Suit::Spades => "s",
        };
        assert(s@ =~= seq![self.symbol()]);
        s
    }
}

impl Suit {
    /// The capital letter of a suit, as the names of card images have it.
    pub open spec fn capital(self) -> char {
        match self {
            Suit::Hearts => 'H',
            Suit::Diamonds => 'D',
            Suit::Clubs => 'C',
            Suit::Spades => 'S',
        }
    }
}

impl Card {
    /// The name of the image of a card: rank, capital of the suit, and the
    /// ending `.svg`.
    pub open spec fn svg_text(self) -> Seq<char> {
        seq![self.rank.symbol(), self.suit.capital(), '.', 's', 'v', 'g']
    }

    /// The name of the image of the card, such as `AS.svg` or `TC.svg`.
    pub fn svg_name(&self) -> (s: String)
        ensures
            s@ == self.svg_text(),
    {
        proof {
            reveal_strlit("H.svg");
            reveal_strlit("D.svg");
            reveal_strlit("C.svg");
            reveal_strlit("S.svg");
        }
        let tail = match self.suit {
            Suit::Hearts => "H.svg",
            Suit::Diamonds => "D.svg",
            Suit::Clubs => "C.svg",
            Suit::Spades => "S.svg",
        };
        let mut s = self.rank.to_string().to_owned();
        s.append(tail);
        assert(s@ =~= self.svg_text());
        s
    }

    /// The two characters a card is written with: rank, then suit.
    pub open spec fn text(self) -> Seq<char> {
        seq![self.rank.symbol(), self.suit.symbol()]
    }

    pub fn new(rank: &Rank, suit: &Suit) -> (c: Card)
        ensures
            c.rank == *rank,
            c.suit == *suit,
    {
        Card { rank: *rank, suit: *suit }
    }

    /// The card as two characters, such as `Ah` or `Tc`.
    pub fn as_string(&self) -> (s: String)
        ensures
            s@ == self.text(),
    {
        let mut s = self.rank.to_string().to_owned();
        s.append(self.suit.to_string());
        assert(s@ =~= self.text());
        s
    }
}

/// Whether no card occurs twice among the cards.
pub fn all_distinct(cards: &Vec<Card>) -> (distinct: bool)
    ensures
        distinct == cards@.no_duplicates(),
{
    let mut i: usize = 0;
    while i < cards.len()
        invariant
            i <= cards@.len(),
            forall|a: int, b: int| 0 <= a < b < cards@.len() && a < i ==> cards@[a] != cards@[b],
        decreases cards@.len() - i,
    {
        let mut j: usize = i + 1;
        while j < cards.len()
            invariant
                i < j <= cards@.len(),
                forall|a: int, b: int|
                    0 <= a < b < cards@.len() && a < i ==> cards@[a] != cards@[b],
                forall|b: int| i < b < j ==> cards@[i as int] != cards@[b],
            decreases cards@.len() - j,
        {
            if cards[i] == cards[j] {
                return false;
            }
            j += 1;
        }
        i += 1;
    }
    true
}

/// The names of the images of the cards, in their order.
pub fn cards_svg(cards: &Vec<Card>) -> (names: Vec<String>)
    ensures
        names@.len() == cards@.len(),
        forall|i: int| 0 <= i < cards@.len() ==> (#[trigger] names@[i])@ == cards@[i].svg_text(),
{
    let mut names: Vec<String> = Vec::new();
    let mut i: usize = 0;
    while i < cards.len()
        invariant
            i <= cards@.len(),
            names@.len() == i,
            forall|j: int| 0 <= j < i ==> (#[trigger] names@[j])@ == cards@[j].svg_text(),
        decreases cards@.len() - i,
    {
        names.push(cards[i].svg_name());
        i += 1;
    }
    names
}

} // verus!
