//! A hand: up to seven cards in the order in which they were given.

use crate::card::Card;
use vstd::prelude::*;
use vstd::string::StringExecFns;

verus! {

/// The most cards a hand can hold: two hole cards and five on the board.
pub const MAX_HAND_SIZE: usize = 7;

/// Why a hand could not be made.
#[derive(Clone, Copy, Debug, PartialEq, Eq, Structural)]
pub enum HandError {
    /// More cards were given than a hand can hold; carries their number.
    InvalidSize(usize),
}

/// The text of a run of cards: each card's two characters, one space
/// between neighbours.
pub open spec fn cards_text(cards: Seq<Card>) -> Seq<char>
    decreases cards.len(),
{
    if cards.len() == 0 {
        Seq::empty()
    } else if cards.len() == 1 {
        cards[0].text()
    } else {
        cards_text(cards.drop_last()) + seq![' '] + cards.last().text()
    }
}

/// A copy of a run of cards.
pub fn copy_cards(cards: &Vec<Card>) -> (copy: Vec<Card>)
    ensures
        copy@ == cards@,
{
    let mut copy: Vec<Card> = Vec::new();
    let mut i: usize = 0;
    while i < cards.len()
        invariant
            i <= cards@.len(),
            copy@ == cards@.subrange(0, i as int),
        decreases cards@.len() - i,
    {
        copy.push(cards[i]);
        proof {
            assert(copy@ =~= cards@.subrange(0, i + 1));
        }
        i += 1;
    }
    proof {
        assert(copy@ =~= cards@);
    }
    copy
}

/// An ordered run of at most seven cards.
#[derive(Debug)]
pub struct Hand {
    cards: Vec<Card>,
}

impl View for Hand {
    type V = Seq<Card>;

    closed spec fn view(&self) -> Seq<Card> {
        self.cards@
    }
}

impl Clone for Hand {
    fn clone(&self) -> (copy: Hand)
        ensures
            copy@ == self@,
    {
        proof {
            use_type_invariant(self);
        }
        Hand { cards: copy_cards(&self.cards) }
    }
}

impl Hand {
    /// A hand never holds more than seven cards.
    #[verifier::type_invariant]
    pub open spec fn wf(&self) -> bool {
        self@.len() <= MAX_HAND_SIZE
    }

    /// Makes a hand of the given cards in their order. More than seven
    /// cards are refused, with their number in the error.
    pub fn new(cards: Vec<Card>) -> (made: Result<Hand, HandError>)
        ensures
            cards@.len() <= MAX_HAND_SIZE ==> made is Ok && made->Ok_0@ == cards@,
            cards@.len() > MAX_HAND_SIZE ==> made == Err::<Hand, HandError>(
                HandError::InvalidSize(cards.len()),
            ),
    {
        if cards.len() > MAX_HAND_SIZE {
            return Err(HandError::InvalidSize(cards.len()));
        }
        Ok(Hand { cards })
    }

    /// Number of cards in the hand.
    pub fn len(&self) -> (n: usize)
        ensures
            n == self@.len(),
            n <= MAX_HAND_SIZE,
    {
        proof {
            use_type_invariant(self);
        }
        self.cards.len()
    }

    /// The cards of the hand in their order.
    pub fn cards(&self) -> (cards: &Vec<Card>)
        ensures
            cards@ == self@,
            cards@.len() <= MAX_HAND_SIZE,
    {
        proof {
            use_type_invariant(self);
        }
        &self.cards
    }

    /// Whether the first two cards have the same rank. A hand of fewer than
    /// two cards is not paired.
    pub fn _paired_hand(&self) -> (paired: bool)
        ensures
            paired == (self@.len() >= 2 && self@[0].rank == self@[1].rank),
    {
        self.cards.len() >= 2 && self.cards[0].rank == self.cards[1].rank
    }

    /// The hand as text: the cards' two characters each, separated by one
    /// space, such as `Ah Kd`.
    pub fn to_string(&self) -> (s: String)
        ensures
            s@ == cards_text(self@),
    {
        let mut s = String::new();
        let mut i: usize = 0;
        while i < self.cards.len()
            invariant
                i <= self.cards@.len(),
                s@ == cards_text(self.cards@.subrange(0, i as int)),
            decreases self.cards@.len() - i,
        {
            proof {
                let prefix = self.cards@.subrange(0, i + 1);
                assert(prefix.drop_last() =~= self.cards@.subrange(0, i as int));
                assert(prefix.last() == self.cards@[i as int]);
                reveal_strlit(" ");
                assert(" "@ =~= seq![' ']);
            }
            if i > 0 {
                s.append(" ");
            }
            let text = self.cards[i].as_string();
            s.append(text.as_str());
            proof {
                assert(s@ =~= cards_text(self.cards@.subrange(0, i + 1)));
            }
            i += 1;
        }
        proof {
            assert(self.cards@.subrange(0, i as int) =~= self.cards@);
        }
        s
    }
}

} // verus!
