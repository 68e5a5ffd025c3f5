//! A player at the table: name, chips, hole cards, and what the evaluator
//! last said of the hand.

use crate::card::{cards_svg, Card, Rank, Suit};
use crate::evaluator::{best_rank, HandEvaluator};
use crate::hand::{copy_cards, Hand, HandError, MAX_HAND_SIZE};
use crate::rank::HandRank;
use vstd::prelude::*;

verus! {

/// A player.
#[derive(Debug)]
pub struct Player {
    /// The name by which the table finds the player.
    pub name: String,
    /// The hole cards; `None` before the deal.
    pub hand: Option<Hand>,
    /// The hole cards followed by the board, as the evaluator gets them;
    /// `None` until the board is merged in.
    pub board_hand: Option<Hand>,
    /// The chip stack. It goes below zero only when the engine is used
    /// wrongly.
    pub chips: i32,
    /// Whether the player is the one to act.
    pub is_turn: bool,
    /// The strength that the evaluator last found; `None` before it ran.
    pub rank: Option<HandRank>,
}

/// A player as the contracts see it: every field by its value.
pub struct PlayerView {
    pub name: Seq<char>,
    pub hand: Option<Seq<Card>>,
    pub board_hand: Option<Seq<Card>>,
    pub chips: int,
    pub is_turn: bool,
    pub rank: Option<HandRank>,
}

/// The cards of a hand that may not be there.
pub open spec fn hand_view(h: Option<Hand>) -> Option<Seq<Card>> {
    match h {
        Some(hand) => Some(hand@),
        None => None,
    }
}

impl View for Player {
    type V = PlayerView;

    open spec fn view(&self) -> PlayerView {
        PlayerView {
            name: self.name@,
            hand: hand_view(self.hand),
            board_hand: hand_view(self.board_hand),
            chips: self.chips as int,
            is_turn: self.is_turn,
            rank: self.rank,
        }
    }
}

impl PlayerView {
    /// A player who has just sat down: the name, no chips, no cards, not
    /// to act.
    pub open spec fn fresh(name: Seq<char>) -> PlayerView {
        PlayerView {
            name: name,
            hand: None,
            board_hand: None,
            chips: 0,
            is_turn: false,
            rank: None,
        }
    }

    /// The hole cards; none before the deal.
    pub open spec fn hole_cards(self) -> Seq<Card> {
        match self.hand {
            Some(cards) => cards,
            None => Seq::empty(),
        }
    }

    /// The player with new hole cards: the merged hand and the strength of
    /// the old cards are gone.
    pub open spec fn with_hole_cards(self, cards: Seq<Card>) -> PlayerView {
        PlayerView { hand: Some(cards), board_hand: None, rank: None, ..self }
    }

    /// Whether the board can be merged in: the player has hole cards, and
    /// with the board they are no more than a hand holds.
    pub open spec fn can_merge(self, board: Seq<Card>) -> bool {
        self.hand is Some && self.hole_cards().len() + board.len() <= MAX_HAND_SIZE
    }

    /// The player after the board is merged in; the same player where it
    /// cannot be.
    pub open spec fn with_board(self, board: Seq<Card>) -> PlayerView {
        if self.can_merge(board) {
            PlayerView { board_hand: Some(self.hole_cards() + board), ..self }
        } else {
            self
        }
    }

    /// The cards that the evaluator is to look at: hole cards and board
    /// where merged, else the hole cards, else nothing.
    pub open spec fn cards_to_rank(self) -> Option<Seq<Card>> {
        if self.board_hand is Some {
            self.board_hand
        } else {
            self.hand
        }
    }

    /// The player after the evaluator ran.
    pub open spec fn evaluated(self) -> PlayerView {
        match self.cards_to_rank() {
            Some(cards) => PlayerView { rank: Some(best_rank(cards)), ..self },
            None => self,
        }
    }
}

/// A copy of a hand that may not be there.
pub fn copy_hand(h: &Option<Hand>) -> (copy: Option<Hand>)
    ensures
        hand_view(copy) == hand_view(*h),
{
    match h {
        Some(hand) => Some(hand.clone()),
        None => None,
    }
}

impl Clone for Player {
    fn clone(&self) -> (copy: Player)
        ensures
            copy@ == self@,
    {
        Player {
            name: self.name.clone(),
            hand: copy_hand(&self.hand),
            board_hand: copy_hand(&self.board_hand),
            chips: self.chips,
            is_turn: self.is_turn,
            rank: self.rank,
        }
    }
}

impl Player {
    /// A player with the given name, no chips and no cards, not to act.
    pub fn new(name: String) -> (p: Player)
        ensures
            p@ == PlayerView::fresh(name@),
    {
        Player { name, hand: None, board_hand: None, chips: 0, is_turn: false, rank: None }
    }

    /// Gives the player new hole cards in place of any earlier ones. What
    /// was merged and ranked for the earlier cards is dropped.
    pub fn add_hand(&mut self, h: Hand)
        ensures
            final(self)@ == old(self)@.with_hole_cards(h@),
    {
        self.hand = Some(h);
        self.board_hand = None;
        self.rank = None;
    }

    /// Merges the board into the hand for the evaluator: the hole cards
    /// followed by the cards of `h`. The hole cards themselves stay as they
    /// are. A player without hole cards is left unchanged. Where hole cards
    /// and board together are more than a hand holds, nothing changes and
    /// the error carries their number.
    pub fn update_hand(&mut self, h: Hand) -> (done: Result<(), HandError>)
        ensures
            final(self)@ == old(self)@.with_board(h@),
            old(self).hand is Some && old(self)@.hole_cards().len() + h@.len() > MAX_HAND_SIZE
                ==> done == Err::<(), HandError>(
                HandError::InvalidSize((old(self)@.hole_cards().len() + h@.len()) as usize),
            ),
            old(self).hand is None || old(self)@.hole_cards().len() + h@.len() <= MAX_HAND_SIZE
                ==> done is Ok,
    {
        match &self.hand {
            Some(hole) => {
                let mut merged = copy_cards(hole.cards());
                let board = h.cards();
                let mut i: usize = 0;
                while i < board.len()
                    invariant
                        i <= board@.len(),
                        board@.len() <= MAX_HAND_SIZE,
                        hole@.len() <= MAX_HAND_SIZE,
                        merged@ == hole@ + board@.subrange(0, i as int),
                    decreases board@.len() - i,
                {
                    merged.push(board[i]);
                    proof {
                        assert(merged@ =~= hole@ + board@.subrange(0, i + 1));
                    }
                    i += 1;
                }
                proof {
                    assert(board@.subrange(0, i as int) =~= board@);
                }
                match Hand::new(merged) {
                    Ok(hand) => {
                        self.board_hand = Some(hand);
                        Ok(())
                    },
                    Err(e) => Err(e),
                }
            },
            None => Ok(()),
        }
    }

    /// Runs the evaluator on the merged hand, or on the hole cards where no
    /// board was merged in, and keeps the strength. A player without cards
    /// is left unchanged.
    pub fn evaluate(&mut self)
        ensures
            final(self)@ == old(self)@.evaluated(),
    {
        match &self.board_hand {
            Some(hand) => {
                self.rank = Some(HandEvaluator::evaluate(hand));
            },
            None => {
                match &self.hand {
                    Some(hand) => {
                        self.rank = Some(HandEvaluator::evaluate(hand));
                    },
                    None => {},
                }
            },
        }
    }

    /// The names of the images of the hole cards, in their order; none for
    /// a player without cards.
    pub fn get_cards_svg(self) -> (names: Vec<String>)
        ensures
            names@.len() == self@.hole_cards().len(),
            forall|i: int|
                0 <= i < names@.len() ==> (#[trigger] names@[i])@ == self@.hole_cards()[i].svg_text(),
    {
        match &self.hand {
            Some(hand) => cards_svg(hand.cards()),
            None => Vec::new(),
        }
    }
}

/// Rank and suit of each card of the hand, in its order: all that drawing a
/// card needs.
pub fn hand_to_display_tokens(hand: &Hand) -> (tokens: Vec<(Rank, Suit)>)
    ensures
        tokens@.len() == hand@.len(),
        forall|i: int|
            0 <= i < hand@.len() ==> #[trigger] tokens@[i] == (hand@[i].rank, hand@[i].suit),
{
    let cards = hand.cards();
    let mut tokens: Vec<(Rank, Suit)> = Vec::new();
    let mut i: usize = 0;
    while i < cards.len()
        invariant
            i <= cards@.len(),
            cards@ == hand@,
            tokens@.len() == i,
            forall|j: int| 0 <= j < i ==> #[trigger] tokens@[j] == (hand@[j].rank, hand@[j].suit),
        decreases cards@.len() - i,
    {
        tokens.push((cards[i].rank, cards[i].suit));
        i += 1;
    }
    tokens
}

} // verus!
