//! One hand of play as a state machine over values: what each step of the
//! controller checks and what it makes of the state.
//!
//! The steps run in one order: blinds, hole cards, flop, up to two more
//! board cards, showdown. Every function here is a definition; the
//! controller is proved to do what they say.

use crate::card::Card;
use crate::decisions::PlayerDecisions;
use crate::error::EngineError;
use crate::player::PlayerView;
use crate::table::GameView;
use vstd::prelude::*;

verus! {

/// How far the hand of play has come.
#[derive(Clone, Copy, Debug, PartialEq, Eq, Structural, Hash)]
pub enum Phase {
    Created,
    BlindsPosted,
    HoleCardsDealt,
    FlopDealt,
    TurnDealt,
    RiverDealt,
    Showdown,
}

/// The controller as the contracts see it: every field by its value.
pub struct GameMasterView {
    pub gamestate: GameView,
    pub players: Seq<PlayerView>,
    pub small_blind: Option<i32>,
    pub big_blind: Option<i32>,
    pub bb_position: usize,
    pub player_log: Seq<PlayerDecisions>,
    pub turn_index: usize,
    pub active_player_count: usize,
    pub phase: Phase,
    pub skipped_seats: Seq<usize>,
}

/// The roster after the player at `seat` paid `amount`; the same roster
/// where nobody sits there.
pub open spec fn charge(roster: Seq<PlayerView>, seat: Option<int>, amount: int) -> Seq<
    PlayerView,
> {
    match seat {
        Some(i) => if 0 <= i < roster.len() {
            roster.update(i, PlayerView { chips: roster[i].chips - amount, ..roster[i] })
        } else {
            roster
        },
        None => roster,
    }
}

/// The roster with the player at `seat` marked as the one to act; the same
/// roster where nobody sits there.
pub open spec fn mark_turn(roster: Seq<PlayerView>, seat: int) -> Seq<PlayerView> {
    if 0 <= seat < roster.len() {
        roster.update(seat, PlayerView { is_turn: true, ..roster[seat] })
    } else {
        roster
    }
}

/// The roster after the board was merged into every hand and every hand
/// was ranked again.
pub open spec fn score_all(roster: Seq<PlayerView>, board: Seq<Card>) -> Seq<PlayerView> {
    roster.map_values(|p: PlayerView| p.with_board(board).evaluated())
}

/// Whether the player at `seat` has a strength on record that no other
/// strength on record at the table exceeds. Several seats can be winners:
/// then their strengths tie exactly.
pub open spec fn is_winner(roster: Seq<PlayerView>, seat: int) -> bool {
    &&& 0 <= seat < roster.len()
    &&& roster[seat].rank is Some
    &&& forall|j: int|
        0 <= j < roster.len() && (#[trigger] roster[j]).rank is Some
            ==> roster[j].rank->Some_0.strength() <= roster[seat].rank->Some_0.strength()
}

/// The first seat at or after `from` whose hole cards, together with
/// `board` cards, are more than a hand holds.
pub open spec fn overfull_from(roster: Seq<PlayerView>, board: int, from: int) -> Option<int>
    decreases roster.len() - from,
{
    if from < 0 || from >= roster.len() {
        None
    } else if roster[from].hand is Some && roster[from].hole_cards().len() + board > 7 {
        Some(from)
    } else {
        overfull_from(roster, board, from + 1)
    }
}

/// Whether a board of `board` cards can be merged into every hand, and if
/// not, the number of cards that the first hand too large would have.
pub open spec fn merge_outcome(roster: Seq<PlayerView>, board: int) -> Result<(), EngineError> {
    match overfull_from(roster, board, 0) {
        Some(i) => Err(EngineError::HandSize((roster[i].hole_cards().len() + board) as usize)),
        None => Ok(()),
    }
}

/// A search for a hand too large finds the first seat with one, and finds
/// nothing only where there is none.
pub proof fn lemma_overfull_from(roster: Seq<PlayerView>, board: int, from: int)
    requires
        0 <= from,
    ensures
        match overfull_from(roster, board, from) {
            Some(i) => from <= i < roster.len() && roster[i].hand is Some
                && roster[i].hole_cards().len() + board > 7 && forall|j: int|
                from <= j < i ==> !((#[trigger] roster[j]).hand is Some
                    && roster[j].hole_cards().len() + board > 7),
            None => forall|j: int|
                from <= j < roster.len() ==> !((#[trigger] roster[j]).hand is Some
                    && roster[j].hole_cards().len() + board > 7),
        },
    decreases roster.len() - from,
{
    if from < roster.len() && !(roster[from].hand is Some && roster[from].hole_cards().len()
        + board > 7) {
        lemma_overfull_from(roster, board, from + 1);
    }
}

/// Whether every stack is a number that the chips' type holds.
pub open spec fn chips_fit(roster: Seq<PlayerView>) -> bool {
    forall|i: int| 0 <= i < roster.len() ==> i32::MIN <= (#[trigger] roster[i]).chips <= i32::MAX
}

impl GameMasterView {
    /// The seat that pays the big blind, where somebody sits there.
    pub open spec fn big_blind_seat(self) -> Option<int> {
        if self.bb_position < self.players.len() {
            Some(self.bb_position as int)
        } else {
            None
        }
    }

    /// The seat that pays the small blind: the one before the big blind,
    /// counting round the table.
    pub open spec fn small_blind_seat(self) -> Option<int> {
        if self.players.len() == 0 {
            None
        } else if self.bb_position == 0 {
            Some(self.players.len() - 1)
        } else {
            Some((self.bb_position - 1) % (self.players.len() as int))
        }
    }

    /// The roster after the big blind was paid.
    pub open spec fn big_blind_paid(self) -> Seq<PlayerView> {
        match self.big_blind {
            Some(big) => charge(self.players, self.big_blind_seat(), big as int),
            None => self.players,
        }
    }

    /// The roster after both blinds were paid, the big blind first.
    pub open spec fn both_blinds_paid(self) -> Seq<PlayerView> {
        match self.small_blind {
            Some(small) => charge(self.big_blind_paid(), self.small_blind_seat(), small as int),
            None => self.big_blind_paid(),
        }
    }

    /// Whether the stacks stay within the chips' type while the blinds are
    /// paid.
    pub open spec fn blinds_fit(self) -> bool {
        chips_fit(self.big_blind_paid()) && chips_fit(self.both_blinds_paid())
    }

    /// Whether the blinds can be posted, and if not, why.
    pub open spec fn blinds_outcome(self) -> Result<(), EngineError> {
        if self.phase != Phase::Created {
            Err(EngineError::InvalidPhaseTransition)
        } else if self.small_blind is None || self.big_blind is None {
            Err(EngineError::MissingBlindConfiguration)
        } else {
            Ok(())
        }
    }

    /// The state after the blinds were posted.
    pub open spec fn blinds_posted(self) -> GameMasterView {
        GameMasterView { players: self.both_blinds_paid(), phase: Phase::BlindsPosted, ..self }
    }

    /// Whether hole cards can be dealt, and if not, why.
    pub open spec fn deal_outcome(self) -> Result<(), EngineError> {
        if self.phase != Phase::BlindsPosted {
            Err(EngineError::InvalidPhaseTransition)
        } else {
            Ok(())
        }
    }

    /// How many players get hole cards: all of them, or as many as the
    /// deck has pairs of cards for.
    pub open spec fn dealt_count(self) -> int {
        if self.players.len() <= self.gamestate.deck.len() / 2 {
            self.players.len() as int
        } else {
            self.gamestate.deck.len() as int / 2
        }
    }

    /// The hole cards of the player at seat `j`: the two cards that are
    /// last in the deck when its turn to be dealt comes.
    pub open spec fn hole_cards_of(self, j: int) -> Seq<Card> {
        let deck = self.gamestate.deck;
        deck.subrange(deck.len() - 2 * (j + 1), deck.len() - 2 * j)
    }

    /// The player at seat `j` with the hole cards dealt to it.
    pub open spec fn seated(self, j: int) -> PlayerView {
        self.players[j].with_hole_cards(self.hole_cards_of(j))
    }

    /// The state after hole cards were dealt: seat by seat, two cards from
    /// the end of the deck for each player while the deck has two. Those
    /// players are seated at the table behind whoever sits there. The seats
    /// that got no cards are noted and are not seated.
    pub open spec fn hole_cards_dealt(self) -> GameMasterView {
        let k = self.dealt_count();
        let n = self.players.len() as int;
        let deck = self.gamestate.deck;
        GameMasterView {
            gamestate: GameView {
                deck: deck.subrange(0, deck.len() - 2 * k),
                players: self.gamestate.players + Seq::new(k as nat, |j: int| self.seated(j)),
                ..self.gamestate
            },
            players: Seq::new(
                n as nat,
                |j: int|
                    if j < k {
                        self.seated(j)
                    } else {
                        self.players[j]
                    },
            ),
            skipped_seats: self.skipped_seats + Seq::new((n - k) as nat, |i: int| (k + i) as usize),
            phase: Phase::HoleCardsDealt,
            ..self
        }
    }

    /// Whether the seat to act can be marked, and if not, why. The seat to
    /// act must be the one after the big blind.
    pub open spec fn turn_outcome(self) -> Result<(), EngineError> {
        if self.phase != Phase::HoleCardsDealt {
            Err(EngineError::InvalidPhaseTransition)
        } else if self.turn_index != self.bb_position + 1 {
            Err(EngineError::TurnOrderViolation)
        } else {
            Ok(())
        }
    }

    /// The state after the seat to act was marked, in the controller's
    /// roster and at the table.
    pub open spec fn turn_started(self) -> GameMasterView {
        GameMasterView {
            gamestate: GameView {
                players: mark_turn(self.gamestate.players, self.turn_index as int),
                ..self.gamestate
            },
            players: mark_turn(self.players, self.turn_index as int),
            ..self
        }
    }

    /// Whether the flop can be dealt, and if not, why. It takes four
    /// cards: one to burn and three for the board. Every hand at the table
    /// must have room for the board.
    pub open spec fn flop_outcome(self) -> Result<(), EngineError> {
        if self.phase != Phase::HoleCardsDealt {
            Err(EngineError::InvalidPhaseTransition)
        } else if self.gamestate.deck.len() < 4 {
            Err(EngineError::DeckExhausted)
        } else {
            merge_outcome(self.gamestate.players, 3)
        }
    }

    /// The three cards of the flop: those below the last card of the deck,
    /// which is burned.
    pub open spec fn flop_cards(self) -> Seq<Card> {
        let deck = self.gamestate.deck;
        deck.subrange(deck.len() - 4, deck.len() - 1)
    }

    /// The state after the flop: the last card of the deck is gone, the
    /// three below it are the board, and every player at the table is
    /// ranked with them.
    pub open spec fn flop_dealt(self) -> GameMasterView {
        let deck = self.gamestate.deck;
        GameMasterView {
            gamestate: GameView {
                deck: deck.subrange(0, deck.len() - 4),
                table_cards: self.flop_cards(),
                players: score_all(self.gamestate.players, self.flop_cards()),
                ..self.gamestate
            },
            phase: Phase::FlopDealt,
            ..self
        }
    }

    /// Whether one more board card can be dealt, and if not, why. The
    /// board takes a card only after the flop and while it has fewer than
    /// five. It takes two cards of the deck: one to burn and one for the
    /// board. Every hand at the table must have room for the new board.
    pub open spec fn street_outcome(self) -> Result<(), EngineError> {
        if (self.phase != Phase::FlopDealt && self.phase != Phase::TurnDealt)
            || self.gamestate.table_cards.len() >= 5 {
            Err(EngineError::InvalidPhaseTransition)
        } else if self.gamestate.deck.len() < 2 {
            Err(EngineError::DeckExhausted)
        } else {
            merge_outcome(self.gamestate.players, self.gamestate.table_cards.len() as int + 1)
        }
    }

    /// The board after one more card: the card below the last of the deck
    /// is put behind the cards already there.
    pub open spec fn next_board(self) -> Seq<Card> {
        let deck = self.gamestate.deck;
        self.gamestate.table_cards.push(deck[deck.len() - 2])
    }

    /// The state after one more board card: the turn after the flop, the
    /// river after the turn. Every player at the table is ranked with the
    /// new board, and the controller's roster is that of the table.
    pub open spec fn street_dealt(self) -> GameMasterView {
        let deck = self.gamestate.deck;
        let players = score_all(self.gamestate.players, self.next_board());
        GameMasterView {
            gamestate: GameView {
                deck: deck.subrange(0, deck.len() - 2),
                table_cards: self.next_board(),
                players: players,
                ..self.gamestate
            },
            players: players,
            phase: if self.phase == Phase::FlopDealt {
                Phase::TurnDealt
            } else {
                Phase::RiverDealt
            },
            ..self
        }
    }

    /// Whether the hands can be shown, and if not, why. They can once the
    /// flop is out and until they were shown.
    pub open spec fn showdown_outcome(self) -> Result<(), EngineError> {
        if self.phase == Phase::FlopDealt || self.phase == Phase::TurnDealt || self.phase
            == Phase::RiverDealt {
            Ok(())
        } else {
            Err(EngineError::InvalidPhaseTransition)
        }
    }

    /// The state after the hands were shown: nothing moves but the phase.
    pub open spec fn shown(self) -> GameMasterView {
        GameMasterView { phase: Phase::Showdown, ..self }
    }

    /// The cards that an estimate of the chances is about: the hole cards
    /// of the first two seats of the controller's roster, then the board.
    pub open spec fn equity_cards(self) -> Seq<Card> {
        self.players[0].hole_cards() + self.players[1].hole_cards() + self.gamestate.table_cards
    }

    /// Whether the chances of the first seat against the second can be
    /// estimated: both seats have hole cards, the board has at most five
    /// cards, and no card occurs twice among hole cards and board.
    pub open spec fn can_estimate(self) -> bool {
        &&& self.players.len() >= 2
        &&& self.players[0].hand is Some
        &&& self.players[1].hand is Some
        &&& self.gamestate.table_cards.len() <= 5
        &&& self.equity_cards().no_duplicates()
    }

    /// The state with the controller's roster made that of the table.
    pub open spec fn synced(self) -> GameMasterView {
        GameMasterView { players: self.gamestate.players, ..self }
    }

    /// Whether a hand can be run up to the flop, and if not, why: the
    /// first of the reasons that one of its steps would give. The deck must
    /// have four cards left for the flop once the hole cards are out, and
    /// whoever sits at the table already must have room for the flop.
    pub open spec fn run_outcome(self) -> Result<(), EngineError> {
        if self.blinds_outcome() is Err {
            self.blinds_outcome()
        } else if self.turn_index != self.bb_position + 1 {
            Err(EngineError::TurnOrderViolation)
        } else if self.gamestate.deck.len() - 2 * self.dealt_count() < 4 {
            Err(EngineError::DeckExhausted)
        } else {
            merge_outcome(self.gamestate.players, 3)
        }
    }

    /// The state after a hand was run up to the flop: blinds posted, hole
    /// cards dealt, the seat to act marked, the flop dealt, and the
    /// controller's roster made that of the table.
    pub open spec fn run_to_flop(self) -> GameMasterView {
        self.blinds_posted().hole_cards_dealt().turn_started().flop_dealt().synced()
    }
}

} // verus!
