//! The controller of one hand of play. It owns the table, posts the blinds,
//! deals hole cards and board, and keeps a roster of its own in step with
//! the table's.

use crate::card::{all_distinct, Card};
use crate::error::EngineError;
use crate::hand::{copy_cards, Hand};
use crate::invariants::{
    lemma_deal_keeps_distinct, lemma_flop_keeps_distinct, lemma_run_keeps_distinct,
    lemma_street_keeps_distinct, lemma_turn_keeps_distinct,
};
use crate::decisions::PlayerDecisions;
use crate::phases::{
    charge, chips_fit, is_winner, lemma_overfull_from, mark_turn, merge_outcome, overfull_from,
    score_all, GameMasterView, Phase,
};
use crate::player::Player;
use crate::rank::HandRank;
use crate::table::{copy_roster, roster_view, Game};
use vstd::prelude::*;

verus! {

/// The small blind of a new controller.
pub const DEFAULT_SMALL_BLIND: i32 = 10;

/// The big blind of a new controller.
pub const DEFAULT_BIG_BLIND: i32 = 20;

/// The controller of one hand of play.
#[derive(Debug)]
pub struct GameMaster {
    /// The table: deck, players dealt in, board.
    pub gamestate: Game,
    /// The controller's roster, by seat. Blinds and turn are kept here;
    /// after a step it is made that of the table.
    pub players: Vec<Player>,
    /// The amount of the small blind, where set.
    pub small_blind: Option<i32>,
    /// The amount of the big blind, where set.
    pub big_blind: Option<i32>,
    /// The seat that pays the big blind.
    pub bb_position: usize,
    /// The decisions taken so far.
    pub player_log: Vec<PlayerDecisions>,
    /// The seat to act.
    pub turn_index: usize,
    /// How many players take part.
    pub active_player_count: usize,
    /// How far the hand has come.
    pub phase: Phase,
    /// The seats that got no hole cards because the deck had run out.
    pub skipped_seats: Vec<usize>,
}

impl View for GameMaster {
    type V = GameMasterView;

    open spec fn view(&self) -> GameMasterView {
        GameMasterView {
            gamestate: self.gamestate@,
            players: roster_view(self.players@),
            small_blind: self.small_blind,
            big_blind: self.big_blind,
            bb_position: self.bb_position,
            player_log: self.player_log@,
            turn_index: self.turn_index,
            active_player_count: self.active_player_count,
            phase: self.phase,
            skipped_seats: self.skipped_seats@,
        }
    }
}

/// A copy of a list of plain values.
fn copy_values<T: Copy>(values: &Vec<T>) -> (copy: Vec<T>)
    ensures
        copy@ == values@,
{
    let mut copy: Vec<T> = Vec::new();
    let mut i: usize = 0;
    while i < values.len()
        invariant
            i <= values@.len(),
            copy@ == values@.subrange(0, i as int),
        decreases values@.len() - i,
    {
        copy.push(values[i]);
        proof {
            assert(copy@ =~= values@.subrange(0, i + 1));
        }
        i += 1;
    }
    proof {
        assert(copy@ =~= values@);
    }
    copy
}

impl Clone for GameMaster {
    fn clone(&self) -> (copy: GameMaster)
        ensures
            copy@ == self@,
    {
        GameMaster {
            gamestate: self.gamestate.clone(),
            players: copy_roster(&self.players),
            small_blind: self.small_blind,
            big_blind: self.big_blind,
            bb_position: self.bb_position,
            player_log: copy_values(&self.player_log),
            turn_index: self.turn_index,
            active_player_count: self.active_player_count,
            phase: self.phase,
            skipped_seats: copy_values(&self.skipped_seats),
        }
    }
}

/// Takes `amount` from the stack of the player at `seat`.
fn charge_seat(players: &mut Vec<Player>, seat: usize, amount: i32)
    requires
        seat < old(players)@.len(),
        chips_fit(charge(roster_view(old(players)@), Some(seat as int), amount as int)),
    ensures
        roster_view(final(players)@) == charge(
            roster_view(old(players)@),
            Some(seat as int),
            amount as int,
        ),
{
    let ghost before = roster_view(players@);
    proof {
        let after = charge(before, Some(seat as int), amount as int);
        assert(after[seat as int].chips == before[seat as int].chips - amount);
    }
    let stack = players[seat].chips;
    players[seat].chips = stack - amount;
    proof {
        assert(roster_view(players@) =~= charge(before, Some(seat as int), amount as int));
    }
}

/// Marks the player at `seat` as the one to act, where somebody sits
/// there.
fn mark_seat(players: &mut Vec<Player>, seat: usize)
    ensures
        roster_view(final(players)@) == mark_turn(roster_view(old(players)@), seat as int),
{
    let ghost before = roster_view(players@);
    if seat < players.len() {
        players[seat].is_turn = true;
    }
    proof {
        assert(roster_view(players@) =~= mark_turn(before, seat as int));
    }
}

/// Looks for a player whose hole cards, together with `board` cards, are
/// more than a hand holds.
fn check_room(players: &Vec<Player>, board: usize) -> (done: Result<(), EngineError>)
    requires
        board <= 7,
    ensures
        done == merge_outcome(roster_view(players@), board as int),
{
    let ghost roster = roster_view(players@);
    let mut i: usize = 0;
    while i < players.len()
        invariant
            i <= players@.len(),
            board <= 7,
            roster == roster_view(players@),
            overfull_from(roster, board as int, 0) == overfull_from(roster, board as int, i as int),
        decreases players@.len() - i,
    {
        match &players[i].hand {
            Some(hole) => {
                let total = hole.len() + board;
                if total > 7 {
                    return Err(EngineError::HandSize(total));
                }
            },
            None => {},
        }
        i += 1;
    }
    Ok(())
}

/// Merges the board into the hand of every player and ranks every hand
/// again.
fn score_players(players: &mut Vec<Player>, board: &Vec<Card>)
    requires
        board@.len() <= 7,
    ensures
        roster_view(final(players)@) == score_all(roster_view(old(players)@), board@),
{
    let mut i: usize = 0;
    while i < players.len()
        invariant
            i <= players@.len(),
            board@.len() <= 7,
            players@.len() == old(players)@.len(),
            forall|j: int|
                0 <= j < i ==> (#[trigger] players@[j])@ == old(players)@[j]@.with_board(
                    board@,
                ).evaluated(),
            forall|j: int| i <= j < players@.len() ==> #[trigger] players@[j] == old(players)@[j],
        decreases players@.len() - i,
    {
        match Hand::new(copy_cards(board)) {
            Ok(hand) => {
                let _ = players[i].update_hand(hand);
            },
            Err(_) => {},
        }
        players[i].evaluate();
        i += 1;
    }
    proof {
        assert(roster_view(players@) =~= score_all(roster_view(old(players)@), board@));
    }
}

/// The strongest strength on record among the players; `None` where none
/// has a strength on record.
fn top_rank(players: &Vec<Player>) -> (top: Option<HandRank>)
    ensures
        top is None ==> forall|j: int| 0 <= j < players@.len() ==> (#[trigger] players@[j]).rank
            is None,
        top is Some ==> exists|i: int|
            0 <= i < players@.len() && (#[trigger] players@[i]).rank == top,
        top is Some ==> forall|j: int|
            0 <= j < players@.len() && (#[trigger] players@[j]).rank is Some
                ==> players@[j].rank->Some_0.strength() <= top->Some_0.strength(),
{
    let mut top: Option<HandRank> = None;
    let mut i: usize = 0;
    while i < players.len()
        invariant
            i <= players@.len(),
            top is None ==> forall|j: int| 0 <= j < i ==> (#[trigger] players@[j]).rank is None,
            top is Some ==> exists|k: int| 0 <= k < i && (#[trigger] players@[k]).rank == top,
            top is Some ==> forall|j: int|
                0 <= j < i && (#[trigger] players@[j]).rank is Some
                    ==> players@[j].rank->Some_0.strength() <= top->Some_0.strength(),
        decreases players@.len() - i,
    {
        match players[i].rank {
            Some(rank) => {
                let better = match top {
                    Some(best) => rank.beats(&best),
                    None => true,
                };
                if better {
                    top = Some(rank);
                }
            },
            None => {},
        }
        i += 1;
    }
    top
}

impl GameMaster {
    /// A controller for the table and the players given: blinds of 10 and
    /// 20, the big blind at seat 1, seat 2 to act, no step taken yet.
    pub fn new(g: Game, vp: Vec<Player>) -> (gm: GameMaster)
        ensures
            gm@ == (GameMasterView {
                gamestate: g@,
                players: roster_view(vp@),
                small_blind: Some(DEFAULT_SMALL_BLIND),
                big_blind: Some(DEFAULT_BIG_BLIND),
                bb_position: 1,
                player_log: Seq::empty(),
                turn_index: 2,
                active_player_count: vp.len(),
                phase: Phase::Created,
                skipped_seats: Seq::empty(),
            }),
    {
        let size = vp.len();
        GameMaster {
            gamestate: g,
            players: vp,
            small_blind: Some(DEFAULT_SMALL_BLIND),
            big_blind: Some(DEFAULT_BIG_BLIND),
            bb_position: 1,
            player_log: Vec::new(),
            turn_index: 2,
            active_player_count: size,
            phase: Phase::Created,
            skipped_seats: Vec::new(),
        }
    }

    /// Makes the controller's roster that of the table.
    pub fn update_game_status(&mut self)
        ensures
            final(self)@ == old(self)@.synced(),
    {
        self.players = copy_roster(&self.gamestate.players);
    }

    /// The seat that pays the small blind, where the table has one.
    pub fn small_blind_seat(&self) -> (seat: Option<usize>)
        ensures
            match seat {
                Some(i) => i < self.players@.len() && self@.small_blind_seat() == Some(i as int),
                None => self@.small_blind_seat() is None,
            },
    {
        let n = self.players.len();
        if n == 0 {
            None
        } else if self.bb_position == 0 {
            Some(n - 1)
        } else {
            Some((self.bb_position - 1) % n)
        }
    }

    /// Whether the blinds can be taken from the stacks without leaving the
    /// numbers that the chips' type holds.
    pub fn blinds_payable(&self) -> (fit: bool)
        ensures
            fit == self@.blinds_fit(),
    {
        let n = self.players.len();
        let ghost roster = roster_view(self.players@);
        proof {
            assert(chips_fit(roster));
        }
        let mut after_big: Option<i32> = None;
        if let Some(big) = self.big_blind {
            if self.bb_position < n {
                match self.players[self.bb_position].chips.checked_sub(big) {
                    Some(left) => {
                        after_big = Some(left);
                    },
                    None => {
                        proof {
                            let paid = self@.big_blind_paid();
                            assert(paid[self.bb_position as int].chips
                                == roster[self.bb_position as int].chips - big);
                        }
                        return false;
                    },
                }
            }
        }
        proof {
            let paid = self@.big_blind_paid();
            assert(chips_fit(paid)) by {
                assert forall|i: int| 0 <= i < paid.len() implies i32::MIN <= (
                #[trigger] paid[i]).chips <= i32::MAX by {
                    assert(roster[i].chips == self.players@[i].chips);
                }
            }
        }
        if let Some(small) = self.small_blind {
            if let Some(seat) = self.small_blind_seat() {
                let stack = if after_big.is_some() && seat == self.bb_position {
                    after_big.unwrap()
                } else {
                    self.players[seat].chips
                };
                proof {
                    let paid = self@.big_blind_paid();
                    assert(roster[seat as int].chips == self.players@[seat as int].chips);
                    assert(paid[seat as int].chips == stack);
                    let both = self@.both_blinds_paid();
                    assert(both[seat as int].chips == stack - small);
                    assert forall|i: int| 0 <= i < both.len() && i != seat implies i32::MIN <= (
                    #[trigger] both[i]).chips <= i32::MAX by {
                        assert(both[i] == paid[i]);
                    }
                }
                return stack.checked_sub(small).is_some();
            }
        }
        true
    }

    /// Posts the blinds: takes the big blind from the seat that pays it and
    /// the small blind from the seat before, counting round the table. A
    /// seat where nobody sits pays nothing. Fails, and changes nothing,
    /// where the hand is past this step or a blind has no amount.
    pub fn initial_blinds(&mut self) -> (done: Result<(), EngineError>)
        requires
            old(self)@.blinds_fit(),
        ensures
            done == old(self)@.blinds_outcome(),
            done is Ok ==> final(self)@ == old(self)@.blinds_posted(),
            done is Err ==> final(self)@ == old(self)@,
    {
        if self.phase != Phase::Created {
            return Err(EngineError::InvalidPhaseTransition);
        }
        match (self.small_blind, self.big_blind) {
            (Some(small), Some(big)) => {
                let sb_seat = self.small_blind_seat();
                if self.bb_position < self.players.len() {
                    charge_seat(&mut self.players, self.bb_position, big);
                }
                match sb_seat {
                    Some(seat) => {
                        charge_seat(&mut self.players, seat, small);
                    },
                    None => {},
                }
                self.phase = Phase::BlindsPosted;
                Ok(())
            },
            _ => Err(EngineError::MissingBlindConfiguration),
        }
    }

    /// Deals hole cards: seat by seat, two cards from the end of the deck
    /// to each player of the controller's roster, in place of any cards the
    /// player had, and seats a copy of the player at the table. When the
    /// deck has fewer than two cards left, the seat is noted as skipped and
    /// the player is not seated. Fails, and changes nothing, where the
    /// blinds were not just posted.
    pub fn initial_deal(&mut self) -> (done: Result<(), EngineError>)
        ensures
            done == old(self)@.deal_outcome(),
            done is Ok ==> final(self)@ == old(self)@.hole_cards_dealt(),
            done is Err ==> final(self)@ == old(self)@,
            old(self)@.gamestate.cards_distinct() ==> final(self)@.gamestate.cards_distinct(),
    {
        if self.phase != Phase::BlindsPosted {
            return Err(EngineError::InvalidPhaseTransition);
        }
        let ghost start = self@;
        let ghost deck0 = start.gamestate.deck;
        let ghost all = start.dealt_count();
        let n = self.players.len();
        let mut i: usize = 0;
        while i < n
            invariant
                i <= n,
                n == self.players@.len(),
                n == start.players.len(),
                deck0 == start.gamestate.deck,
                all == start.dealt_count(),
                self.gamestate.deck@ == deck0.subrange(
                    0,
                    deck0.len() - 2 * (if i <= all {
                        i as int
                    } else {
                        all
                    }),
                ),
                self@.gamestate.players == start.gamestate.players + Seq::new(
                    (if i <= all {
                        i as int
                    } else {
                        all
                    }) as nat,
                    |j: int| start.seated(j),
                ),
                forall|j: int|
                    0 <= j < n ==> (#[trigger] self.players@[j])@ == if j < i && j < all {
                        start.seated(j)
                    } else {
                        start.players[j]
                    },
                self.skipped_seats@ == start.skipped_seats + Seq::new(
                    (if i <= all {
                        0
                    } else {
                        i - all
                    }) as nat,
                    |t: int| (all + t) as usize,
                ),
                self@.gamestate.table_cards == start.gamestate.table_cards,
                self@.gamestate.player_ct == start.gamestate.player_ct,
                self@.gamestate.hand_list == start.gamestate.hand_list,
                self.small_blind == start.small_blind,
                self.big_blind == start.big_blind,
                self.bb_position == start.bb_position,
                self.player_log@ == start.player_log,
                self.turn_index == start.turn_index,
                self.active_player_count == start.active_player_count,
                self.phase == start.phase,
            decreases n - i,
        {
            let ghost seats = self@.gamestate.players;
            let ghost skipped = self.skipped_seats@;
            let ghost deck_now = self.gamestate.deck@;
            let mut seated = false;
            match self.gamestate.deck.deal(2) {
                Some(cards) => {
                    proof {
                        assert(i < all);
                        assert(cards@ =~= start.hole_cards_of(i as int));
                    }
                    match Hand::new(cards) {
                        Ok(h) => {
                            self.players[i].add_hand(h);
                            let seat = self.players[i].clone();
                            let _ = self.gamestate.add_player(seat);
                            seated = true;
                            proof {
                                assert(self.gamestate.deck@ =~= deck0.subrange(
                                    0,
                                    deck0.len() - 2 * (i + 1),
                                ));
                                assert(self@.gamestate.players =~= start.gamestate.players
                                    + Seq::new((i + 1) as nat, |j: int| start.seated(j)));
                                assert(self.skipped_seats@ =~= start.skipped_seats + Seq::new(
                                    0nat,
                                    |t: int| (all + t) as usize,
                                ));
                            }
                        },
                        Err(_) => {},
                    }
                },
                None => {},
            }
            if !seated {
                proof {
                    assert(deck_now.len() < 2);
                    assert(i >= all);
                }
                self.skipped_seats.push(i);
                proof {
                    assert(self.skipped_seats@ =~= start.skipped_seats + Seq::new(
                        (i + 1 - all) as nat,
                        |t: int| (all + t) as usize,
                    ));
                    assert(self.gamestate.deck@ == deck_now);
                }
            }
            i += 1;
        }
        self.phase = Phase::HoleCardsDealt;
        proof {
            let goal = start.hole_cards_dealt();
            assert(self@.players =~= goal.players);
            assert(self@.skipped_seats =~= goal.skipped_seats);
            assert(self@.gamestate.players =~= goal.gamestate.players);
            assert(self@.gamestate.deck =~= goal.gamestate.deck);
            assert(self@.gamestate == goal.gamestate);
            if start.gamestate.cards_distinct() {
                lemma_deal_keeps_distinct(start);
            }
        }
        Ok(())
    }

    /// Marks the seat to act, in the controller's roster and at the table.
    /// The seat to act must be the one after the big blind; where it is
    /// not, or where hole cards were not just dealt, fails and changes
    /// nothing.
    pub fn start_turn(&mut self) -> (done: Result<(), EngineError>)
        ensures
            done == old(self)@.turn_outcome(),
            done is Ok ==> final(self)@ == old(self)@.turn_started(),
            done is Ok ==> final(self).turn_index == final(self).bb_position + 1,
            done is Err ==> final(self)@ == old(self)@,
            old(self)@.gamestate.cards_distinct() ==> final(self)@.gamestate.cards_distinct(),
    {
        if self.phase != Phase::HoleCardsDealt {
            return Err(EngineError::InvalidPhaseTransition);
        }
        if self.bb_position == usize::MAX || self.turn_index != self.bb_position + 1 {
            return Err(EngineError::TurnOrderViolation);
        }
        mark_seat(&mut self.players, self.turn_index);
        mark_seat(&mut self.gamestate.players, self.turn_index);
        proof {
            if old(self)@.gamestate.cards_distinct() {
                lemma_turn_keeps_distinct(old(self)@);
            }
        }
        Ok(())
    }

    /// Deals the flop: burns the last card of the deck, makes the next
    /// three the board, merges them into the hand of every player at the
    /// table and ranks every hand. Fails, and changes nothing, where hole
    /// cards were not just dealt or the deck has fewer than four cards.
    pub fn deal_flop(&mut self) -> (done: Result<(), EngineError>)
        ensures
            done == old(self)@.flop_outcome(),
            done is Ok ==> final(self)@ == old(self)@.flop_dealt(),
            done is Ok ==> final(self)@.gamestate.table_cards.len() == 3,
            done is Err ==> final(self)@ == old(self)@,
            old(self)@.gamestate.cards_distinct() ==> final(self)@.gamestate.cards_distinct(),
    {
        if self.phase != Phase::HoleCardsDealt {
            return Err(EngineError::InvalidPhaseTransition);
        }
        if self.gamestate.deck.len() < 4 {
            return Err(EngineError::DeckExhausted);
        }
        match check_room(&self.gamestate.players, 3) {
            Ok(()) => {},
            Err(e) => {
                return Err(e);
            },
        }
        let ghost start = self@;
        let _ = self.gamestate.deck.deal(1);
        match self.gamestate.deck.deal(3) {
            Some(cards) => {
                proof {
                    assert(cards@ =~= start.flop_cards());
                    assert(self.gamestate.deck@ =~= start.gamestate.deck.subrange(
                        0,
                        start.gamestate.deck.len() - 4,
                    ));
                }
                score_players(&mut self.gamestate.players, &cards);
                self.gamestate.table_cards = cards;
                self.phase = Phase::FlopDealt;
                proof {
                    if start.gamestate.cards_distinct() {
                        lemma_flop_keeps_distinct(start);
                    }
                }
                Ok(())
            },
            None => Err(EngineError::DeckExhausted),
        }
    }

    /// Deals one more board card, the turn or the river: burns the last
    /// card of the deck and puts the next behind the board. Every player
    /// at the table is ranked with the new board, and the controller's
    /// roster is made that of the table. Fails, and changes nothing, before
    /// the flop, with five cards on the board, or where the deck has fewer
    /// than two cards.
    pub fn deal_turn_or_river(&mut self) -> (done: Result<(), EngineError>)
        ensures
            done == old(self)@.street_outcome(),
            done is Ok ==> final(self)@ == old(self)@.street_dealt(),
            done is Ok ==> final(self)@.gamestate.table_cards == old(
                self,
            )@.gamestate.table_cards.push(final(self)@.gamestate.table_cards.last()),
            done is Err ==> final(self)@ == old(self)@,
            old(self)@.gamestate.cards_distinct() ==> final(self)@.gamestate.cards_distinct(),
    {
        if (self.phase != Phase::FlopDealt && self.phase != Phase::TurnDealt)
            || self.gamestate.table_cards.len() >= 5 {
            return Err(EngineError::InvalidPhaseTransition);
        }
        if self.gamestate.deck.len() < 2 {
            return Err(EngineError::DeckExhausted);
        }
        match check_room(&self.gamestate.players, self.gamestate.table_cards.len() + 1) {
            Ok(()) => {},
            Err(e) => {
                return Err(e);
            },
        }
        let ghost start = self@;
        let _ = self.gamestate.deck.deal(1);
        match self.gamestate.deck.deal(1) {
            Some(cards) => {
                proof {
                    assert(cards@[0] == start.gamestate.deck[start.gamestate.deck.len() - 2]);
                    assert(self.gamestate.deck@ =~= start.gamestate.deck.subrange(
                        0,
                        start.gamestate.deck.len() - 2,
                    ));
                }
                self.gamestate.table_cards.push(cards[0]);
                score_players(&mut self.gamestate.players, &self.gamestate.table_cards);
                self.players = copy_roster(&self.gamestate.players);
                self.phase = if self.phase == Phase::FlopDealt {
                    Phase::TurnDealt
                } else {
                    Phase::RiverDealt
                };
                proof {
                    if start.gamestate.cards_distinct() {
                        lemma_street_keeps_distinct(start);
                    }
                    assert(self@.gamestate.table_cards =~= start.gamestate.table_cards.push(
                        self@.gamestate.table_cards.last(),
                    ));
                }
                Ok(())
            },
            None => Err(EngineError::DeckExhausted),
        }
    }

    /// Runs a hand up to the flop: posts the blinds, deals hole cards,
    /// marks the seat to act, deals the flop, and makes the controller's
    /// roster that of the table. All that could fail is checked before the
    /// first step, so a failure changes nothing.
    pub fn init(&mut self) -> (done: Result<(), EngineError>)
        requires
            old(self)@.blinds_fit(),
        ensures
            done == old(self)@.run_outcome(),
            done is Ok ==> final(self)@ == old(self)@.run_to_flop(),
            done is Ok ==> final(self)@.gamestate.table_cards.len() == 3,
            done is Ok ==> final(self)@.players == final(self)@.gamestate.players,
            done is Ok ==> final(self).turn_index == final(self).bb_position + 1,
            done is Err ==> final(self)@ == old(self)@,
            old(self)@.gamestate.cards_distinct() ==> final(self)@.gamestate.cards_distinct(),
    {
        if self.phase != Phase::Created {
            return Err(EngineError::InvalidPhaseTransition);
        }
        if self.small_blind.is_none() || self.big_blind.is_none() {
            return Err(EngineError::MissingBlindConfiguration);
        }
        if self.bb_position == usize::MAX || self.turn_index != self.bb_position + 1 {
            return Err(EngineError::TurnOrderViolation);
        }
        let n = self.players.len();
        let len = self.gamestate.deck.len();
        let dealt = if n <= len / 2 {
            n
        } else {
            len / 2
        };
        if len - 2 * dealt < 4 {
            return Err(EngineError::DeckExhausted);
        }
        match check_room(&self.gamestate.players, 3) {
            Ok(()) => {},
            Err(e) => {
                return Err(e);
            },
        }
        proof {
            let start = self@;
            let dealt = start.blinds_posted().hole_cards_dealt().turn_started();
            let seats = dealt.gamestate.players;
            lemma_overfull_from(start.gamestate.players, 3, 0);
            lemma_overfull_from(seats, 3, 0);
            assert forall|j: int| 0 <= j < seats.len() implies !((#[trigger] seats[j]).hand is Some
                && seats[j].hole_cards().len() + 3 > 7) by {
                if j < start.gamestate.players.len() {
                    assert(seats[j].hole_cards() == start.gamestate.players[j].hole_cards());
                    assert(seats[j].hand is Some == start.gamestate.players[j].hand is Some);
                } else {
                    let k = j - start.gamestate.players.len();
                    assert(seats[j].hole_cards() == start.blinds_posted().hole_cards_of(k));
                }
            }
            assert(merge_outcome(seats, 3) is Ok);
        }
        match self.initial_blinds() {
            Ok(()) => {},
            Err(e) => {
                return Err(e);
            },
        }
        match self.initial_deal() {
            Ok(()) => {},
            Err(e) => {
                return Err(e);
            },
        }
        match self.start_turn() {
            Ok(()) => {},
            Err(e) => {
                return Err(e);
            },
        }
        match self.deal_flop() {
            Ok(()) => {},
            Err(e) => {
                return Err(e);
            },
        }
        self.update_game_status();
        proof {
            if old(self)@.gamestate.cards_distinct() {
                lemma_run_keeps_distinct(old(self)@);
            }
        }
        Ok(())
    }

    /// Shows the hands: names the seats at the table whose strength on
    /// record is the highest, in rising order. More than one seat means an
    /// exact tie. Nothing moves but the phase. Fails, and changes nothing,
    /// before the flop and after the hands were shown.
    pub fn showdown(&mut self) -> (won: Result<Vec<usize>, EngineError>)
        ensures
            won is Ok <==> old(self)@.showdown_outcome() is Ok,
            won is Err ==> won->Err_0 == EngineError::InvalidPhaseTransition && final(self)@
                == old(self)@,
            won is Ok ==> final(self)@ == old(self)@.shown(),
            won is Ok ==> forall|a: int, b: int|
                0 <= a < b < won->Ok_0@.len() ==> won->Ok_0@[a] < won->Ok_0@[b],
            won is Ok ==> forall|k: int|
                0 <= k < won->Ok_0@.len() ==> is_winner(
                    old(self)@.gamestate.players,
                    (#[trigger] won->Ok_0@[k]) as int,
                ),
            won is Ok ==> forall|seat: int| #[trigger]
                is_winner(old(self)@.gamestate.players, seat) ==> won->Ok_0@.contains(
                    seat as usize,
                ),
    {
        if self.phase != Phase::FlopDealt && self.phase != Phase::TurnDealt && self.phase
            != Phase::RiverDealt {
            return Err(EngineError::InvalidPhaseTransition);
        }
        let ghost roster = self@.gamestate.players;
        let mut seats: Vec<usize> = Vec::new();
        match top_rank(&self.gamestate.players) {
            Some(top) => {
                let ghost holder = choose|t: int|
                    0 <= t < self.gamestate.players@.len() && (
                    #[trigger] self.gamestate.players@[t]).rank == Some(top);
                let mut i: usize = 0;
                while i < self.gamestate.players.len()
                    invariant
                        i <= self.gamestate.players@.len(),
                        roster == self@.gamestate.players,
                        self@ == old(self)@,
                        0 <= holder < roster.len(),
                        roster[holder].rank == Some(top),
                        forall|j: int|
                            0 <= j < roster.len() && (#[trigger] roster[j]).rank is Some
                                ==> roster[j].rank->Some_0.strength() <= top.strength(),
                        forall|a: int, b: int|
                            0 <= a < b < seats@.len() ==> seats@[a] < seats@[b],
                        forall|k: int|
                            0 <= k < seats@.len() ==> (#[trigger] seats@[k]) < i
                                && roster[seats@[k] as int].rank == Some(top),
                        forall|seat: int|
                            0 <= seat < i && (#[trigger] roster[seat]).rank == Some(top)
                                ==> seats@.contains(seat as usize),
                    decreases self.gamestate.players@.len() - i,
                {
                    let ghost before = seats@;
                    let tied = match self.gamestate.players[i].rank {
                        Some(rank) => rank.ties(&top),
                        None => false,
                    };
                    if tied {
                        seats.push(i);
                    }
                    proof {
                        assert(roster[i as int].rank == self.gamestate.players@[i as int].rank);
                        assert forall|seat: int|
                            0 <= seat < i + 1 && (#[trigger] roster[seat]).rank == Some(
                                top,
                            ) implies seats@.contains(seat as usize) by {
                            if seat < i {
                                assert(before.contains(seat as usize));
                                let k = choose|k: int|
                                    0 <= k < before.len() && before[k] == seat as usize;
                                assert(seats@[k] == seat as usize);
                            } else {
                                assert(seats@[seats@.len() - 1] == seat as usize);
                            }
                        }
                    }
                    i += 1;
                }
                proof {
                    assert forall|k: int| 0 <= k < seats@.len() implies is_winner(
                        roster,
                        (#[trigger] seats@[k]) as int,
                    ) by {}
                    assert forall|seat: int| #[trigger]
                        is_winner(roster, seat) implies seats@.contains(seat as usize) by {
                        crate::rank::lemma_strength_order(roster[seat].rank->Some_0, top);
                        assert(roster[holder].rank == Some(top));
                        assert(roster[seat].rank == Some(top));
                    }
                }
            },
            None => {
                proof {
                    assert forall|seat: int| #[trigger]
                        is_winner(roster, seat) implies seats@.contains(seat as usize) by {
                        assert(self.gamestate.players@[seat].rank is None);
                    }
                }
            },
        }
        self.phase = Phase::Showdown;
        Ok(seats)
    }

    /// The hands to ask an estimate of the chances for: the hole cards of
    /// the first two seats of the controller's roster and the board as a
    /// hand. They are handed out only where they are fit for an estimate:
    /// both seats have hole cards, the board has at most five cards, and no
    /// card occurs twice among them. `None` otherwise.
    pub fn equity_hands(&self) -> (hands: Option<(Hand, Hand, Hand)>)
        ensures
            hands is Some <==> self@.can_estimate(),
            hands is Some ==> self@.players[0].hand == Some(hands->Some_0.0@)
                && self@.players[1].hand == Some(hands->Some_0.1@) && hands->Some_0.2@
                == self@.gamestate.table_cards,
    {
        if self.players.len() < 2 || self.gamestate.table_cards.len() > 5 {
            return None;
        }
        match (&self.players[0].hand, &self.players[1].hand) {
            (Some(first), Some(second)) => {
                let mut all = copy_cards(first.cards());
                let mut extra = copy_cards(second.cards());
                all.append(&mut extra);
                let mut extra = copy_cards(&self.gamestate.table_cards);
                all.append(&mut extra);
                proof {
                    assert(all@ =~= self@.equity_cards());
                }
                if !all_distinct(&all) {
                    return None;
                }
                match Hand::new(copy_cards(&self.gamestate.table_cards)) {
                    Ok(board) => Some((first.clone(), second.clone(), board)),
                    Err(_) => None,
                }
            },
            _ => None,
        }
    }

    /// Where the decision of a player will be asked for. Nothing is
    /// decided yet, and nothing changes.
    pub fn decision_event(&mut self)
        ensures
            final(self)@ == old(self)@,
    {
    }
}

/// Seats the players, in their order, at a new table with a full, shuffled
/// deck. The first seat is by custom the one of the person playing.
pub fn create_table(players: Vec<Player>) -> (gm: GameMaster)
    ensures
        gm@.players == roster_view(players@),
        gm@.gamestate.players.len() == 0,
        gm@.gamestate.table_cards.len() == 0,
        gm@.gamestate.deck.len() == 52,
        gm@.gamestate.deck.to_multiset() == crate::deck::full_deck().to_multiset(),
        gm@.gamestate.cards_distinct(),
        gm@.small_blind == Some(DEFAULT_SMALL_BLIND),
        gm@.big_blind == Some(DEFAULT_BIG_BLIND),
        gm@.bb_position == 1,
        gm@.turn_index == 2,
        gm@.active_player_count == players@.len(),
        gm@.player_log.len() == 0,
        gm@.skipped_seats.len() == 0,
        gm@.phase == Phase::Created,
{
    GameMaster::new(Game::new(), players)
}

/// Runs a hand up to the flop; see [`GameMaster::init`].
pub fn run_to_flop(gm: &mut GameMaster) -> (done: Result<(), EngineError>)
    requires
        old(gm)@.blinds_fit(),
    ensures
        done == old(gm)@.run_outcome(),
        done is Ok ==> final(gm)@ == old(gm)@.run_to_flop(),
        done is Err ==> final(gm)@ == old(gm)@,
        old(gm)@.gamestate.cards_distinct() ==> final(gm)@.gamestate.cards_distinct(),
{
    gm.init()
}

/// Deals the turn, then the river; see [`GameMaster::deal_turn_or_river`].
/// With five cards on the board it fails.
pub fn deal_next_community_card(gm: &mut GameMaster) -> (done: Result<(), EngineError>)
    ensures
        done == old(gm)@.street_outcome(),
        done is Ok ==> final(gm)@ == old(gm)@.street_dealt(),
        done is Err ==> final(gm)@ == old(gm)@,
        old(gm)@.gamestate.cards_distinct() ==> final(gm)@.gamestate.cards_distinct(),
{
    gm.deal_turn_or_river()
}

} // verus!
