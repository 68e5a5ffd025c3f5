//! The table: the deck, the players seated, and the board.

use crate::card::{cards_svg, Card};
use crate::deck::{full_deck, Deck};
use crate::error::EngineError;
use crate::hand::{copy_cards, Hand};
use crate::player::{Player, PlayerView};
use vstd::prelude::*;

verus! {

/// Number of seats that a new table announces.
pub const DEFAULT_PLAYER_COUNT: usize = 8;

/// The table of one hand of play.
#[derive(Debug)]
pub struct Game {
    /// The cards not yet dealt.
    pub deck: Deck,
    /// The number of seats announced.
    pub player_ct: Option<usize>,
    /// The players that were dealt in, in the order of their seats.
    pub players: Vec<Player>,
    /// The board: no card before the flop, then three, four, five.
    pub table_cards: Vec<Card>,
    /// Hands of earlier play, kept for display only.
    pub hand_list: Option<Vec<Hand>>,
}

/// The table as the contracts see it: every field by its value.
pub struct GameView {
    pub deck: Seq<Card>,
    pub player_ct: Option<usize>,
    pub players: Seq<PlayerView>,
    pub table_cards: Seq<Card>,
    pub hand_list: Option<Seq<Seq<Card>>>,
}

impl View for Game {
    type V = GameView;

    open spec fn view(&self) -> GameView {
        GameView {
            deck: self.deck@,
            player_ct: self.player_ct,
            players: roster_view(self.players@),
            table_cards: self.table_cards@,
            hand_list: match self.hand_list {
                Some(hands) => Some(hands@.map_values(|h: Hand| h@)),
                None => None,
            },
        }
    }
}

impl GameView {
    /// Whether no card is at two places of the table.
    pub open spec fn cards_distinct(self) -> bool {
        cards_distinct(self.deck, self.table_cards, self.players)
    }
}

/// The players of a roster, each by its value.
pub open spec fn roster_view(players: Seq<Player>) -> Seq<PlayerView> {
    players.map_values(|p: Player| p@)
}

/// The first seat at or after `from` whose player has the name.
pub open spec fn seat_from(roster: Seq<PlayerView>, name: Seq<char>, from: int) -> Option<int>
    decreases roster.len() - from,
{
    if from < 0 || from >= roster.len() {
        None
    } else if roster[from].name == name {
        Some(from)
    } else {
        seat_from(roster, name, from + 1)
    }
}

/// Whether deck, board and hole cards hold no card twice: the board and
/// each player's hole cards hold distinct cards, no card of the board or of
/// a player is still in the deck, no hole card is on the board, and no two
/// players share a card. The deck itself never holds a card twice.
pub open spec fn cards_distinct(
    deck: Seq<Card>,
    board: Seq<Card>,
    roster: Seq<PlayerView>,
) -> bool {
    &&& deck.no_duplicates()
    &&& board.no_duplicates()
    &&& forall|c: Card| #[trigger] board.contains(c) ==> !deck.contains(c)
    &&& forall|i: int| 0 <= i < roster.len() ==> (#[trigger] roster[i]).hole_cards().no_duplicates()
    &&& forall|i: int, c: Card|
        0 <= i < roster.len() && #[trigger] roster[i].hole_cards().contains(c) ==> !deck.contains(c)
            && !board.contains(c)
    &&& forall|i: int, j: int, c: Card|
        0 <= i < j < roster.len() && #[trigger] roster[i].hole_cards().contains(c)
            ==> !#[trigger] roster[j].hole_cards().contains(c)
}

/// A copy of a roster.
pub fn copy_roster(players: &Vec<Player>) -> (copy: Vec<Player>)
    ensures
        roster_view(copy@) == roster_view(players@),
{
    let mut copy: Vec<Player> = Vec::new();
    let mut i: usize = 0;
    while i < players.len()
        invariant
            i <= players@.len(),
            copy@.len() == i,
            forall|j: int| 0 <= j < i ==> (#[trigger] copy@[j])@ == players@[j]@,
        decreases players@.len() - i,
    {
        copy.push(players[i].clone());
        i += 1;
    }
    proof {
        assert(roster_view(copy@) =~= roster_view(players@));
    }
    copy
}

/// A copy of a list of hands.
fn copy_hands(hands: &Vec<Hand>) -> (copy: Vec<Hand>)
    ensures
        copy@.map_values(|h: Hand| h@) == hands@.map_values(|h: Hand| h@),
{
    let mut copy: Vec<Hand> = Vec::new();
    let mut i: usize = 0;
    while i < hands.len()
        invariant
            i <= hands@.len(),
            copy@.len() == i,
            forall|j: int| 0 <= j < i ==> (#[trigger] copy@[j])@ == hands@[j]@,
        decreases hands@.len() - i,
    {
        copy.push(hands[i].clone());
        i += 1;
    }
    proof {
        assert(copy@.map_values(|h: Hand| h@) =~= hands@.map_values(|h: Hand| h@));
    }
    copy
}

impl Clone for Game {
    fn clone(&self) -> (copy: Game)
        ensures
            copy@ == self@,
    {
        Game {
            deck: self.deck.clone(),
            player_ct: self.player_ct,
            players: copy_roster(&self.players),
            table_cards: copy_cards(&self.table_cards),
            hand_list: match &self.hand_list {
                Some(hands) => Some(copy_hands(hands)),
                None => None,
            },
        }
    }
}

impl Game {
    /// The players seated, each by its value.
    pub open spec fn roster(&self) -> Seq<PlayerView> {
        roster_view(self.players@)
    }

    /// Whether no card is at two places of the table.
    pub open spec fn cards_distinct(&self) -> bool {
        self@.cards_distinct()
    }

    /// A table with a full, shuffled deck, nobody seated and no board.
    pub fn new() -> (g: Game)
        ensures
            g.deck@.to_multiset() == full_deck().to_multiset(),
            g.deck@.len() == 52,
            g.player_ct == Some(DEFAULT_PLAYER_COUNT),
            g.players@.len() == 0,
            g.table_cards@.len() == 0,
            g.hand_list is None,
            g.cards_distinct(),
    {
        let mut d = Deck::new();
        d.shuffle();
        let g = Game {
            deck: d,
            player_ct: Some(DEFAULT_PLAYER_COUNT),
            players: Vec::new(),
            table_cards: Vec::new(),
            hand_list: None,
        };
        proof {
            assert(g.roster().len() == 0);
        }
        g
    }

    /// The names of the images of the cards, in their order.
    pub fn select_cards_svg(cards: Vec<Card>) -> (names: Vec<String>)
        ensures
            names@.len() == cards@.len(),
            forall|i: int|
                0 <= i < cards@.len() ==> (#[trigger] names@[i])@ == cards@[i].svg_text(),
    {
        cards_svg(&cards)
    }

    /// The seat of the first player with the name.
    pub fn seat_of(&self, name: &str) -> (seat: Result<usize, EngineError>)
        ensures
            match seat {
                Ok(i) => i < self.players@.len() && seat_from(self.roster(), name@, 0) == Some(
                    i as int,
                ),
                Err(e) => e == EngineError::PlayerNotFound && seat_from(self.roster(), name@, 0)
                    is None,
            },
    {
        let wanted = name.to_owned();
        let mut i: usize = 0;
        while i < self.players.len()
            invariant
                i <= self.players@.len(),
                wanted@ == name@,
                seat_from(self.roster(), name@, 0) == seat_from(self.roster(), name@, i as int),
            decreases self.players@.len() - i,
        {
            if self.players[i].name == wanted {
                return Ok(i);
            }
            i += 1;
        }
        Err(EngineError::PlayerNotFound)
    }

    /// A copy of the first player with the name; `None` where nobody has
    /// it.
    pub fn get_player(self, name: &str) -> (found: Option<Player>)
        ensures
            match seat_from(self.roster(), name@, 0) {
                Some(i) => found is Some && found->Some_0@ == self.roster()[i],
                None => found is None,
            },
    {
        match self.seat_of(name) {
            Ok(i) => Some(self.players[i].clone()),
            Err(_) => None,
        }
    }

    /// Seats the player behind those already seated.
    pub fn add_player(&mut self, p: Player) -> (done: Result<(), EngineError>)
        ensures
            done is Ok,
            final(self)@ == (GameView { players: old(self)@.players.push(p@), ..old(self)@ }),
            final(self).players@ == old(self).players@.push(p),
    {
        self.players.push(p);
        proof {
            assert(final(self).roster() =~= old(self).roster().push(p@));
        }
        Ok(())
    }
}

/// A copy of the first player of the table with the name; `None` where
/// nobody has it.
pub fn lookup_player(table: &Game, name: &str) -> (found: Option<Player>)
    ensures
        match seat_from(table.roster(), name@, 0) {
            Some(i) => found is Some && found->Some_0@ == table.roster()[i],
            None => found is None,
        },
{
    match table.seat_of(name) {
        Ok(i) => Some(table.players[i].clone()),
        Err(_) => None,
    }
}

/// The seat that a search by name finds holds the name, and no seat before
/// it does. A search finds nothing only where no seat holds the name.
pub proof fn lemma_seat_from(roster: Seq<PlayerView>, name: Seq<char>, from: int)
    requires
        0 <= from,
    ensures
        match seat_from(roster, name, from) {
            Some(i) => from <= i < roster.len() && roster[i].name == name && forall|j: int|
                from <= j < i ==> (#[trigger] roster[j]).name != name,
            None => forall|j: int| from <= j < roster.len() ==> (#[trigger] roster[j]).name != name,
        },
    decreases roster.len() - from,
{
    if from < roster.len() && roster[from].name != name {
        lemma_seat_from(roster, name, from + 1);
    }
}

} // verus!
