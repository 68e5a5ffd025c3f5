//! What holds of the table after every step of a hand: no card is at two
//! places, the board only grows, and the seat to act follows the big blind.

use crate::card::Card;
use crate::error::EngineError;
use crate::evaluator::best_rank;
use crate::phases::{
    lemma_overfull_from, mark_turn, merge_outcome, score_all, GameMasterView, Phase,
};
use crate::player::PlayerView;
use crate::table::cards_distinct;
use vstd::prelude::*;

verus! {

/// A card of a stretch of a sequence stands at a position of the stretch.
proof fn lemma_stretch_position(s: Seq<Card>, from: int, to: int, c: Card) -> (i: int)
    requires
        0 <= from <= to <= s.len(),
        s.subrange(from, to).contains(c),
    ensures
        from <= i < to,
        s[i] == c,
{
    let t = s.subrange(from, to);
    let j = choose|j: int| 0 <= j < t.len() && t[j] == c;
    from + j
}

/// Whether two rosters have the same hole cards seat by seat.
pub open spec fn same_hole_cards(a: Seq<PlayerView>, b: Seq<PlayerView>) -> bool {
    a.len() == b.len() && forall|i: int|
        0 <= i < a.len() ==> (#[trigger] a[i]).hole_cards() == b[i].hole_cards()
}

/// Whether a card is at two places depends on the hole cards alone, not on
/// what else the players hold.
pub proof fn lemma_distinct_by_hole_cards(
    deck: Seq<Card>,
    board: Seq<Card>,
    a: Seq<PlayerView>,
    b: Seq<PlayerView>,
)
    requires
        same_hole_cards(a, b),
        cards_distinct(deck, board, a),
    ensures
        cards_distinct(deck, board, b),
{
    assert forall|i: int| 0 <= i < b.len() implies (#[trigger] b[i]).hole_cards().no_duplicates() by {
        assert(a[i].hole_cards() == b[i].hole_cards());
    }
    assert forall|i: int, c: Card|
        0 <= i < b.len() && #[trigger] b[i].hole_cards().contains(c) implies !deck.contains(c)
        && !board.contains(c) by {
        assert(a[i].hole_cards() == b[i].hole_cards());
    }
    assert forall|i: int, j: int, c: Card|
        0 <= i < j < b.len() && #[trigger] b[i].hole_cards().contains(c)
        implies !#[trigger] b[j].hole_cards().contains(c) by {
        assert(a[i].hole_cards() == b[i].hole_cards());
        assert(a[j].hole_cards() == b[j].hole_cards());
    }
}

/// Merging the board and ranking leave everybody's hole cards as they are.
pub proof fn lemma_scoring_keeps_hole_cards(roster: Seq<PlayerView>, board: Seq<Card>)
    ensures
        same_hole_cards(roster, score_all(roster, board)),
{
}

/// Where every hand has room for the board, scoring merges the board into
/// the hand of every player who has hole cards and ranks the merged hand.
/// A player without hole cards stays as it is.
pub proof fn lemma_scoring_merges_all(roster: Seq<PlayerView>, board: Seq<Card>)
    requires
        merge_outcome(roster, board.len() as int) is Ok,
    ensures
        score_all(roster, board).len() == roster.len(),
        forall|i: int|
            0 <= i < roster.len() && (#[trigger] roster[i]).hand is Some ==> score_all(
                roster,
                board,
            )[i] == (PlayerView {
                board_hand: Some(roster[i].hole_cards() + board),
                rank: Some(best_rank(roster[i].hole_cards() + board)),
                ..roster[i]
            }),
        forall|i: int|
            0 <= i < roster.len() && (#[trigger] roster[i]).hand is None ==> score_all(
                roster,
                board,
            )[i] == roster[i].evaluated(),
{
    lemma_overfull_from(roster, board.len() as int, 0);
}

/// Marking the seat to act leaves everybody's hole cards as they are.
pub proof fn lemma_marking_keeps_hole_cards(roster: Seq<PlayerView>, seat: int)
    ensures
        same_hole_cards(roster, mark_turn(roster, seat)),
{
}

/// Posting the blinds touches no card.
pub proof fn lemma_blinds_keep_cards(m: GameMasterView)
    ensures
        m.blinds_posted().gamestate == m.gamestate,
{
}

/// Dealing hole cards puts no card at two places: the cards dealt leave
/// the deck, and each goes to one player.
pub proof fn lemma_deal_keeps_distinct(m: GameMasterView)
    requires
        m.gamestate.cards_distinct(),
    ensures
        m.hole_cards_dealt().gamestate.cards_distinct(),
        m.hole_cards_dealt().gamestate.table_cards == m.gamestate.table_cards,
{
    let deck = m.gamestate.deck;
    let board = m.gamestate.table_cards;
    let len = deck.len() as int;
    let k = m.dealt_count();
    let old_roster = m.gamestate.players;
    let seats = old_roster.len() as int;
    let after = m.hole_cards_dealt().gamestate;
    let deck2 = after.deck;
    let roster = after.players;
    assert(roster.len() == seats + k);
    assert forall|c: Card| #[trigger] deck2.contains(c) implies deck.contains(c) by {
        let i = lemma_stretch_position(deck, 0, len - 2 * k, c);
    }
    assert forall|i: int| seats <= i < seats + k implies (#[trigger] roster[i]).hole_cards()
        == deck.subrange(len - 2 * (i - seats + 1), len - 2 * (i - seats)) by {
        assert(roster[i] == m.seated(i - seats));
    }
    assert forall|i: int| 0 <= i < seats implies (#[trigger] roster[i]) == old_roster[i] by {}
    assert forall|i: int| 0 <= i < roster.len() implies (
    #[trigger] roster[i]).hole_cards().no_duplicates() by {
        if i >= seats {
            let h = roster[i].hole_cards();
            assert forall|a: int, b: int|
                0 <= a < h.len() && 0 <= b < h.len() && a != b implies h[a] != h[b] by {
                assert(h[a] == deck[len - 2 * (i - seats + 1) + a]);
                assert(h[b] == deck[len - 2 * (i - seats + 1) + b]);
            }
        }
    }
    assert forall|i: int, c: Card|
        0 <= i < roster.len() && #[trigger] roster[i].hole_cards().contains(c)
        implies !deck2.contains(c) && !board.contains(c) by {
        if i >= seats {
            let a = lemma_stretch_position(
                deck,
                len - 2 * (i - seats + 1),
                len - 2 * (i - seats),
                c,
            );
            assert(deck.contains(c));
            if deck2.contains(c) {
                let b = lemma_stretch_position(deck, 0, len - 2 * k, c);
            }
        }
    }
    assert forall|i: int, j: int, c: Card|
        0 <= i < j < roster.len() && #[trigger] roster[i].hole_cards().contains(c)
        implies !#[trigger] roster[j].hole_cards().contains(c) by {
        if j >= seats && roster[j].hole_cards().contains(c) {
            let b = lemma_stretch_position(
                deck,
                len - 2 * (j - seats + 1),
                len - 2 * (j - seats),
                c,
            );
            assert(deck.contains(c));
            if i >= seats {
                let a = lemma_stretch_position(
                    deck,
                    len - 2 * (i - seats + 1),
                    len - 2 * (i - seats),
                    c,
                );
            }
        }
    }
    assert(deck2.no_duplicates());
}

/// Marking the seat to act puts no card at two places.
pub proof fn lemma_turn_keeps_distinct(m: GameMasterView)
    requires
        m.gamestate.cards_distinct(),
    ensures
        m.turn_started().gamestate.cards_distinct(),
        m.turn_started().gamestate.table_cards == m.gamestate.table_cards,
{
    lemma_marking_keeps_hole_cards(m.gamestate.players, m.turn_index as int);
    lemma_distinct_by_hole_cards(
        m.gamestate.deck,
        m.gamestate.table_cards,
        m.gamestate.players,
        m.turn_started().gamestate.players,
    );
}

/// Moving cards from the end of the deck to the board puts no card at two
/// places. The board may keep what it had or start anew, and cards between
/// those taken and the end of the deck may be burned.
proof fn lemma_board_from_deck(
    deck: Seq<Card>,
    board: Seq<Card>,
    roster: Seq<PlayerView>,
    kept: Seq<Card>,
    from: int,
    to: int,
)
    requires
        cards_distinct(deck, board, roster),
        0 <= from <= to <= deck.len(),
        kept.len() == 0 || kept == board,
    ensures
        cards_distinct(deck.subrange(0, from), kept + deck.subrange(from, to), roster),
{
    let deck2 = deck.subrange(0, from);
    let added = deck.subrange(from, to);
    let board2 = kept + added;
    assert forall|c: Card| #[trigger] deck2.contains(c) implies deck.contains(c) by {
        let i = lemma_stretch_position(deck, 0, from, c);
    }
    assert forall|c: Card| #[trigger] added.contains(c) implies deck.contains(c)
        && !deck2.contains(c) by {
        let i = lemma_stretch_position(deck, from, to, c);
        if deck2.contains(c) {
            let j = lemma_stretch_position(deck, 0, from, c);
        }
    }
    assert forall|c: Card| #[trigger] board2.contains(c) implies (kept.contains(c) || added.contains(
        c,
    )) by {
        let i = choose|i: int| 0 <= i < board2.len() && board2[i] == c;
        if i < kept.len() {
            assert(kept[i] == c);
        } else {
            assert(added[i - kept.len()] == c);
        }
    }
    assert(added.no_duplicates()) by {
        assert forall|a: int, b: int|
            0 <= a < added.len() && 0 <= b < added.len() && a != b implies added[a] != added[b] by {
            assert(added[a] == deck[from + a]);
            assert(added[b] == deck[from + b]);
        }
    }
    assert(board2.no_duplicates()) by {
        assert forall|a: int, b: int|
            0 <= a < board2.len() && 0 <= b < board2.len() && a != b implies board2[a]
            != board2[b] by {
            if a < kept.len() && b >= kept.len() {
                assert(kept.contains(board2[a]));
                assert(added.contains(added[b - kept.len()]));
            } else if b < kept.len() && a >= kept.len() {
                assert(kept.contains(board2[b]));
                assert(added.contains(added[a - kept.len()]));
            }
        }
    }
    assert forall|i: int, c: Card|
        0 <= i < roster.len() && #[trigger] roster[i].hole_cards().contains(c)
        implies !deck2.contains(c) && !board2.contains(c) by {
        if board2.contains(c) {
            assert(kept.contains(c) || added.contains(c));
        }
    }
}

/// Dealing the flop puts no card at two places, and the board then has
/// three cards.
pub proof fn lemma_flop_keeps_distinct(m: GameMasterView)
    requires
        m.gamestate.cards_distinct(),
        m.gamestate.deck.len() >= 4,
    ensures
        m.flop_dealt().gamestate.cards_distinct(),
        m.flop_dealt().gamestate.table_cards.len() == 3,
{
    let deck = m.gamestate.deck;
    let len = deck.len() as int;
    lemma_board_from_deck(
        deck,
        m.gamestate.table_cards,
        m.gamestate.players,
        Seq::empty(),
        len - 4,
        len - 1,
    );
    assert(Seq::<Card>::empty() + deck.subrange(len - 4, len - 1) =~= m.flop_cards());
    lemma_scoring_keeps_hole_cards(m.gamestate.players, m.flop_cards());
    lemma_distinct_by_hole_cards(
        deck.subrange(0, len - 4),
        m.flop_cards(),
        m.gamestate.players,
        m.flop_dealt().gamestate.players,
    );
}

/// Dealing one more board card puts no card at two places. The board
/// keeps the cards it had, in their order, and has one more.
pub proof fn lemma_street_keeps_distinct(m: GameMasterView)
    requires
        m.gamestate.cards_distinct(),
        m.gamestate.deck.len() >= 2,
    ensures
        m.street_dealt().gamestate.cards_distinct(),
        m.street_dealt().gamestate.table_cards.len() == m.gamestate.table_cards.len() + 1,
        m.street_dealt().gamestate.table_cards.subrange(0, m.gamestate.table_cards.len() as int)
            == m.gamestate.table_cards,
        m.street_dealt().players == m.street_dealt().gamestate.players,
{
    let deck = m.gamestate.deck;
    let len = deck.len() as int;
    let board = m.gamestate.table_cards;
    lemma_board_from_deck(deck, board, m.gamestate.players, board, len - 2, len - 1);
    assert(board + deck.subrange(len - 2, len - 1) =~= m.next_board());
    lemma_scoring_keeps_hole_cards(m.gamestate.players, m.next_board());
    lemma_distinct_by_hole_cards(
        deck.subrange(0, len - 2),
        m.next_board(),
        m.gamestate.players,
        m.street_dealt().gamestate.players,
    );
    assert(m.next_board().subrange(0, board.len() as int) =~= board);
}

/// A hand that ran up to the flop: no card is at two places, the board
/// has three cards, the controller's roster is that of the table, and the
/// seat to act is the one after the big blind.
pub proof fn lemma_run_keeps_distinct(m: GameMasterView)
    requires
        m.gamestate.cards_distinct(),
        m.run_outcome() is Ok,
    ensures
        m.run_to_flop().gamestate.cards_distinct(),
        m.run_to_flop().gamestate.table_cards.len() == 3,
        m.run_to_flop().players == m.run_to_flop().gamestate.players,
        m.run_to_flop().turn_index == m.run_to_flop().bb_position + 1,
        m.run_to_flop().phase == Phase::FlopDealt,
{
    let a = m.blinds_posted();
    lemma_blinds_keep_cards(m);
    let b = a.hole_cards_dealt();
    lemma_deal_keeps_distinct(a);
    let c = b.turn_started();
    lemma_turn_keeps_distinct(b);
    assert(a.dealt_count() == m.dealt_count());
    assert(c.gamestate.deck.len() >= 4);
    lemma_flop_keeps_distinct(c);
}

/// A hand run up to the flop at a table where nobody sat yet: every player
/// of the controller's roster sits at the table with exactly two hole
/// cards, nobody was skipped, and the deck is shorter by two cards for each
/// player and four for the flop.
pub proof fn lemma_run_seats_everyone(m: GameMasterView)
    requires
        m.gamestate.players.len() == 0,
        m.run_outcome() is Ok,
    ensures
        m.run_to_flop().gamestate.players.len() == m.players.len(),
        forall|i: int|
            0 <= i < m.players.len() ==> (#[trigger] m.run_to_flop().gamestate.players[i]).hand
                is Some && m.run_to_flop().gamestate.players[i].hole_cards().len() == 2,
        forall|i: int|
            0 <= i < m.players.len() ==> (#[trigger] m.run_to_flop().gamestate.players[i]).name
                == m.players[i].name,
        forall|i: int|
            0 <= i < m.players.len() ==> (
            #[trigger] m.run_to_flop().gamestate.players[i]).board_hand == Some(
                m.run_to_flop().gamestate.players[i].hole_cards()
                    + m.run_to_flop().gamestate.table_cards,
            ) && m.run_to_flop().gamestate.players[i].rank == Some(
                best_rank(
                    m.run_to_flop().gamestate.players[i].hole_cards()
                        + m.run_to_flop().gamestate.table_cards,
                ),
            ),
        m.run_to_flop().skipped_seats == m.skipped_seats,
        m.run_to_flop().gamestate.deck.len() + 2 * m.players.len() + 4 == m.gamestate.deck.len(),
{
    let a = m.blinds_posted();
    let b = a.hole_cards_dealt();
    let c = b.turn_started();
    let d = c.flop_dealt();
    let n = m.players.len() as int;
    assert(a.players.len() == n);
    assert(a.dealt_count() == m.dealt_count());
    assert(m.dealt_count() == n) by {
        if m.dealt_count() != n {
            assert(m.dealt_count() == m.gamestate.deck.len() as int / 2);
        }
    }
    assert(b.gamestate.players.len() == n);
    assert(b.skipped_seats =~= m.skipped_seats);
    assert forall|i: int| 0 <= i < n implies (#[trigger] d.gamestate.players[i]).hand is Some
        && d.gamestate.players[i].hole_cards().len() == 2 && d.gamestate.players[i].name
        == m.players[i].name && d.gamestate.players[i].board_hand == Some(
        d.gamestate.players[i].hole_cards() + d.gamestate.table_cards,
    ) && d.gamestate.players[i].rank == Some(
        best_rank(d.gamestate.players[i].hole_cards() + d.gamestate.table_cards),
    ) by {
        assert(b.gamestate.players[i] == a.seated(i));
        assert(a.players[i].name == m.players[i].name);
        assert(c.gamestate.players[i].hole_cards() == a.hole_cards_of(i));
    }
}

/// With five cards on the board, or before the flop, no further board card
/// is dealt.
pub proof fn lemma_no_sixth_card(m: GameMasterView)
    requires
        m.gamestate.table_cards.len() >= 5 || (m.phase != Phase::FlopDealt && m.phase
            != Phase::TurnDealt),
    ensures
        m.street_outcome() == Err::<(), EngineError>(EngineError::InvalidPhaseTransition),
{
}

/// After the flop, at a table where nobody holds more than two hole cards,
/// the board takes two more cards and then no more.
pub proof fn lemma_two_streets(m: GameMasterView)
    requires
        m.phase == Phase::FlopDealt,
        m.gamestate.table_cards.len() == 3,
        m.gamestate.deck.len() >= 4,
        forall|i: int|
            0 <= i < m.gamestate.players.len() ==> (
            #[trigger] m.gamestate.players[i]).hole_cards().len() <= 2,
    ensures
        m.street_outcome() is Ok,
        m.street_dealt().street_outcome() is Ok,
        m.street_dealt().street_dealt().gamestate.table_cards.len() == 5,
        m.street_dealt().street_dealt().phase == Phase::RiverDealt,
        m.street_dealt().street_dealt().street_outcome() == Err::<(), EngineError>(
            EngineError::InvalidPhaseTransition,
        ),
{
    let turn = m.street_dealt();
    lemma_overfull_from(m.gamestate.players, 4, 0);
    lemma_scoring_keeps_hole_cards(m.gamestate.players, m.next_board());
    lemma_overfull_from(turn.gamestate.players, 5, 0);
    assert forall|j: int| 0 <= j < turn.gamestate.players.len() implies (
    #[trigger] turn.gamestate.players[j]).hole_cards().len() <= 2 by {
        assert(m.gamestate.players[j].hole_cards() == turn.gamestate.players[j].hole_cards());
    }
}

} // verus!
