//! The errors that the engine reports.

use vstd::prelude::*;

verus! {

/// Why a step of the engine did not take place. A step that fails leaves
/// the state as it was.
#[derive(Clone, Copy, Debug, PartialEq, Eq, Structural)]
pub enum EngineError {
    /// Hole cards and board together are more cards than a hand holds;
    /// carries their number.
    HandSize(usize),
    /// More cards were asked of the deck than it has left.
    DeckExhausted,
    /// A blind is due and its amount is not set.
    MissingBlindConfiguration,
    /// The step does not follow the phase that the hand is in, or a sixth
    /// board card was asked for.
    InvalidPhaseTransition,
    /// No player at the table has the name.
    PlayerNotFound,
    /// The seat to act is not the one after the big blind.
    TurnOrderViolation,
}

} // verus!
