//! What a player can decide. The engine asks for no decision yet; the
//! types stand ready for when it does.

use vstd::prelude::*;

verus! {

/// What a player can decide when it is their turn.
#[derive(Clone, Copy, Debug, PartialEq, Eq, Structural, Hash)]
pub enum PlayerDecisions {
    Call,
    Bet,
    Raise,
    Shove,
    Check,
    Fold,
}

/// The place where a player's decisions will be taken; nothing is decided
/// yet.
#[derive(Clone, Copy, Debug)]
pub struct DecisionHandler {}

impl PlayerDecisions {
    /// All decisions there are.
    pub fn _get_all_options() -> (options: Vec<PlayerDecisions>)
        ensures
            options@ == seq![
                PlayerDecisions::Call,
                PlayerDecisions::Bet,
                PlayerDecisions::Check,
                PlayerDecisions::Raise,
                PlayerDecisions::Shove,
                PlayerDecisions::Fold,
            ],
    {
        let options = vec![
            PlayerDecisions::Call,
            PlayerDecisions::Bet,
            PlayerDecisions::Check,
            PlayerDecisions::Raise,
            PlayerDecisions::Shove,
            PlayerDecisions::Fold,
        ];
        proof {
            assert(options@ =~= seq![
                PlayerDecisions::Call,
                PlayerDecisions::Bet,
                PlayerDecisions::Check,
                PlayerDecisions::Raise,
                PlayerDecisions::Shove,
                PlayerDecisions::Fold,
            ]);
        }
        options
    }
}

} // verus!
