//! A Texas Hold'em table engine: cards and decks, hands and their
//! strength, players, the table, and the controller that runs one hand.

pub mod best_five;
pub mod card;
pub mod card_order;
pub mod decisions;
pub mod deck;
pub mod error;
pub mod evaluator;
pub mod game_master;
pub mod hand;
pub mod invariants;
pub mod phases;
pub mod player;
pub mod random;
pub mod rank;
pub mod seating;
pub mod simulation;
pub mod table;
pub mod wheel;

pub use card::{Card, Rank, Suit};
pub use deck::Deck;
pub use error::EngineError;
pub use evaluator::HandEvaluator;
pub use decisions::{DecisionHandler, PlayerDecisions};
pub use game_master::{create_table, deal_next_community_card, run_to_flop, GameMaster};
pub use hand::{Hand, HandError};
pub use phases::Phase;
pub use player::{hand_to_display_tokens, Player};
pub use rank::{HandCategory, HandRank, TieBreak};
pub use seating::setup_players;
pub use simulation::{simulation_builder, track_simulation_pairs, MonteCarloPairDistribution};
pub use table::{lookup_player, Game};
