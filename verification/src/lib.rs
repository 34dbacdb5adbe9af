//! Discounted counterfactual regret minimisation for two-player zero-sum
//! games of imperfect information, generic over the game and over the
//! numbers it computes with.

pub mod scalar;
pub mod fixed;
pub mod vector;
pub mod matching;
pub mod bounds;
pub mod game;
pub mod update;
pub mod model;
pub mod cfr;
pub mod equity;
pub mod game_kuhn;
pub mod game_push_fold;
