//! Self-play search for two-player alternating games: a PUCT tree search, the
//! decisions of a batching inference scheduler, and the controller that keeps the
//! batch ceiling proportional to the running searches.
//!
//! The library holds no floating-point numbers. Scores, priors and the exploration
//! constant are fixed-point numbers in 65536ths, and a policy is a list of visit
//! counts with their total. It waits for nothing and runs no model: where a search
//! needs an evaluation, or a scheduler a clock or a channel, the caller does that
//! part and reports back what happened.

pub mod alpha_zero;
pub mod coord_compressor;
pub mod tictactoe;
