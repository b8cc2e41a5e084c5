//! Per-player statistics for a competitive game backend.
//!
//! The library holds the pure aggregation logic: folding a player's record,
//! their attack and defense match histories, and the rating-ordered
//! leaderboard into a single summary. Data access (the relational store) is
//! left to the surrounding application, which hands this crate plain values.

pub mod models;
pub mod stats;
