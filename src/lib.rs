//! Leaderboard ranking over a time window: the leading participants, the
//! number of participants, and the rank of one participant.
pub mod assemble;
pub mod cache;
pub mod enrich;
pub mod model;
pub mod order;
pub mod ranking;
pub mod window;
