//! The records the ranking reads and the values it produces.
use vstd::prelude::*;

verus! {

/// Why a ranking could not be computed.
#[derive(Debug, Clone, Copy, PartialEq, Eq, Structural)]
pub enum RankingError {
    /// The window starts after it ends.
    InvalidWindow,
    /// Reading the score or achievement records failed.
    DataSourceUnavailable,
}

/// A request: the participant whose rank is wanted and the closed window
/// `[start_timestamp, end_timestamp]` of epoch seconds.
#[derive(Debug, Clone, PartialEq, Eq)]
pub struct GetLeaderboardInfoQuery {
    pub addr: String,
    pub start_timestamp: i64,
    pub end_timestamp: i64,
}

impl GetLeaderboardInfoQuery {
    pub fn new(addr: String, start_timestamp: i64, end_timestamp: i64) -> (r: GetLeaderboardInfoQuery)
        ensures
            r.addr == addr,
            r.start_timestamp == start_timestamp,
            r.end_timestamp == end_timestamp,
    {
        GetLeaderboardInfoQuery { addr, start_timestamp, end_timestamp }
    }
}

/// One participant's score: its identifier (unique among records), its
/// points, and the epoch second of its last update.
#[derive(Debug, Clone, PartialEq, Eq)]
pub struct ScoreRecord {
    pub identifier: String,
    pub score: i64,
    pub timestamp: i64,
}

impl ScoreRecord {
    pub fn new(identifier: String, score: i64, timestamp: i64) -> (r: ScoreRecord)
        ensures
            r.identifier == identifier,
            r.score == score,
            r.timestamp == timestamp,
    {
        ScoreRecord { identifier, score, timestamp }
    }

    /// A copy equal to this record.
    pub fn duplicate(&self) -> (r: ScoreRecord)
        ensures
            r == *self,
    {
        ScoreRecord {
            identifier: self.identifier.clone(),
            score: self.score,
            timestamp: self.timestamp,
        }
    }
}

} // verus!
