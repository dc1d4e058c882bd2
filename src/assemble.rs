//! The whole ranking of one request: window, ranks, achievements, result.
use vstd::prelude::*;
use crate::enrich::{enrich, entries_of, entry_views, AchievementRecord, EntryView, LeaderboardEntry};
use crate::model::{GetLeaderboardInfoQuery, RankingError, ScoreRecord};
use crate::ranking::{
    lemma_ranks_permutation, rank_held, rank_in, target_rank, rank_of_identifier, top_records,
    leading_records,
};
use crate::window::{
    identifier_set, in_window, lemma_identifier_set_len, lemma_window_members, lemma_window_unique,
    unique_identifiers, window, window_filter,
};

verus! {

/// The leading entries of a window, its number of participants, and the rank
/// of the requested participant (`None` when it has no record in the window).
#[derive(Debug, Clone, PartialEq, Eq)]
pub struct RankingResult {
    pub top_entries: Vec<LeaderboardEntry>,
    pub total_participants: usize,
    pub target_rank: Option<usize>,
}

/// What a ranking result holds, as plain values.
pub struct RankingView {
    pub top_entries: Seq<EntryView>,
    pub total_participants: nat,
    pub target_rank: Option<nat>,
}

impl View for RankingResult {
    type V = RankingView;

    open spec fn view(&self) -> RankingView {
        RankingView {
            top_entries: entry_views(self.top_entries@),
            total_participants: self.total_participants as nat,
            target_rank: match self.target_rank {
                Some(k) => Some(k as nat),
                None => None,
            },
        }
    }
}

/// The ranking owed for participant `addr` over the window `[start, end]`.
pub open spec fn expected_ranking(
    addr: Seq<char>,
    start: i64,
    end: i64,
    records: Seq<ScoreRecord>,
    achievements: Seq<AchievementRecord>,
) -> Result<RankingView, RankingError> {
    if start > end {
        Err(RankingError::InvalidWindow)
    } else {
        let w = window(records, start, end);
        Ok(
            RankingView {
                top_entries: entries_of(leading_records(w), achievements),
                total_participants: w.len(),
                target_rank: rank_of_identifier(w, addr),
            },
        )
    }
}

/// A computed result, as plain values.
pub open spec fn result_view(r: Result<RankingResult, RankingError>) -> Result<
    RankingView,
    RankingError,
> {
    match r {
        Ok(v) => Ok(v@),
        Err(e) => Err(e),
    }
}

/// The participants with at least one record in `[start, end]`.
pub open spec fn participants(records: Seq<ScoreRecord>, start: i64, end: i64) -> Set<Seq<char>> {
    Set::new(
        |id: Seq<char>|
            exists|i: int|
                0 <= i < records.len() && in_window(records[i], start, end) && #[trigger] records[i].identifier@
                    == id,
    )
}

/// Ranks the records of the query's window and reports the leading three
/// with their achievements, the number of participants, and the rank of the
/// query's participant.
pub fn compute_ranking(
    query: &GetLeaderboardInfoQuery,
    records: &Vec<ScoreRecord>,
    achievements: &Vec<AchievementRecord>,
) -> (r: Result<RankingResult, RankingError>)
    requires
        unique_identifiers(records@),
    ensures
        result_view(r) == expected_ranking(
            query.addr@,
            query.start_timestamp,
            query.end_timestamp,
            records@,
            achievements@,
        ),
{
    let w = match window_filter(records, query.start_timestamp, query.end_timestamp) {
        Ok(w) => w,
        Err(e) => {
            return Err(e);
        },
    };
    proof {
        lemma_window_unique(records@, query.start_timestamp, query.end_timestamp);
    }
    let top = top_records(&w);
    let top_entries = enrich(&top, achievements);
    let rank = target_rank(&w, &query.addr);
    let result = RankingResult { top_entries, total_participants: w.len(), target_rank: rank };
    assert(result@.target_rank == rank_of_identifier(w@, query.addr@));
    Ok(result)
}

/// For a valid window, the number of leading entries is the smaller of three
/// and the number of participants.
pub proof fn lemma_top_entries_len(
    addr: Seq<char>,
    start: i64,
    end: i64,
    records: Seq<ScoreRecord>,
    achievements: Seq<AchievementRecord>,
)
    requires
        start <= end,
    ensures
        expected_ranking(addr, start, end, records, achievements) matches Ok(v) && v.top_entries.len()
            == if v.total_participants < 3 {
            v.total_participants
        } else {
            3
        },
{
}

/// In any window of records with unique identifiers, the ranks are a
/// permutation of `1..=n`, `n` being the number of records in the window.
pub proof fn lemma_window_ranks_permutation(records: Seq<ScoreRecord>, start: i64, end: i64)
    requires
        unique_identifiers(records),
    ensures
        ({
            let w = window(records, start, end);
            &&& forall|i: int| 0 <= i < w.len() ==> 1 <= #[trigger] rank_in(w, w[i]) <= w.len()
            &&& forall|i: int, j: int|
                0 <= i < w.len() && 0 <= j < w.len() && i != j ==> #[trigger] rank_in(w, w[i])
                    != #[trigger] rank_in(w, w[j])
            &&& forall|k: nat| 1 <= k <= w.len() ==> #[trigger] rank_held(w, k)
        }),
{
    lemma_window_unique(records, start, end);
    lemma_ranks_permutation(window(records, start, end));
}

/// The requested participant has no rank when it has no record in the
/// window; otherwise its rank is one more than the number of records of the
/// window that precede its record.
pub proof fn lemma_target_rank(
    addr: Seq<char>,
    start: i64,
    end: i64,
    records: Seq<ScoreRecord>,
    achievements: Seq<AchievementRecord>,
)
    requires
        start <= end,
        unique_identifiers(records),
    ensures
        (forall|i: int|
            0 <= i < records.len() && in_window(records[i], start, end) ==> #[trigger] records[i].identifier@
                != addr) ==> expected_ranking(addr, start, end, records, achievements)->Ok_0.target_rank
            is None,
        forall|i: int|
            0 <= i < records.len() && in_window(records[i], start, end) && #[trigger] records[i].identifier@
                == addr ==> expected_ranking(addr, start, end, records, achievements)->Ok_0.target_rank
                == Some(rank_in(window(records, start, end), records[i])),
{
    let w = window(records, start, end);
    lemma_window_members(records, start, end);
    lemma_window_unique(records, start, end);
    if exists|j: int| 0 <= j < w.len() && #[trigger] w[j].identifier@ == addr {
        let j = choose|j: int| 0 <= j < w.len() && #[trigger] w[j].identifier@ == addr;
        assert(records.contains(w[j]));
        assert forall|i: int|
            0 <= i < records.len() && in_window(records[i], start, end) && #[trigger] records[i].identifier@
                == addr implies w[j] == records[i] by {
            assert(w.contains(records[i]));
            let m = choose|m: int| 0 <= m < w.len() && w[m] == records[i];
            assert(m == j);
        }
    }
}

/// The number of participants is the number of distinct identifiers with a
/// record inside the window; records outside it are not counted.
pub proof fn lemma_total_participants(
    addr: Seq<char>,
    start: i64,
    end: i64,
    records: Seq<ScoreRecord>,
    achievements: Seq<AchievementRecord>,
)
    requires
        start <= end,
        unique_identifiers(records),
    ensures
        expected_ranking(addr, start, end, records, achievements)->Ok_0.total_participants
            == participants(records, start, end).len(),
{
    let w = window(records, start, end);
    lemma_window_members(records, start, end);
    lemma_window_unique(records, start, end);
    lemma_identifier_set_len(w);
    assert forall|id: Seq<char>| participants(records, start, end).contains(id) <==> identifier_set(
        w,
    ).contains(id) by {
        let ids = w.map_values(|r: ScoreRecord| r.identifier@);
        if participants(records, start, end).contains(id) {
            let i = choose|i: int|
                0 <= i < records.len() && in_window(records[i], start, end) && #[trigger] records[i].identifier@
                    == id;
            assert(w.contains(records[i]));
            let m = choose|m: int| 0 <= m < w.len() && w[m] == records[i];
            assert(ids[m] == id);
        }
        if identifier_set(w).contains(id) {
            let m = choose|m: int| 0 <= m < ids.len() && ids[m] == id;
            assert(w[m].identifier@ == id);
            assert(records.contains(w[m]));
            let i = choose|i: int| 0 <= i < records.len() && records[i] == w[m];
            assert(records[i].identifier@ == id);
        }
    }
    assert(participants(records, start, end) =~= identifier_set(w));
}

/// Two computations on the same query and the same records give the same
/// result.
pub proof fn lemma_ranking_deterministic(
    query: GetLeaderboardInfoQuery,
    records: Seq<ScoreRecord>,
    achievements: Seq<AchievementRecord>,
    r1: Result<RankingResult, RankingError>,
    r2: Result<RankingResult, RankingError>,
)
    requires
        result_view(r1) == expected_ranking(
            query.addr@,
            query.start_timestamp,
            query.end_timestamp,
            records,
            achievements,
        ),
        result_view(r2) == expected_ranking(
            query.addr@,
            query.start_timestamp,
            query.end_timestamp,
            records,
            achievements,
        ),
    ensures
        result_view(r1) == result_view(r2),
{
}

/// A window that starts after it ends is always rejected, never ranked.
pub proof fn lemma_invalid_window(
    addr: Seq<char>,
    start: i64,
    end: i64,
    records: Seq<ScoreRecord>,
    achievements: Seq<AchievementRecord>,
)
    requires
        start > end,
    ensures
        expected_ranking(addr, start, end, records, achievements) == Err::<RankingView, RankingError>(
            RankingError::InvalidWindow,
        ),
{
}

} // verus!
