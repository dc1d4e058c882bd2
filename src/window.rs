//! Restricting the score records to a closed window of timestamps.
use vstd::prelude::*;
use crate::model::{GetLeaderboardInfoQuery, RankingError, ScoreRecord};

verus! {

/// `r` was last updated inside `[start, end]`.
pub open spec fn in_window(r: ScoreRecord, start: i64, end: i64) -> bool {
    start <= r.timestamp <= end
}

/// The records of `s` inside `[start, end]`, in the order of `s`.
pub open spec fn window(s: Seq<ScoreRecord>, start: i64, end: i64) -> Seq<ScoreRecord>
    decreases s.len(),
{
    if s.len() == 0 {
        Seq::empty()
    } else {
        let w = window(s.drop_last(), start, end);
        if in_window(s.last(), start, end) {
            w.push(s.last())
        } else {
            w
        }
    }
}

/// No two records share an identifier.
pub open spec fn unique_identifiers(s: Seq<ScoreRecord>) -> bool {
    forall|i: int, j: int|
        0 <= i < s.len() && 0 <= j < s.len() && i != j ==> s[i].identifier@ != s[j].identifier@
}

/// The identifiers of the records in `s`, as a set.
pub open spec fn identifier_set(s: Seq<ScoreRecord>) -> Set<Seq<char>> {
    identifiers(s).to_set()
}

/// The identifiers of the records in `s`, in order.
pub open spec fn identifiers(s: Seq<ScoreRecord>) -> Seq<Seq<char>> {
    s.map_values(|r: ScoreRecord| r.identifier@)
}

/// Rejects a window that starts after it ends.
pub fn validate_window(query: &GetLeaderboardInfoQuery) -> (r: Result<(), RankingError>)
    ensures
        r is Err <==> query.start_timestamp > query.end_timestamp,
        r is Err ==> r == Err::<(), RankingError>(RankingError::InvalidWindow),
{
    if query.start_timestamp > query.end_timestamp {
        Err(RankingError::InvalidWindow)
    } else {
        Ok(())
    }
}

/// The records whose timestamp lies in `[start, end]`, both ends included.
pub fn window_filter(records: &Vec<ScoreRecord>, start: i64, end: i64) -> (r: Result<
    Vec<ScoreRecord>,
    RankingError,
>)
    ensures
        start > end ==> r == Err::<Vec<ScoreRecord>, RankingError>(RankingError::InvalidWindow),
        start <= end ==> r is Ok && r->Ok_0@ == window(records@, start, end),
{
    if start > end {
        return Err(RankingError::InvalidWindow);
    }
    let mut out: Vec<ScoreRecord> = Vec::new();
    let mut i: usize = 0;
    while i < records.len()
        invariant
            i <= records@.len(),
            out@ == window(records@.take(i as int), start, end),
        decreases records@.len() - i,
    {
        let ghost pre = records@.take(i as int);
        assert(records@.take(i + 1).drop_last() =~= pre);
        assert(records@.take(i + 1).last() == records@[i as int]);
        let rec = &records[i];
        if start <= rec.timestamp && rec.timestamp <= end {
            out.push(rec.duplicate());
        }
        i = i + 1;
    }
    assert(records@.take(records@.len() as int) =~= records@);
    Ok(out)
}

/// Whether no two records share an identifier.
pub fn identifiers_unique(records: &Vec<ScoreRecord>) -> (r: bool)
    ensures
        r == unique_identifiers(records@),
{
    let n = records.len();
    let mut i: usize = 0;
    while i < n
        invariant
            n == records@.len(),
            i <= n,
            forall|a: int, b: int|
                0 <= a < i && 0 <= b < n && a != b ==> records@[a].identifier@
                    != records@[b].identifier@,
        decreases n - i,
    {
        let mut j: usize = 0;
        while j < n
            invariant
                n == records@.len(),
                i < n,
                j <= n,
                forall|a: int, b: int|
                    0 <= a < i && 0 <= b < n && a != b ==> records@[a].identifier@
                        != records@[b].identifier@,
                forall|b: int|
                    0 <= b < j && b != i ==> records@[i as int].identifier@
                        != records@[b].identifier@,
            decreases n - j,
        {
            if j != i && records[i].identifier == records[j].identifier {
                return false;
            }
            j = j + 1;
        }
        i = i + 1;
    }
    true
}

/// Every record of the window is a record of `s` inside the window, and
/// every record of `s` inside the window is in it.
pub proof fn lemma_window_members(s: Seq<ScoreRecord>, start: i64, end: i64)
    ensures
        forall|i: int|
            0 <= i < window(s, start, end).len() ==> s.contains(#[trigger] window(s, start, end)[i])
                && in_window(window(s, start, end)[i], start, end),
        forall|i: int|
            0 <= i < s.len() && in_window(#[trigger] s[i], start, end) ==> window(
                s,
                start,
                end,
            ).contains(s[i]),
    decreases s.len(),
{
    if s.len() > 0 {
        let d = s.drop_last();
        lemma_window_members(d, start, end);
        let w = window(d, start, end);
        assert forall|i: int| 0 <= i < window(s, start, end).len() implies s.contains(
            #[trigger] window(s, start, end)[i],
        ) && in_window(window(s, start, end)[i], start, end) by {
            if i < w.len() {
                assert(window(s, start, end)[i] == w[i]);
                let j = choose|j: int| 0 <= j < d.len() && d[j] == w[i];
                assert(s[j] == d[j]);
            } else {
                assert(s[s.len() - 1] == s.last());
            }
        }
        assert forall|i: int| 0 <= i < s.len() && in_window(#[trigger] s[i], start, end) implies window(
            s,
            start,
            end,
        ).contains(s[i]) by {
            if i < s.len() - 1 {
                assert(d[i] == s[i]);
                let k = choose|k: int| 0 <= k < w.len() && w[k] == d[i];
                assert(window(s, start, end)[k] == w[k]);
            } else {
                assert(window(s, start, end)[w.len() as int] == s[i]);
            }
        }
    }
}

/// Keeping part of a sequence keeps its identifiers unique.
pub proof fn lemma_window_unique(s: Seq<ScoreRecord>, start: i64, end: i64)
    requires
        unique_identifiers(s),
    ensures
        unique_identifiers(window(s, start, end)),
    decreases s.len(),
{
    if s.len() > 0 {
        let d = s.drop_last();
        assert(unique_identifiers(d));
        lemma_window_unique(d, start, end);
        if in_window(s.last(), start, end) {
            let w = window(d, start, end);
            lemma_window_members(d, start, end);
            assert(window(s, start, end) == w.push(s.last()));
            assert forall|i: int| 0 <= i < w.len() implies #[trigger] w[i].identifier@
                != s.last().identifier@ by {
                assert(d.contains(w[i]));
                let j = choose|j: int| 0 <= j < d.len() && d[j] == w[i];
                assert(s[j] == d[j]);
            }
        }
    }
}

/// With unique identifiers, the set of identifiers has one member per record.
pub proof fn lemma_identifier_set_len(s: Seq<ScoreRecord>)
    requires
        unique_identifiers(s),
    ensures
        identifier_set(s).len() == s.len(),
{
    let ids = identifiers(s);
    assert forall|i: int, j: int|
        0 <= i < ids.len() && 0 <= j < ids.len() && i != j implies #[trigger] ids[i]
        != #[trigger] ids[j] by {
        assert(ids[i] == s[i].identifier@);
        assert(ids[j] == s[j].identifier@);
    }
    ids.unique_seq_to_set();
}

} // verus!
