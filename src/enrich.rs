//! Attaching to each leading record the number of achievements of its
//! participant.
use vstd::prelude::*;
use crate::model::ScoreRecord;

verus! {

/// One achievement earned by the participant `identifier`.
#[derive(Debug, Clone, PartialEq, Eq)]
pub struct AchievementRecord {
    pub identifier: String,
}

impl AchievementRecord {
    pub fn new(identifier: String) -> (r: AchievementRecord)
        ensures
            r.identifier == identifier,
    {
        AchievementRecord { identifier }
    }
}

/// A leading participant with its score and number of achievements.
#[derive(Debug, Clone, PartialEq, Eq)]
pub struct LeaderboardEntry {
    pub identifier: String,
    pub score: i64,
    pub achievement_count: usize,
}

/// What a leaderboard entry holds, as plain values.
pub struct EntryView {
    pub identifier: Seq<char>,
    pub score: i64,
    pub achievement_count: nat,
}

impl View for LeaderboardEntry {
    type V = EntryView;

    open spec fn view(&self) -> EntryView {
        EntryView {
            identifier: self.identifier@,
            score: self.score,
            achievement_count: self.achievement_count as nat,
        }
    }
}

/// The number of achievements in `a` earned by `id`.
pub open spec fn achievement_count(a: Seq<AchievementRecord>, id: Seq<char>) -> nat
    decreases a.len(),
{
    if a.len() == 0 {
        0
    } else {
        achievement_count(a.drop_last(), id) + if a.last().identifier@ == id {
            1nat
        } else {
            0nat
        }
    }
}

/// The entry that the record `r` becomes, given the achievements `a`.
pub open spec fn entry_of(r: ScoreRecord, a: Seq<AchievementRecord>) -> EntryView {
    EntryView {
        identifier: r.identifier@,
        score: r.score,
        achievement_count: achievement_count(a, r.identifier@),
    }
}

/// The views of a sequence of entries.
pub open spec fn entry_views(v: Seq<LeaderboardEntry>) -> Seq<EntryView> {
    v.map_values(|e: LeaderboardEntry| e@)
}

/// The entries that the records `s` become, in the same order.
pub open spec fn entries_of(s: Seq<ScoreRecord>, a: Seq<AchievementRecord>) -> Seq<EntryView> {
    s.map_values(|r: ScoreRecord| entry_of(r, a))
}

/// Counts the achievements earned by `identifier`.
pub fn count_achievements(achievements: &Vec<AchievementRecord>, identifier: &String) -> (r: usize)
    ensures
        r == achievement_count(achievements@, identifier@),
{
    let n = achievements.len();
    let mut count: usize = 0;
    let mut i: usize = 0;
    while i < n
        invariant
            n == achievements@.len(),
            i <= n,
            count <= i,
            count == achievement_count(achievements@.take(i as int), identifier@),
        decreases n - i,
    {
        assert(achievements@.take(i + 1).drop_last() =~= achievements@.take(i as int));
        assert(achievements@.take(i + 1).last() == achievements@[i as int]);
        if achievements[i].identifier == *identifier {
            count = count + 1;
        }
        i = i + 1;
    }
    assert(achievements@.take(n as int) =~= achievements@);
    count
}

/// Turns each record into an entry carrying its participant's number of
/// achievements, keeping the order.
pub fn enrich(top: &Vec<ScoreRecord>, achievements: &Vec<AchievementRecord>) -> (r: Vec<
    LeaderboardEntry,
>)
    ensures
        entry_views(r@) == entries_of(top@, achievements@),
{
    let mut out: Vec<LeaderboardEntry> = Vec::new();
    let mut i: usize = 0;
    while i < top.len()
        invariant
            i <= top@.len(),
            out@.len() == i,
            entry_views(out@) == entries_of(top@.take(i as int), achievements@),
        decreases top@.len() - i,
    {
        let rec = &top[i];
        let count = count_achievements(achievements, &rec.identifier);
        let ghost before = out@;
        out.push(
            LeaderboardEntry {
                identifier: rec.identifier.clone(),
                score: rec.score,
                achievement_count: count,
            },
        );
        assert forall|k: int| 0 <= k < i + 1 implies #[trigger] entry_views(out@)[k] == entries_of(
            top@.take(i + 1),
            achievements@,
        )[k] by {
            if k < i {
                assert(out@[k] == before[k]);
                assert(entry_views(before)[k] == entries_of(top@.take(i as int), achievements@)[k]);
            }
        }
        assert(entry_views(out@) =~= entries_of(top@.take(i + 1), achievements@));
        i = i + 1;
    }
    assert(top@.take(top@.len() as int) =~= top@);
    out
}

} // verus!
