use leaderboard::assemble::{compute_ranking, RankingResult};
use leaderboard::enrich::{count_achievements, enrich, AchievementRecord};
use leaderboard::model::{GetLeaderboardInfoQuery, RankingError, ScoreRecord};
use leaderboard::order::{identifier_less, record_precedes};
use leaderboard::ranking::{next_in_rank, rank_of, target_rank, top_records};
use leaderboard::window::{identifiers_unique, validate_window, window_filter};

fn rec(id: &str, score: i64, timestamp: i64) -> ScoreRecord {
    ScoreRecord::new(id.to_string(), score, timestamp)
}

fn ach(id: &str) -> AchievementRecord {
    AchievementRecord::new(id.to_string())
}

fn query(addr: &str, start: i64, end: i64) -> GetLeaderboardInfoQuery {
    GetLeaderboardInfoQuery::new(addr.to_string(), start, end)
}

fn ids(r: &RankingResult) -> Vec<String> {
    r.top_entries.iter().map(|e| e.identifier.clone()).collect()
}

#[test]
fn earlier_timestamp_breaks_score_tie() {
    let records = vec![rec("A", 100, 10), rec("B", 100, 5), rec("C", 90, 1)];
    let r = compute_ranking(&query("A", 0, 100), &records, &vec![]).unwrap();
    assert_eq!(ids(&r), vec!["B", "A", "C"]);
    assert_eq!(r.total_participants, 3);
    assert_eq!(r.target_rank, Some(2));
}

#[test]
fn empty_window_gives_empty_result() {
    let records = vec![rec("A", 100, 10), rec("B", 50, 20)];
    let r = compute_ranking(&query("A", 30, 40), &records, &vec![]).unwrap();
    assert_eq!(r.total_participants, 0);
    assert!(r.top_entries.is_empty());
    assert_eq!(r.target_rank, None);
    let r = compute_ranking(&query("A", 0, 10), &vec![], &vec![]).unwrap();
    assert_eq!(r.total_participants, 0);
    assert!(r.top_entries.is_empty());
    assert_eq!(r.target_rank, None);
}

#[test]
fn target_outside_window_has_no_rank() {
    let records = vec![rec("A", 500, 1), rec("B", 100, 10), rec("C", 90, 20)];
    let r = compute_ranking(&query("A", 5, 25), &records, &vec![]).unwrap();
    assert_eq!(r.target_rank, None);
    assert_eq!(r.total_participants, 2);
    assert_eq!(ids(&r), vec!["B", "C"]);
}

#[test]
fn unknown_target_has_no_rank() {
    let records = vec![rec("A", 1, 1)];
    let r = compute_ranking(&query("Z", 0, 5), &records, &vec![]).unwrap();
    assert_eq!(r.target_rank, None);
    assert_eq!(r.total_participants, 1);
}

#[test]
fn inverted_window_is_rejected() {
    let records = vec![rec("A", 100, 10)];
    assert_eq!(
        compute_ranking(&query("A", 11, 10), &records, &vec![]),
        Err(RankingError::InvalidWindow)
    );
    assert_eq!(
        compute_ranking(&query("A", 11, 10), &vec![], &vec![]),
        Err(RankingError::InvalidWindow)
    );
    assert_eq!(validate_window(&query("A", 11, 10)), Err(RankingError::InvalidWindow));
    assert_eq!(validate_window(&query("A", 10, 10)), Ok(()));
    assert_eq!(window_filter(&records, 3, 2), Err(RankingError::InvalidWindow));
}

#[test]
fn window_bounds_are_inclusive() {
    let records = vec![rec("A", 1, 10), rec("B", 2, 20), rec("C", 3, 30), rec("D", 4, 9)];
    let w = window_filter(&records, 10, 30).unwrap();
    assert_eq!(w, vec![rec("A", 1, 10), rec("B", 2, 20), rec("C", 3, 30)]);
    let r = compute_ranking(&query("C", 10, 30), &records, &vec![]).unwrap();
    assert_eq!(r.total_participants, 3);
    assert_eq!(r.target_rank, Some(1));
}

#[test]
fn top_entries_are_at_most_three() {
    let records = vec![
        rec("a", 10, 1),
        rec("b", 50, 1),
        rec("c", 30, 1),
        rec("d", 40, 1),
        rec("e", 20, 1),
    ];
    let r = compute_ranking(&query("e", 0, 1), &records, &vec![]).unwrap();
    assert_eq!(r.total_participants, 5);
    assert_eq!(ids(&r), vec!["b", "d", "c"]);
    assert_eq!(r.target_rank, Some(4));
    let r = compute_ranking(&query("a", 0, 1), &records[..2].to_vec(), &vec![]).unwrap();
    assert_eq!(r.top_entries.len(), 2);
    assert_eq!(r.target_rank, Some(2));
}

#[test]
fn ranks_are_a_permutation() {
    let records = vec![
        rec("x", 7, 3),
        rec("y", 7, 3),
        rec("z", 7, 2),
        rec("w", 9, 8),
        rec("v", 1, 0),
    ];
    let mut ranks: Vec<usize> = (0..records.len()).map(|i| rank_of(&records, i)).collect();
    assert_eq!(ranks, vec![3, 4, 2, 1, 5]);
    ranks.sort();
    assert_eq!(ranks, vec![1, 2, 3, 4, 5]);
}

#[test]
fn identifier_breaks_full_tie() {
    let records = vec![rec("bob", 5, 5), rec("alice", 5, 5), rec("carol", 5, 5)];
    let r = compute_ranking(&query("carol", 0, 10), &records, &vec![]).unwrap();
    assert_eq!(ids(&r), vec!["alice", "bob", "carol"]);
    assert_eq!(r.target_rank, Some(3));
}

#[test]
fn total_counts_only_records_in_window() {
    let records = vec![rec("A", 1, 1), rec("B", 2, 2), rec("C", 3, 100)];
    let r = compute_ranking(&query("C", 0, 10), &records, &vec![]).unwrap();
    assert_eq!(r.total_participants, 2);
    assert_eq!(r.target_rank, None);
}

#[test]
fn repeated_computation_is_identical() {
    let records = vec![rec("A", 3, 3), rec("B", 3, 3), rec("C", 4, 9), rec("D", 2, 1)];
    let achievements = vec![ach("A"), ach("C"), ach("C")];
    let q = query("B", 0, 10);
    let first = compute_ranking(&q, &records, &achievements);
    let second = compute_ranking(&q, &records, &achievements);
    assert_eq!(first, second);
    let mut reordered = records.clone();
    reordered.reverse();
    assert_eq!(compute_ranking(&q, &reordered, &achievements), first);
}

#[test]
fn achievements_are_counted_per_leader() {
    let records = vec![rec("A", 3, 1), rec("B", 2, 1), rec("C", 1, 1), rec("D", 0, 1)];
    let achievements = vec![ach("A"), ach("C"), ach("A"), ach("D"), ach("X")];
    let r = compute_ranking(&query("D", 0, 1), &records, &achievements).unwrap();
    let counts: Vec<usize> = r.top_entries.iter().map(|e| e.achievement_count).collect();
    assert_eq!(counts, vec![2, 0, 1]);
    let scores: Vec<i64> = r.top_entries.iter().map(|e| e.score).collect();
    assert_eq!(scores, vec![3, 2, 1]);
    assert_eq!(count_achievements(&achievements, &"A".to_string()), 2);
    assert_eq!(count_achievements(&achievements, &"Q".to_string()), 0);
    assert_eq!(count_achievements(&vec![], &"A".to_string()), 0);
}

#[test]
fn enrich_keeps_order() {
    let top = vec![rec("C", 9, 1), rec("A", 8, 1)];
    let e = enrich(&top, &vec![ach("A")]);
    assert_eq!(e.len(), 2);
    assert_eq!(e[0].identifier, "C");
    assert_eq!(e[0].achievement_count, 0);
    assert_eq!(e[1].identifier, "A");
    assert_eq!(e[1].achievement_count, 1);
}

#[test]
fn identifiers_compare_by_characters() {
    let s = |x: &str| x.to_string();
    assert!(identifier_less(&s("abc"), &s("abd")));
    assert!(identifier_less(&s("ab"), &s("abc")));
    assert!(!identifier_less(&s("abc"), &s("ab")));
    assert!(!identifier_less(&s("abc"), &s("abc")));
    assert!(identifier_less(&s(""), &s("a")));
    assert!(identifier_less(&s("Z"), &s("a")));
    assert!(identifier_less(&s("a\u{e9}"), &s("a\u{4e2d}")));
    assert!(record_precedes(&rec("z", 2, 9), &rec("a", 1, 0)));
    assert!(record_precedes(&rec("z", 2, 1), &rec("a", 2, 3)));
    assert!(!record_precedes(&rec("a", 2, 1), &rec("a", 2, 1)));
}

#[test]
fn rank_helpers_agree() {
    let w = vec![rec("A", 100, 10), rec("B", 100, 5), rec("C", 90, 1)];
    assert_eq!(next_in_rank(&w, None), Some(1));
    assert_eq!(next_in_rank(&w, Some(1)), Some(0));
    assert_eq!(next_in_rank(&w, Some(0)), Some(2));
    assert_eq!(next_in_rank(&w, Some(2)), None);
    assert_eq!(next_in_rank(&vec![], None), None);
    assert_eq!(target_rank(&w, &"C".to_string()), Some(3));
    assert_eq!(target_rank(&w, &"Q".to_string()), None);
    assert_eq!(top_records(&w), vec![rec("B", 100, 5), rec("A", 100, 10), rec("C", 90, 1)]);
}

#[test]
fn duplicate_identifiers_are_detected() {
    assert!(identifiers_unique(&vec![rec("A", 1, 1), rec("B", 1, 1)]));
    assert!(identifiers_unique(&vec![]));
    assert!(!identifiers_unique(&vec![rec("A", 1, 1), rec("B", 1, 1), rec("A", 2, 2)]));
}
