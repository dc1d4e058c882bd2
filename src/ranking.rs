//! Ranks within a window: the rank of a record is one more than the number of
//! records that precede it under the sort key.
use vstd::prelude::*;
use vstd::set_lib::{lemma_int_range, lemma_map_size, lemma_subset_equality, set_int_range};
use crate::model::ScoreRecord;
use crate::order::{
    lemma_precedes_asymmetric, lemma_precedes_irreflexive, lemma_precedes_total,
    lemma_precedes_transitive, precedes, record_precedes,
};
use crate::window::unique_identifiers;

verus! {

/// How many records of `s` precede `x`.
pub open spec fn count_preceding(s: Seq<ScoreRecord>, x: ScoreRecord) -> nat
    decreases s.len(),
{
    if s.len() == 0 {
        0
    } else {
        count_preceding(s.drop_last(), x) + if precedes(s.last(), x) {
            1nat
        } else {
            0nat
        }
    }
}

/// The 1-based position of `x` among the records of `s` under the sort key.
pub open spec fn rank_in(s: Seq<ScoreRecord>, x: ScoreRecord) -> nat {
    count_preceding(s, x) + 1
}

/// Some record of `w` holds rank `k`.
pub open spec fn rank_held(w: Seq<ScoreRecord>, k: nat) -> bool {
    exists|i: int| 0 <= i < w.len() && #[trigger] rank_in(w, w[i]) == k
}

/// The record of `w` that holds rank `k`.
pub open spec fn record_at_rank(w: Seq<ScoreRecord>, k: nat) -> ScoreRecord {
    w[choose|i: int| 0 <= i < w.len() && rank_in(w, w[i]) == k]
}

/// The rank of the record of `w` with identifier `id`, or `None` if there is
/// no such record.
pub open spec fn rank_of_identifier(w: Seq<ScoreRecord>, id: Seq<char>) -> Option<nat> {
    if exists|i: int| 0 <= i < w.len() && #[trigger] w[i].identifier@ == id {
        Some(rank_in(w, w[choose|i: int| 0 <= i < w.len() && #[trigger] w[i].identifier@ == id]))
    } else {
        None
    }
}

/// The first `min(3, w.len())` records of `w` in rank order.
pub open spec fn leading_records(w: Seq<ScoreRecord>) -> Seq<ScoreRecord> {
    Seq::new(
        if w.len() < 3 {
            w.len()
        } else {
            3
        },
        |k: int| record_at_rank(w, (k + 1) as nat),
    )
}

proof fn lemma_count_le_len(s: Seq<ScoreRecord>, x: ScoreRecord)
    ensures
        count_preceding(s, x) <= s.len(),
    decreases s.len(),
{
    if s.len() > 0 {
        lemma_count_le_len(s.drop_last(), x);
    }
}

proof fn lemma_count_below_len(s: Seq<ScoreRecord>, x: ScoreRecord, p: int)
    requires
        0 <= p < s.len(),
        !precedes(s[p], x),
    ensures
        count_preceding(s, x) < s.len(),
    decreases s.len(),
{
    if p < s.len() - 1 {
        assert(s.drop_last()[p] == s[p]);
        lemma_count_below_len(s.drop_last(), x, p);
    } else {
        lemma_count_le_len(s.drop_last(), x);
    }
}

proof fn lemma_count_zero(s: Seq<ScoreRecord>, x: ScoreRecord)
    requires
        forall|j: int| 0 <= j < s.len() ==> !precedes(#[trigger] s[j], x),
    ensures
        count_preceding(s, x) == 0,
    decreases s.len(),
{
    if s.len() > 0 {
        assert forall|j: int| 0 <= j < s.drop_last().len() implies !precedes(
            #[trigger] s.drop_last()[j],
            x,
        ) by {
            assert(s.drop_last()[j] == s[j]);
        }
        lemma_count_zero(s.drop_last(), x);
    }
}

proof fn lemma_count_all_but(s: Seq<ScoreRecord>, x: ScoreRecord, p: int)
    requires
        0 <= p < s.len(),
        !precedes(s[p], x),
        forall|j: int| 0 <= j < s.len() && j != p ==> precedes(#[trigger] s[j], x),
    ensures
        count_preceding(s, x) == s.len() - 1,
    decreases s.len(),
{
    let d = s.drop_last();
    if p < s.len() - 1 {
        assert forall|j: int| 0 <= j < d.len() && j != p implies precedes(#[trigger] d[j], x) by {
            assert(d[j] == s[j]);
        }
        assert(d[p] == s[p]);
        assert(precedes(s[s.len() - 1], x));
        lemma_count_all_but(d, x, p);
    } else {
        assert(s.last() == s[p]);
        assert forall|j: int| 0 <= j < d.len() implies precedes(#[trigger] d[j], x) by {
            assert(d[j] == s[j]);
        }
        lemma_count_all(d, x);
    }
}

proof fn lemma_count_all(s: Seq<ScoreRecord>, x: ScoreRecord)
    requires
        forall|j: int| 0 <= j < s.len() ==> precedes(#[trigger] s[j], x),
    ensures
        count_preceding(s, x) == s.len(),
    decreases s.len(),
{
    if s.len() > 0 {
        let d = s.drop_last();
        assert forall|j: int| 0 <= j < d.len() implies precedes(#[trigger] d[j], x) by {
            assert(d[j] == s[j]);
        }
        lemma_count_all(d, x);
    }
}

/// If the records preceding `y` are those preceding `x` together with the
/// one record at `p`, which does not precede `x`, then `y` has one more.
proof fn lemma_count_successor(s: Seq<ScoreRecord>, x: ScoreRecord, y: ScoreRecord, p: int)
    requires
        0 <= p < s.len(),
        !precedes(s[p], x),
        forall|j: int|
            0 <= j < s.len() ==> (precedes(#[trigger] s[j], y) <==> (precedes(s[j], x) || j == p)),
    ensures
        count_preceding(s, y) == count_preceding(s, x) + 1,
    decreases s.len(),
{
    let d = s.drop_last();
    if p < s.len() - 1 {
        assert forall|j: int| 0 <= j < d.len() implies (precedes(#[trigger] d[j], y) <==> (
        precedes(d[j], x) || j == p)) by {
            assert(d[j] == s[j]);
        }
        assert(d[p] == s[p]);
        lemma_count_successor(d, x, y, p);
    } else {
        assert forall|j: int| 0 <= j < d.len() implies (precedes(#[trigger] d[j], y) <==> precedes(
            d[j],
            x,
        )) by {
            assert(d[j] == s[j]);
        }
        lemma_count_same(d, x, y);
    }
}

proof fn lemma_count_same(s: Seq<ScoreRecord>, x: ScoreRecord, y: ScoreRecord)
    requires
        forall|j: int| 0 <= j < s.len() ==> (precedes(#[trigger] s[j], y) <==> precedes(s[j], x)),
    ensures
        count_preceding(s, y) == count_preceding(s, x),
    decreases s.len(),
{
    if s.len() > 0 {
        let d = s.drop_last();
        assert forall|j: int| 0 <= j < d.len() implies (precedes(#[trigger] d[j], y) <==> precedes(
            d[j],
            x,
        )) by {
            assert(d[j] == s[j]);
        }
        lemma_count_same(d, x, y);
    }
}

/// If everything preceding `x` also precedes `y`, and one record precedes
/// `y` but not `x`, then fewer records precede `x`.
proof fn lemma_count_strictly_less(s: Seq<ScoreRecord>, x: ScoreRecord, y: ScoreRecord, p: int)
    requires
        0 <= p < s.len(),
        precedes(s[p], y),
        !precedes(s[p], x),
        forall|j: int| 0 <= j < s.len() && precedes(#[trigger] s[j], x) ==> precedes(s[j], y),
    ensures
        count_preceding(s, x) < count_preceding(s, y),
    decreases s.len(),
{
    let d = s.drop_last();
    assert forall|j: int| 0 <= j < d.len() && precedes(#[trigger] d[j], x) implies precedes(
        d[j],
        y,
    ) by {
        assert(d[j] == s[j]);
    }
    if p < s.len() - 1 {
        assert(d[p] == s[p]);
        lemma_count_strictly_less(d, x, y, p);
    } else {
        lemma_count_le(d, x, y);
    }
}

proof fn lemma_count_le(s: Seq<ScoreRecord>, x: ScoreRecord, y: ScoreRecord)
    requires
        forall|j: int| 0 <= j < s.len() && precedes(#[trigger] s[j], x) ==> precedes(s[j], y),
    ensures
        count_preceding(s, x) <= count_preceding(s, y),
    decreases s.len(),
{
    if s.len() > 0 {
        let d = s.drop_last();
        assert forall|j: int| 0 <= j < d.len() && precedes(#[trigger] d[j], x) implies precedes(
            d[j],
            y,
        ) by {
            assert(d[j] == s[j]);
        }
        lemma_count_le(d, x, y);
    }
}

/// A record that precedes another has a smaller rank.
pub proof fn lemma_rank_order(w: Seq<ScoreRecord>, i: int, j: int)
    requires
        0 <= i < w.len(),
        0 <= j < w.len(),
        precedes(w[i], w[j]),
    ensures
        rank_in(w, w[i]) < rank_in(w, w[j]),
{
    assert forall|k: int| 0 <= k < w.len() && precedes(#[trigger] w[k], w[i]) implies precedes(
        w[k],
        w[j],
    ) by {
        lemma_precedes_transitive(w[k], w[i], w[j]);
    }
    lemma_precedes_irreflexive(w[i]);
    lemma_count_strictly_less(w, w[i], w[j], i);
}

/// Every record of a window with unique identifiers has a rank in
/// `1..=w.len()`, no two records share a rank, and every rank in that range
/// is held by some record: the ranks are a permutation of `1..=w.len()`.
pub proof fn lemma_ranks_permutation(w: Seq<ScoreRecord>)
    requires
        unique_identifiers(w),
    ensures
        forall|i: int| 0 <= i < w.len() ==> 1 <= #[trigger] rank_in(w, w[i]) <= w.len(),
        forall|i: int, j: int|
            0 <= i < w.len() && 0 <= j < w.len() && i != j ==> #[trigger] rank_in(w, w[i])
                != #[trigger] rank_in(w, w[j]),
        forall|k: nat| 1 <= k <= w.len() ==> #[trigger] rank_held(w, k),
{
    assert forall|i: int| 0 <= i < w.len() implies 1 <= #[trigger] rank_in(w, w[i]) <= w.len() by {
        lemma_precedes_irreflexive(w[i]);
        lemma_count_below_len(w, w[i], i);
    }
    assert forall|i: int, j: int|
        0 <= i < w.len() && 0 <= j < w.len() && i != j implies #[trigger] rank_in(w, w[i])
        != #[trigger] rank_in(w, w[j]) by {
        lemma_precedes_total(w[i], w[j]);
        if precedes(w[i], w[j]) {
            lemma_rank_order(w, i, j);
        } else {
            lemma_rank_order(w, j, i);
        }
    }
    let n = w.len() as int;
    let dom = set_int_range(0, n);
    let f = |i: int| rank_in(w, w[i]) as int;
    lemma_int_range(0, n);
    lemma_int_range(1, n + 1);
    assert(vstd::relations::injective_on(f, dom));
    lemma_map_size(dom, dom.map(f), f);
    assert(dom.map(f).subset_of(set_int_range(1, n + 1)));
    lemma_subset_equality(dom.map(f), set_int_range(1, n + 1));
    assert forall|k: nat| 1 <= k <= w.len() implies #[trigger] rank_held(w, k) by {
        assert(set_int_range(1, n + 1).contains(k as int));
        assert(dom.map(f).contains(k as int));
    }
}

/// The rank of the record at index `i` of `w`.
pub fn rank_of(w: &Vec<ScoreRecord>, i: usize) -> (r: usize)
    requires
        i < w@.len(),
    ensures
        r == rank_in(w@, w@[i as int]),
{
    let n = w.len();
    let mut count: usize = 0;
    let mut j: usize = 0;
    while j < n
        invariant
            n == w@.len(),
            i < n,
            j <= n,
            count == count_preceding(w@.take(j as int), w@[i as int]),
            count <= j,
        decreases n - j,
    {
        assert(w@.take(j + 1).drop_last() =~= w@.take(j as int));
        assert(w@.take(j + 1).last() == w@[j as int]);
        if record_precedes(&w[j], &w[i]) {
            count = count + 1;
        }
        j = j + 1;
    }
    assert(w@.take(n as int) =~= w@);
    proof {
        lemma_precedes_irreflexive(w@[i as int]);
        lemma_count_below_len(w@, w@[i as int], i as int);
    }
    count + 1
}

/// The index of the record ranked just after `w[prev]`, or of the record
/// ranked first when `prev` is `None`; `None` when there is no such record.
pub fn next_in_rank(w: &Vec<ScoreRecord>, prev: Option<usize>) -> (r: Option<usize>)
    requires
        unique_identifiers(w@),
        prev matches Some(p) ==> p < w@.len(),
    ensures
        r matches Some(b) ==> b < w@.len() && rank_in(w@, w@[b as int]) == match prev {
            Some(p) => rank_in(w@, w@[p as int]) + 1,
            None => 1,
        },
        r is None ==> match prev {
            Some(p) => rank_in(w@, w@[p as int]) == w@.len(),
            None => w@.len() == 0,
        },
{
    let n = w.len();
    let mut best: Option<usize> = None;
    let mut i: usize = 0;
    while i < n
        invariant
            n == w@.len(),
            i <= n,
            unique_identifiers(w@),
            prev matches Some(p) ==> p < n,
            best matches Some(b) ==> b < i && (prev matches Some(p) ==> precedes(
                w@[p as int],
                w@[b as int],
            )),
            best matches Some(b) ==> forall|j: int|
                0 <= j < i && (prev matches Some(p) ==> precedes(w@[p as int], #[trigger] w@[j]))
                    ==> j == b || precedes(w@[b as int], w@[j]),
            prev is None && i > 0 ==> best is Some,
            best is None ==> forall|j: int|
                0 <= j < i ==> (prev matches Some(p) && !precedes(w@[p as int], #[trigger] w@[j])),
        decreases n - i,
    {
        let after = match prev {
            Some(p) => record_precedes(&w[p], &w[i]),
            None => true,
        };
        if after {
            match best {
                Some(b) => {
                    if record_precedes(&w[i], &w[b]) {
                        proof {
                            assert forall|j: int|
                                0 <= j < i + 1 && (prev matches Some(p) ==> precedes(
                                    w@[p as int],
                                    #[trigger] w@[j],
                                )) implies j == i || precedes(w@[i as int], w@[j]) by {
                                if j != i && j != b {
                                    lemma_precedes_transitive(w@[i as int], w@[b as int], w@[j]);
                                }
                            }
                        }
                        best = Some(i);
                    }
                },
                None => {
                    best = Some(i);
                },
            }
        }
        proof {
            if let Some(b) = best {
                if b != i && after {
                    lemma_precedes_total(w@[i as int], w@[b as int]);
                }
            }
        }
        i = i + 1;
    }
    proof {
        match best {
            Some(b) => {
                match prev {
                    Some(p) => {
                        let x = w@[p as int];
                        let y = w@[b as int];
                        assert forall|j: int| 0 <= j < w@.len() implies (precedes(
                            #[trigger] w@[j],
                            y,
                        ) <==> (precedes(w@[j], x) || j == p)) by {
                            if precedes(w@[j], x) {
                                lemma_precedes_transitive(w@[j], x, y);
                            }
                            if precedes(w@[j], y) && j != p && !precedes(w@[j], x) {
                                lemma_precedes_total(w@[j], x);
                                lemma_precedes_irreflexive(y);
                                lemma_precedes_asymmetric(w@[j], y);
                            }
                        }
                        lemma_precedes_irreflexive(x);
                        lemma_count_successor(w@, x, y, p as int);
                    },
                    None => {
                        let y = w@[b as int];
                        assert forall|j: int| 0 <= j < w@.len() implies !precedes(
                            #[trigger] w@[j],
                            y,
                        ) by {
                            lemma_precedes_irreflexive(y);
                            if j != b && precedes(w@[j], y) {
                                lemma_precedes_asymmetric(w@[j], y);
                            }
                        }
                        lemma_count_zero(w@, y);
                    },
                }
            },
            None => {
                if let Some(p) = prev {
                    let x = w@[p as int];
                    assert forall|j: int| 0 <= j < w@.len() && j != p implies precedes(
                        #[trigger] w@[j],
                        x,
                    ) by {
                        lemma_precedes_total(w@[j], x);
                    }
                    lemma_precedes_irreflexive(x);
                    lemma_count_all_but(w@, x, p as int);
                }
            },
        }
    }
    best
}

/// The first three records of `w` in rank order, or all of them when there
/// are fewer.
pub fn top_records(w: &Vec<ScoreRecord>) -> (r: Vec<ScoreRecord>)
    requires
        unique_identifiers(w@),
    ensures
        r@ == leading_records(w@),
{
    proof {
        lemma_ranks_permutation(w@);
    }
    let n = w.len();
    let mut out: Vec<ScoreRecord> = Vec::new();
    let mut prev: Option<usize> = None;
    let mut done = false;
    while !done && out.len() < 3
        invariant
            n == w@.len(),
            unique_identifiers(w@),
            forall|i: int| 0 <= i < w@.len() ==> 1 <= #[trigger] rank_in(w@, w@[i]) <= w@.len(),
            forall|i: int, j: int|
                0 <= i < w@.len() && 0 <= j < w@.len() && i != j ==> #[trigger] rank_in(w@, w@[i])
                    != #[trigger] rank_in(w@, w@[j]),
            out@.len() <= 3,
            prev is None <==> out@.len() == 0,
            prev matches Some(p) ==> p < n && rank_in(w@, w@[p as int]) == out@.len(),
            forall|k: int| 0 <= k < out@.len() ==> out@[k] == record_at_rank(w@, (k + 1) as nat),
            done ==> match prev {
                Some(p) => rank_in(w@, w@[p as int]) == n,
                None => n == 0,
            },
        decreases 3 - out@.len() + if done {
            0int
        } else {
            1int
        },
    {
        match next_in_rank(w, prev) {
            Some(b) => {
                proof {
                    let k = out@.len() as int;
                    let c = choose|i: int|
                        0 <= i < w@.len() && rank_in(w@, w@[i]) == (k + 1) as nat;
                    assert(0 <= c < w@.len() && rank_in(w@, w@[c]) == (k + 1) as nat);
                    assert(c == b);
                }
                out.push(w[b].duplicate());
                prev = Some(b);
            },
            None => {
                done = true;
            },
        }
    }
    assert(out@ =~= leading_records(w@));
    out
}

/// The rank of the record of `w` whose identifier is `target`, or `None` if
/// `w` holds no such record.
pub fn target_rank(w: &Vec<ScoreRecord>, target: &String) -> (r: Option<usize>)
    requires
        unique_identifiers(w@),
    ensures
        r matches Some(k) ==> rank_of_identifier(w@, target@) == Some(k as nat),
        r is None ==> rank_of_identifier(w@, target@) is None,
{
    let n = w.len();
    let mut i: usize = 0;
    while i < n
        invariant
            n == w@.len(),
            i <= n,
            unique_identifiers(w@),
            forall|j: int| 0 <= j < i ==> (#[trigger] w@[j]).identifier@ != target@,
        decreases n - i,
    {
        if w[i].identifier == *target {
            let k = rank_of(w, i);
            proof {
                let c = choose|j: int| 0 <= j < w@.len() && #[trigger] w@[j].identifier@ == target@;
                assert(0 <= c < w@.len() && w@[c].identifier@ == target@);
                assert(c == i);
            }
            return Some(k);
        }
        i = i + 1;
    }
    None
}

} // verus!
