//! The sort key of the ranking: score descending, then timestamp ascending,
//! then identifier ascending.
use vstd::prelude::*;
use crate::model::ScoreRecord;

verus! {

/// Lexicographic order of identifiers, character by character (code points).
pub open spec fn id_less(a: Seq<char>, b: Seq<char>) -> bool
    decreases a.len(),
{
    if a.len() == 0 {
        b.len() > 0
    } else if b.len() == 0 {
        false
    } else if a[0] != b[0] {
        (a[0] as int) < (b[0] as int)
    } else {
        id_less(a.drop_first(), b.drop_first())
    }
}

/// `a` comes strictly before `b` in the ranking.
pub open spec fn precedes(a: ScoreRecord, b: ScoreRecord) -> bool {
    ||| a.score > b.score
    ||| a.score == b.score && a.timestamp < b.timestamp
    ||| a.score == b.score && a.timestamp == b.timestamp && id_less(a.identifier@, b.identifier@)
}

pub proof fn lemma_id_less_irreflexive(a: Seq<char>)
    ensures
        !id_less(a, a),
    decreases a.len(),
{
    if a.len() > 0 {
        lemma_id_less_irreflexive(a.drop_first());
    }
}

pub proof fn lemma_id_less_transitive(a: Seq<char>, b: Seq<char>, c: Seq<char>)
    requires
        id_less(a, b),
        id_less(b, c),
    ensures
        id_less(a, c),
    decreases a.len(),
{
    if a.len() > 0 && b.len() > 0 && c.len() > 0 && a[0] == b[0] && b[0] == c[0] {
        lemma_id_less_transitive(a.drop_first(), b.drop_first(), c.drop_first());
    }
}

pub proof fn lemma_id_less_total(a: Seq<char>, b: Seq<char>)
    requires
        a != b,
    ensures
        id_less(a, b) || id_less(b, a),
    decreases a.len(),
{
    if a.len() > 0 && b.len() > 0 && a[0] == b[0] {
        if a.drop_first() == b.drop_first() {
            assert(a =~= seq![a[0]] + a.drop_first());
            assert(b =~= seq![b[0]] + b.drop_first());
        }
        lemma_id_less_total(a.drop_first(), b.drop_first());
    } else if a.len() == 0 && b.len() == 0 {
        assert(a =~= b);
    } else if a.len() > 0 && b.len() > 0 {
        assert((a[0] as int) != (b[0] as int));
    }
}

pub proof fn lemma_precedes_irreflexive(a: ScoreRecord)
    ensures
        !precedes(a, a),
{
    lemma_id_less_irreflexive(a.identifier@);
}

pub proof fn lemma_precedes_transitive(a: ScoreRecord, b: ScoreRecord, c: ScoreRecord)
    requires
        precedes(a, b),
        precedes(b, c),
    ensures
        precedes(a, c),
{
    if a.score == b.score && b.score == c.score && a.timestamp == b.timestamp && b.timestamp
        == c.timestamp {
        lemma_id_less_transitive(a.identifier@, b.identifier@, c.identifier@);
    }
}

pub proof fn lemma_precedes_asymmetric(a: ScoreRecord, b: ScoreRecord)
    requires
        precedes(a, b),
    ensures
        !precedes(b, a),
{
    if precedes(b, a) {
        lemma_precedes_transitive(a, b, a);
        lemma_precedes_irreflexive(a);
    }
}

pub proof fn lemma_precedes_total(a: ScoreRecord, b: ScoreRecord)
    requires
        a.identifier@ != b.identifier@,
    ensures
        precedes(a, b) || precedes(b, a),
{
    lemma_id_less_total(a.identifier@, b.identifier@);
}

/// Compares two identifiers character by character.
pub fn identifier_less(a: &String, b: &String) -> (r: bool)
    ensures
        r == id_less(a@, b@),
{
    let sa = a.as_str();
    let sb = b.as_str();
    let la = sa.unicode_len();
    let lb = sb.unicode_len();
    let mut i: usize = 0;
    assert(a@.subrange(0, la as int) =~= a@);
    assert(b@.subrange(0, lb as int) =~= b@);
    while i < la && i < lb
        invariant
            sa@ == a@,
            sb@ == b@,
            la == a@.len(),
            lb == b@.len(),
            i <= la,
            i <= lb,
            a@.subrange(0, i as int) == b@.subrange(0, i as int),
            id_less(a@, b@) == id_less(a@.subrange(i as int, la as int), b@.subrange(i as int, lb as int)),
        decreases la - i,
    {
        let ca = sa.get_char(i);
        let cb = sb.get_char(i);
        let ghost ra = a@.subrange(i as int, la as int);
        let ghost rb = b@.subrange(i as int, lb as int);
        if ca != cb {
            return (ca as u32) < (cb as u32);
        }
        assert(ra.drop_first() =~= a@.subrange(i + 1, la as int));
        assert(rb.drop_first() =~= b@.subrange(i + 1, lb as int));
        assert(a@.subrange(0, i + 1) =~= a@.subrange(0, i as int).push(ca));
        assert(b@.subrange(0, i + 1) =~= b@.subrange(0, i as int).push(cb));
        i = i + 1;
    }
    i < lb
}

/// Whether `a` comes strictly before `b` in the ranking.
pub fn record_precedes(a: &ScoreRecord, b: &ScoreRecord) -> (r: bool)
    ensures
        r == precedes(*a, *b),
{
    if a.score != b.score {
        a.score > b.score
    } else if a.timestamp != b.timestamp {
        a.timestamp < b.timestamp
    } else {
        identifier_less(&a.identifier, &b.identifier)
    }
}

} // verus!
