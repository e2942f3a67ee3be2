//! The ranking: highest composite score first, ties broken by identifier.

use crate::binary64::{finite, is_finite, less, scaled_value};
use crate::identifier::{
    id_le, lemma_id_le_antisymmetric, lemma_id_le_total, lemma_id_le_transitive, precedes,
};
use crate::record::ScoredRecord;
use vstd::multiset::{lemma_multiset_empty_len, Multiset};
use vstd::prelude::*;
use vstd::seq_lib::{
    lemma_multiset_commutative, to_multiset_build, to_multiset_contains, to_multiset_len,
    to_multiset_remove,
};

verus! {

/// Raised when a record to be ranked carries a score that is not a finite
/// number. Such a score has no place in the order; the whole ranking is
/// refused rather than the record skipped.
#[derive(Clone, Copy, Debug, PartialEq, Eq)]
pub struct NonFiniteScoreError;

/// Whether `a` may stand before `b` in a ranking: its score is higher, or
/// the scores are equal and its identifier is lexicographically at most
/// that of `b`.
pub open spec fn outranks(a: ScoredRecord, b: ScoredRecord) -> bool {
    ||| scaled_value(a.score) > scaled_value(b.score)
    ||| scaled_value(a.score) == scaled_value(b.score) && id_le(a.id@, b.id@)
}

/// Whether every record of the sequence may stand before all that follow it.
pub open spec fn is_ranked(s: Seq<ScoredRecord>) -> bool {
    forall|i: int, j: int| 0 <= i < j < s.len() ==> outranks(s[i], s[j])
}

/// Whether every score of the sequence is a finite number.
pub open spec fn all_finite(s: Seq<ScoredRecord>) -> bool {
    forall|i: int| 0 <= i < s.len() ==> is_finite(#[trigger] s[i].score)
}

/// Of any two records, one may stand before the other.
pub proof fn lemma_outranks_total(a: ScoredRecord, b: ScoredRecord)
    ensures
        outranks(a, b) || outranks(b, a),
{
    lemma_id_le_total(a.id@, b.id@);
}

/// If `a` may stand before `b` and `b` before `c`, then `a` may stand
/// before `c`.
pub proof fn lemma_outranks_transitive(a: ScoredRecord, b: ScoredRecord, c: ScoredRecord)
    requires
        outranks(a, b),
        outranks(b, c),
    ensures
        outranks(a, c),
{
    if scaled_value(a.score) == scaled_value(b.score) && scaled_value(b.score) == scaled_value(
        c.score,
    ) {
        lemma_id_le_transitive(a.id@, b.id@, c.id@);
    }
}

/// Whether no two records of the sequence share an identifier.
pub open spec fn distinct_ids(s: Seq<ScoredRecord>) -> bool {
    forall|i: int, j: int| 0 <= i < j < s.len() ==> s[i].id@ != s[j].id@
}

/// Two records that may each stand before the other have the same
/// identifier.
pub proof fn lemma_outranks_antisymmetric(a: ScoredRecord, b: ScoredRecord)
    requires
        outranks(a, b),
        outranks(b, a),
    ensures
        scaled_value(a.score) == scaled_value(b.score),
        a.id@ == b.id@,
{
    lemma_id_le_antisymmetric(a.id@, b.id@);
}

/// In a ranking the scores never rise from one record to the next, and of
/// two neighbours with equal scores the earlier has the lexicographically
/// smaller identifier: at most that of the later, and strictly smaller
/// where no two records share an identifier.
pub proof fn lemma_ranked_neighbours(s: Seq<ScoredRecord>, i: int)
    requires
        is_ranked(s),
        0 <= i,
        i + 1 < s.len(),
    ensures
        scaled_value(s[i].score) >= scaled_value(s[i + 1].score),
        scaled_value(s[i].score) == scaled_value(s[i + 1].score) ==> {
            &&& id_le(s[i].id@, s[i + 1].id@)
            &&& distinct_ids(s) ==> !id_le(s[i + 1].id@, s[i].id@)
        },
{
    assert(outranks(s[i], s[i + 1]));
    if scaled_value(s[i].score) == scaled_value(s[i + 1].score) && id_le(s[i + 1].id@, s[i].id@) {
        lemma_id_le_antisymmetric(s[i].id@, s[i + 1].id@);
    }
}

/// A population whose identifiers are unique has one ranking only: two
/// ranked sequences that hold the same records are the same sequence, in
/// whatever order the records came in.
pub proof fn lemma_ranking_unique(x: Seq<ScoredRecord>, y: Seq<ScoredRecord>)
    requires
        is_ranked(x),
        is_ranked(y),
        distinct_ids(x),
        x.to_multiset() == y.to_multiset(),
    ensures
        x == y,
    decreases x.len(),
{
    to_multiset_len(x);
    to_multiset_len(y);
    if x.len() == 0 {
        assert(x =~= y);
    } else {
        to_multiset_contains(x, y[0]);
        to_multiset_contains(y, y[0]);
        to_multiset_contains(x, x[0]);
        to_multiset_contains(y, x[0]);
        assert(y.contains(y[0]));
        assert(x.contains(x[0]));
        let i = choose|i: int| 0 <= i < x.len() && x[i] == y[0];
        let j = choose|j: int| 0 <= j < y.len() && y[j] == x[0];
        if i > 0 && j > 0 {
            lemma_outranks_antisymmetric(x[0], x[i]);
        }
        assert(x[0] == y[0]);
        let xs = x.drop_first();
        let ys = y.drop_first();
        assert(xs =~= x.remove(0));
        assert(ys =~= y.remove(0));
        to_multiset_remove(x, 0);
        to_multiset_remove(y, 0);
        assert forall|a: int, b: int| 0 <= a < b < xs.len() implies outranks(xs[a], xs[b])
            && xs[a].id@ != xs[b].id@ by {
            assert(xs[a] == x[a + 1] && xs[b] == x[b + 1]);
        }
        assert forall|a: int, b: int| 0 <= a < b < ys.len() implies outranks(ys[a], ys[b]) by {
            assert(ys[a] == y[a + 1] && ys[b] == y[b + 1]);
        }
        lemma_ranking_unique(xs, ys);
        assert forall|k: int| 0 <= k < x.len() implies x[k] == y[k] by {
            if k > 0 {
                assert(x[k] == xs[k - 1] && y[k] == ys[k - 1]);
            }
        }
        assert(x =~= y);
    }
}

/// A sequence without records holds nothing.
proof fn lemma_nothing_held(s: Seq<ScoredRecord>)
    requires
        s.len() == 0,
    ensures
        s.to_multiset() =~= Multiset::empty(),
{
    to_multiset_len(s);
    lemma_multiset_empty_len(s.to_multiset());
}

/// Decides whether `a` may stand before `b`.
pub fn goes_before(a: &ScoredRecord, b: &ScoredRecord) -> (r: bool)
    ensures
        r == outranks(*a, *b),
{
    if less(b.score, a.score) {
        true
    } else if less(a.score, b.score) {
        false
    } else {
        precedes(a.id.as_str(), b.id.as_str())
    }
}

/// Decides whether every score is a finite number.
pub fn scores_finite(records: &Vec<ScoredRecord>) -> (r: bool)
    ensures
        r == all_finite(records@),
{
    let mut i: usize = 0;
    while i < records.len()
        invariant
            i <= records.len(),
            forall|k: int| 0 <= k < i ==> is_finite(#[trigger] records@[k].score),
        decreases records.len() - i,
    {
        if !finite(records[i].score) {
            return false;
        }
        i = i + 1;
    }
    true
}

/// Whether every record of the sequence may stand before all that precede
/// it: a ranking read from its end.
spec fn is_ranked_backwards(s: Seq<ScoredRecord>) -> bool {
    forall|i: int, j: int| 0 <= i < j < s.len() ==> outranks(s[j], s[i])
}

/// Whether every record of `a` may stand before every record of `b`.
spec fn all_outrank(a: Seq<ScoredRecord>, b: Seq<ScoredRecord>) -> bool {
    forall|i: int, j: int|
        #![trigger a[i], b[j]]
        0 <= i < a.len() && 0 <= j < b.len() ==> outranks(a[i], b[j])
}

/// Moves the last record of `from` to the end of `backwards`, where it may
/// stand behind everything that `from` and `other` still hold.
fn set_back(
    from: &mut Vec<ScoredRecord>,
    other: &Vec<ScoredRecord>,
    backwards: &mut Vec<ScoredRecord>,
)
    requires
        old(from)@.len() > 0,
        is_ranked(old(from)@),
        is_ranked_backwards(old(backwards)@),
        all_outrank(old(from)@, old(backwards)@),
        all_outrank(other@, old(backwards)@),
        other@.len() > 0 ==> outranks(other@.last(), old(from)@.last()),
        is_ranked(other@),
    ensures
        final(from)@ == old(from)@.drop_last(),
        final(backwards)@ == old(backwards)@.push(old(from)@.last()),
        is_ranked(final(from)@),
        is_ranked_backwards(final(backwards)@),
        all_outrank(final(from)@, final(backwards)@),
        all_outrank(other@, final(backwards)@),
{
    let ghost worst = from@.last();
    let record = from.pop().unwrap();
    backwards.push(record);
    proof {
        let kept = from@;
        let back = backwards@;
        assert forall|i: int, j: int| 0 <= i < j < back.len() implies outranks(back[j], back[i]) by {
            if j == back.len() - 1 {
                assert(outranks(old(from)@[old(from)@.len() - 1], old(backwards)@[i]));
            }
        }
        assert forall|i: int, j: int|
            #![trigger kept[i], back[j]]
            0 <= i < kept.len() && 0 <= j < back.len() implies outranks(kept[i], back[j]) by {
            assert(kept[i] == old(from)@[i]);
            if j < back.len() - 1 {
                assert(outranks(old(from)@[i], old(backwards)@[j]));
            }
        }
        assert forall|i: int, j: int|
            #![trigger other@[i], back[j]]
            0 <= i < other@.len() && 0 <= j < back.len() implies outranks(other@[i], back[j]) by {
            if j < back.len() - 1 {
                assert(outranks(other@[i], old(backwards)@[j]));
            } else if i < other@.len() - 1 {
                lemma_outranks_transitive(other@[i], other@.last(), worst);
            }
        }
    }
}

/// Merges two rankings into one.
fn merge(left: Vec<ScoredRecord>, right: Vec<ScoredRecord>) -> (merged: Vec<ScoredRecord>)
    requires
        is_ranked(left@),
        is_ranked(right@),
    ensures
        is_ranked(merged@),
        merged@.to_multiset() == left@.to_multiset().add(right@.to_multiset()),
{
    let ghost held = left@.to_multiset().add(right@.to_multiset());
    let mut left = left;
    let mut right = right;
    let mut backwards: Vec<ScoredRecord> = Vec::new();
    proof {
        broadcast use vstd::multiset::group_multiset_axioms;

        lemma_nothing_held(backwards@);
        assert(left@.to_multiset().add(right@.to_multiset()).add(backwards@.to_multiset())
            =~= held);
    }
    // The worse of the two last records is the worst of all that are left.
    while left.len() > 0 || right.len() > 0
        invariant
            is_ranked(left@),
            is_ranked(right@),
            is_ranked_backwards(backwards@),
            all_outrank(left@, backwards@),
            all_outrank(right@, backwards@),
            left@.to_multiset().add(right@.to_multiset()).add(backwards@.to_multiset()) == held,
        decreases left.len() + right.len(),
    {
        let ghost l = left@;
        let ghost r = right@;
        let ghost b = backwards@;
        let from_right = if left.len() == 0 {
            true
        } else if right.len() == 0 {
            false
        } else {
            goes_before(&left[left.len() - 1], &right[right.len() - 1])
        };
        if from_right {
            set_back(&mut right, &left, &mut backwards);
        } else {
            proof {
                if right.len() > 0 {
                    lemma_outranks_total(left@.last(), right@.last());
                }
            }
            set_back(&mut left, &right, &mut backwards);
        }
        proof {
            broadcast use vstd::multiset::group_multiset_axioms;

            let moved = backwards@.last();
            to_multiset_build(b, moved);
            if from_right {
                assert(r =~= right@.push(moved));
                to_multiset_build(right@, moved);
            } else {
                assert(l =~= left@.push(moved));
                to_multiset_build(left@, moved);
            }
            assert(left@.to_multiset().add(right@.to_multiset()).add(backwards@.to_multiset())
                =~= l.to_multiset().add(r.to_multiset()).add(b.to_multiset()));
        }
    }
    let mut merged: Vec<ScoredRecord> = Vec::new();
    proof {
        broadcast use vstd::multiset::group_multiset_axioms;

        lemma_nothing_held(left@);
        lemma_nothing_held(right@);
        lemma_nothing_held(merged@);
        assert(merged@.to_multiset().add(backwards@.to_multiset()) =~= held);
    }
    // Read from its end, what was set back is the ranking.
    while backwards.len() > 0
        invariant
            is_ranked(merged@),
            is_ranked_backwards(backwards@),
            all_outrank(merged@, backwards@),
            merged@.to_multiset().add(backwards@.to_multiset()) == held,
        decreases backwards.len(),
    {
        let ghost m = merged@;
        let ghost b = backwards@;
        let record = backwards.pop().unwrap();
        merged.push(record);
        proof {
            broadcast use vstd::multiset::group_multiset_axioms;

            assert forall|i: int, j: int| 0 <= i < j < merged@.len() implies outranks(
                merged@[i],
                merged@[j],
            ) by {
                if j == merged@.len() - 1 {
                    assert(outranks(m[i], b[b.len() - 1]));
                }
            }
            assert forall|i: int, j: int|
                #![trigger merged@[i], backwards@[j]]
                0 <= i < merged@.len() && 0 <= j < backwards@.len() implies outranks(
                merged@[i],
                backwards@[j],
            ) by {
                assert(backwards@[j] == b[j]);
                if i < merged@.len() - 1 {
                    assert(outranks(m[i], b[j]));
                }
            }
            assert(b =~= backwards@.push(record));
            to_multiset_build(backwards@, record);
            to_multiset_build(m, record);
            assert(merged@.to_multiset().add(backwards@.to_multiset()) =~= m.to_multiset().add(
                b.to_multiset(),
            ));
        }
    }
    proof {
        broadcast use vstd::multiset::group_multiset_axioms;

        lemma_nothing_held(backwards@);
        assert(merged@.to_multiset().add(backwards@.to_multiset()) =~= merged@.to_multiset());
    }
    merged
}

/// Ranks by merging the rankings of the two halves.
fn merge_sort(records: Vec<ScoredRecord>) -> (ranking: Vec<ScoredRecord>)
    ensures
        is_ranked(ranking@),
        ranking@.to_multiset() == records@.to_multiset(),
    decreases records@.len(),
{
    let mut left = records;
    if left.len() <= 1 {
        return left;
    }
    let right = left.split_off(left.len() / 2);
    proof {
        assert(records@ =~= left@ + right@);
        lemma_multiset_commutative(left@, right@);
    }
    merge(merge_sort(left), merge_sort(right))
}

/// Orders the scored records of a population: highest score first, records
/// of equal score by ascending identifier.
///
/// Fails, and ranks nothing, exactly when some score is not a finite
/// number. Otherwise the result holds the same records as the input, each
/// as often as the input does, and every record in it may stand before all
/// that follow it. Where the identifiers are unique this fixes the result,
/// whatever the order of the input: see [`lemma_ranking_unique`].
pub fn rank(records: Vec<ScoredRecord>) -> (res: Result<Vec<ScoredRecord>, NonFiniteScoreError>)
    ensures
        res is Ok <==> all_finite(records@),
        res matches Ok(ranking) ==> {
            &&& ranking@.len() == records@.len()
            &&& ranking@.to_multiset() == records@.to_multiset()
            &&& is_ranked(ranking@)
        },
{
    if !scores_finite(&records) {
        return Err(NonFiniteScoreError);
    }
    let ghost given = records@;
    let ranking = merge_sort(records);
    proof {
        to_multiset_len(ranking@);
        to_multiset_len(given);
    }
    Ok(ranking)
}

} // verus!
