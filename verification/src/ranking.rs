//! Stable descending ranking of scored candidates.
//!
//! Candidates are identified by their insertion position; candidate `i`
//! carries the order key `scores[i]`. A ranking lists all positions from best
//! to worst: higher key first, and among equal keys the earlier position
//! first, so the outcome is deterministic and stable for a given insertion
//! order. [`is_ranking`] says what a ranking is, [`rank_indices`] computes
//! one, and [`lemma_ranking_unique`] shows there is only one, so
//! [`ranking`] is well defined.

use vstd::prelude::*;

verus! {

/// Candidate `i` strictly precedes candidate `j`: its key is larger, or the
/// keys tie and `i` was inserted earlier. A strict total order on distinct
/// positions.
pub open spec fn ranks_before(scores: Seq<u32>, i: int, j: int) -> bool {
    scores[i] > scores[j] || (scores[i] == scores[j] && i < j)
}

/// `ix` lists every candidate position below `n` exactly once, best first.
pub open spec fn ranks_all_below(ix: Seq<int>, scores: Seq<u32>, n: int) -> bool {
    &&& ix.len() == n
    &&& forall|m: int| 0 <= m < ix.len() ==> 0 <= #[trigger] ix[m] < n
    &&& forall|a: int, b: int|
        0 <= a < b < ix.len() ==> #[trigger] ranks_before(scores, ix[a], ix[b])
    &&& forall|j: int| 0 <= j < n ==> #[trigger] ix.contains(j)
}

/// `ix` ranks all the candidates `0 .. scores.len()`.
pub open spec fn is_ranking(ix: Seq<int>, scores: Seq<u32>) -> bool {
    ranks_all_below(ix, scores, scores.len() as int)
}

/// The ranking of the candidates; well defined because a ranking exists
/// ([`rank_indices`] builds one) and is unique ([`lemma_ranking_unique`]).
pub open spec fn ranking(scores: Seq<u32>) -> Seq<int> {
    choose|ix: Seq<int>| is_ranking(ix, scores)
}

/// A sequence of positions, reread as mathematical integers.
pub open spec fn as_ints(s: Seq<usize>) -> Seq<int> {
    s.map_values(|u: usize| u as int)
}

/// Whether candidate `i` strictly precedes candidate `j`.
pub fn ranks_before_at(scores: &Vec<u32>, i: usize, j: usize) -> (r: bool)
    requires
        i < scores@.len(),
        j < scores@.len(),
    ensures
        r == ranks_before(scores@, i as int, j as int),
{
    scores[i] > scores[j] || (scores[i] == scores[j] && i < j)
}

/// A ranking of the candidates below `n` grows to one of the candidates
/// below `n + 1` when the new candidate `n` enters at the first place whose
/// occupant it precedes.
proof fn lemma_ranking_grow(ix: Seq<int>, scores: Seq<u32>, n: int, p: int)
    requires
        0 <= n < scores.len(),
        ranks_all_below(ix, scores, n),
        0 <= p <= ix.len(),
        forall|m: int| 0 <= m < p ==> !ranks_before(scores, n, #[trigger] ix[m]),
        p < ix.len() ==> ranks_before(scores, n, ix[p]),
    ensures
        ranks_all_below(ix.insert(p, n), scores, n + 1),
{
    let ix2 = ix.insert(p, n);
    ix.insert_ensures(p, n);
    assert forall|a: int, b: int| 0 <= a < b < ix2.len() implies #[trigger] ranks_before(
        scores,
        ix2[a],
        ix2[b],
    ) by {
        if a < p {
            assert(ix2[a] == ix[a]);
            assert(!ranks_before(scores, n, ix[a]));
            assert(ix[a] < n);
            assert(ranks_before(scores, ix[a], n));
        }
        if b > p {
            assert(ix2[b] == ix[b - 1]);
            if p < ix.len() {
                assert(ranks_before(scores, n, ix[p]));
                if p < b - 1 {
                    assert(ranks_before(scores, ix[p], ix[b - 1]));
                }
            }
        }
    }
    assert forall|j: int| 0 <= j < n + 1 implies #[trigger] ix2.contains(j) by {
        if j == n {
            assert(ix2[p] == n);
        } else {
            assert(ix.contains(j));
            let m = choose|m: int| 0 <= m < ix.len() && ix[m] == j;
            if m < p {
                assert(ix2[m] == j);
            } else {
                assert(ix2[m + 1] == j);
            }
        }
    }
}

/// Ranks the candidates `0 .. scores.len()`: returns their positions ordered
/// by descending key, candidates with equal keys in insertion order.
pub fn rank_indices(scores: &Vec<u32>) -> (r: Vec<usize>)
    ensures
        is_ranking(as_ints(r@), scores@),
{
    let n = scores.len();
    let mut r: Vec<usize> = Vec::new();
    let mut i: usize = 0;
    while i < n
        invariant
            i <= n,
            n == scores@.len(),
            ranks_all_below(as_ints(r@), scores@, i as int),
        decreases n - i,
    {
        proof {
            assert forall|m: int| 0 <= m < r@.len() implies (#[trigger] r@[m]) < n by {
                assert(as_ints(r@)[m] < i);
            }
        }
        let mut p: usize = 0;
        while p < r.len() && !ranks_before_at(scores, i, r[p])
            invariant
                p <= r@.len(),
                i < n,
                n == scores@.len(),
                forall|m: int| 0 <= m < r@.len() ==> (#[trigger] r@[m]) < n,
                ranks_all_below(as_ints(r@), scores@, i as int),
                forall|m: int| 0 <= m < p ==> !ranks_before(
                    scores@,
                    i as int,
                    #[trigger] as_ints(r@)[m],
                ),
            decreases r@.len() - p,
        {
            p += 1;
        }
        proof {
            lemma_ranking_grow(as_ints(r@), scores@, i as int, p as int);
        }
        let ghost prev = r@;
        r.insert(p, i);
        proof {
            prev.insert_ensures(p as int, i);
            as_ints(prev).insert_ensures(p as int, i as int);
            assert(as_ints(r@) =~= as_ints(prev).insert(p as int, i as int));
        }
        i += 1;
    }
    r
}

/// Rankings are unique: the order is total, so two rankings of the same
/// scores agree everywhere. This is the determinism of the search: ties
/// cannot reorder, whatever procedure produced the ranking.
pub proof fn lemma_ranking_unique(ix1: Seq<int>, ix2: Seq<int>, scores: Seq<u32>)
    requires
        is_ranking(ix1, scores),
        is_ranking(ix2, scores),
    ensures
        ix1 == ix2,
{
    lemma_ranking_prefix_eq(ix1, ix2, scores, scores.len() as int);
    assert(ix1 =~= ix2);
}

/// Two rankings of the same scores agree on their first `m` places.
proof fn lemma_ranking_prefix_eq(ix1: Seq<int>, ix2: Seq<int>, scores: Seq<u32>, m: int)
    requires
        is_ranking(ix1, scores),
        is_ranking(ix2, scores),
        0 <= m <= scores.len(),
    ensures
        forall|t: int| 0 <= t < m ==> ix1[t] == ix2[t],
    decreases m,
{
    if m > 0 {
        lemma_ranking_prefix_eq(ix1, ix2, scores, m - 1);
        let t = m - 1;
        let e = ix1[t];
        assert(ix2.contains(e));
        let p = choose|p: int| 0 <= p < ix2.len() && ix2[p] == e;
        if p < t {
            assert(ix1[p] == ix2[p]);
            assert(ranks_before(scores, ix1[p], ix1[t]));
            assert(false);
        } else if p > t {
            assert(ranks_before(scores, ix2[t], ix2[p]));
            let f = ix2[t];
            assert(ix1.contains(f));
            let q = choose|q: int| 0 <= q < ix1.len() && ix1[q] == f;
            if q < t {
                assert(ix1[q] == ix2[q]);
                assert(ranks_before(scores, ix2[q], ix2[t]));
                assert(false);
            } else if q > t {
                assert(ranks_before(scores, ix1[t], ix1[q]));
                assert(false);
            } else {
                assert(false);
            }
        }
    }
}

} // verus!
