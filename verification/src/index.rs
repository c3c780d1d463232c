//! The vector index: append-only storage of fixed-dimension vectors and
//! top-k retrieval against caller-supplied scores.
//!
//! A stored vector is a `Vec<u32>` of component bit patterns; the index never
//! interprets components, it only enforces that every stored vector has the
//! length the first insert established. A query supplies one order key per
//! stored vector ([`crate::score`] builds keys from scores) and gets back the
//! best `min(k, entries)` vectors, best first.

use vstd::prelude::*;
use crate::ranking::{as_ints, is_ranking, lemma_ranking_unique, rank_indices, ranking, ranks_before};

verus! {

/// The one failure of the index: a vector's length disagrees with the
/// dimensionality that the first insert established.
#[derive(Clone, Copy, Debug, PartialEq, Eq, Structural)]
pub struct DimensionMismatch;

/// Brute-force nearest-neighbour index: every stored vector is scored and
/// ranked on each query.
pub struct ANNIndex {
    data: Vec<Vec<u32>>,
    dim: Option<usize>,
}

impl ANNIndex {
    /// The stored vectors, in insertion order, each as the sequence of its
    /// component bit patterns.
    pub closed spec fn entries(self) -> Seq<Seq<u32>> {
        self.data@.map_values(|v: Vec<u32>| v@)
    }

    /// The established dimensionality: `None` until the first insert, then
    /// the length of the first inserted vector, forever.
    pub closed spec fn dim_spec(self) -> Option<usize> {
        self.dim
    }

    /// Whether the index accepts a vector of length `len`: always before the
    /// first insert, afterwards only at the established dimensionality.
    pub open spec fn accepts_len(self, len: nat) -> bool {
        match self.dim_spec() {
            None => true,
            Some(d) => len == d as nat,
        }
    }

    /// Well-formedness: the dimensionality is unset exactly while the index
    /// is empty, and every stored vector has exactly that length.
    pub open spec fn wf(self) -> bool {
        &&& (self.dim_spec() is None <==> self.entries().len() == 0)
        &&& forall|i: int|
            0 <= i < self.entries().len() ==> self.accepts_len(
                (#[trigger] self.entries()[i]).len(),
            )
    }

    /// Dimensionality lock-in: all stored vectors of a well-formed index
    /// share one length, the dimensionality the first successful insert
    /// established; [`Self::insert`] guarantees it never changes afterwards.
    pub proof fn lemma_dimensionality_uniform(self)
        requires
            self.wf(),
        ensures
            forall|i: int, j: int|
                0 <= i < self.entries().len() && 0 <= j < self.entries().len() ==> (
                #[trigger] self.entries()[i]).len() == (#[trigger] self.entries()[j]).len(),
            self.entries().len() > 0 ==> self.dim_spec() == Some(
                self.entries()[0].len() as usize,
            ),
    {
    }

    /// Creates an empty index with unset dimensionality.
    pub fn new() -> (index: ANNIndex)
        ensures
            index.wf(),
            index.entries() == Seq::<Seq<u32>>::empty(),
            index.dim_spec() is None,
    {
        let index = ANNIndex { data: Vec::new(), dim: None };
        proof {
            assert(index.entries() =~= Seq::<Seq<u32>>::empty());
        }
        index
    }

    /// How many vectors the index stores.
    pub fn len(&self) -> (n: usize)
        ensures
            n == self.entries().len(),
    {
        self.data.len()
    }

    /// The established dimensionality, if any.
    pub fn dimensionality(&self) -> (d: Option<usize>)
        ensures
            d == self.dim_spec(),
    {
        self.dim
    }

    /// A copy of the stored vector at position `i`.
    pub fn get(&self, i: usize) -> (v: Vec<u32>)
        requires
            i < self.entries().len(),
        ensures
            v@ == self.entries()[i as int],
    {
        copy_components(&self.data[i])
    }

    /// Appends `v` if its length matches the established dimensionality
    /// (the first insert establishes it); rejects it otherwise, leaving the
    /// index exactly as it was.
    pub fn insert(&mut self, v: Vec<u32>) -> (result: Result<(), DimensionMismatch>)
        requires
            old(self).wf(),
        ensures
            final(self).wf(),
            old(self).accepts_len(v@.len()) ==> result is Ok && final(self).entries()
                == old(self).entries().push(v@) && final(self).dim_spec() == Some(
                v@.len() as usize,
            ),
            !old(self).accepts_len(v@.len()) ==> result is Err && final(self).entries() == old(
                self,
            ).entries() && final(self).dim_spec() == old(self).dim_spec(),
    {
        match self.dim {
            None => {
                self.dim = Some(v.len());
                self.data.push(v);
                proof {
                    assert(self.entries() =~= old(self).entries().push(v@));
                }
                Ok(())
            },
            Some(d) => {
                if v.len() != d {
                    return Err(DimensionMismatch);
                }
                self.data.push(v);
                proof {
                    assert(self.entries() =~= old(self).entries().push(v@));
                }
                Ok(())
            },
        }
    }

    /// The best `min(k, entries)` stored vectors under the given scores,
    /// best first: position `t` of the result copies the vector ranked `t`th
    /// by [`ranking`] and carries that vector's key, so keys descend and
    /// equal keys keep insertion order. Fails, returning the index untouched
    /// and no results, exactly when the index is non-empty and the query's
    /// length is not the established dimensionality; `k` itself never fails.
    pub fn get_top_k(&self, query: &Vec<u32>, scores: &Vec<u32>, k: usize) -> (result: Result<
        Vec<(Vec<u32>, u32)>,
        DimensionMismatch,
    >)
        requires
            self.wf(),
            scores@.len() == self.entries().len(),
        ensures
            result is Err <==> (self.entries().len() > 0 && self.dim_spec() != Some(
                query@.len() as usize,
            )),
            result matches Ok(out) ==> ({
                let rk = ranking(scores@);
                &&& is_ranking(rk, scores@)
                &&& out@.len() == vstd::math::min(k as int, self.entries().len() as int)
                &&& forall|t: int|
                    0 <= t < out@.len() ==> (#[trigger] out@[t]).0@ == self.entries()[rk[t]]
                        && out@[t].1 == scores@[rk[t]]
                &&& forall|a: int, b: int|
                    #![trigger out@[a], out@[b]]
                    0 <= a <= b < out@.len() ==> out@[a].1 >= out@[b].1
            }),
    {
        let n = self.data.len();
        if n > 0 {
            if let Some(d) = self.dim {
                if query.len() != d {
                    return Err(DimensionMismatch);
                }
            }
        }
        let order = rank_indices(scores);
        proof {
            lemma_ranking_unique(as_ints(order@), ranking(scores@), scores@);
        }
        let m: usize = if k < n {
            k
        } else {
            n
        };
        let mut out: Vec<(Vec<u32>, u32)> = Vec::new();
        let mut t: usize = 0;
        while t < m
            invariant
                t <= m,
                m == vstd::math::min(k as int, n as int),
                n == self.entries().len(),
                n == self.data@.len(),
                scores@.len() == n,
                order@.len() == n,
                is_ranking(as_ints(order@), scores@),
                as_ints(order@) == ranking(scores@),
                out@.len() == t,
                forall|u: int|
                    0 <= u < t ==> (#[trigger] out@[u]).0@ == self.entries()[as_ints(order@)[u]]
                        && out@[u].1 == scores@[as_ints(order@)[u]],
            decreases m - t,
        {
            proof {
                assert(0 <= as_ints(order@)[t as int] < n);
            }
            let idx = order[t];
            let v = copy_components(&self.data[idx]);
            out.push((v, scores[idx]));
            t += 1;
        }
        proof {
            let rk = ranking(scores@);
            assert forall|a: int, b: int|
                #![trigger out@[a], out@[b]]
                0 <= a <= b < out@.len() implies out@[a].1 >= out@[b].1 by {
                if a < b {
                    assert(ranks_before(scores@, rk[a], rk[b]));
                }
            }
        }
        Ok(out)
    }
}

/// A fresh vector holding the same components.
fn copy_components(v: &Vec<u32>) -> (c: Vec<u32>)
    ensures
        c@ == v@,
{
    let mut c: Vec<u32> = Vec::new();
    let mut i: usize = 0;
    while i < v.len()
        invariant
            i <= v@.len(),
            c@.len() == i,
            forall|j: int| 0 <= j < i ==> c@[j] == v@[j],
        decreases v@.len() - i,
    {
        c.push(v[i]);
        i += 1;
    }
    proof {
        assert(c@ =~= v@);
    }
    c
}

} // verus!
