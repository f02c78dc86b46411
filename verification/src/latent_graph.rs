//! The semantic clustering graph: clusters keyed by name (insertion order
//! kept for deterministic scans) plus an append-only sequence of directed
//! relation triples.

use vstd::prelude::*;
use crate::object::ObjectCluster;
use crate::similarity::{
    Similarity, cosine, sim_lt, sim_wf, spec_cosine, valid_embedding,
};
use crate::text::str_eq;

verus! {

/// The first index whose cluster is named `id`, or -1 when there is none.
pub open spec fn spec_index_of(s: Seq<ObjectCluster>, id: Seq<char>) -> int
    decreases s.len(),
{
    if s.len() == 0 {
        -1
    } else if s[0].name@ == id {
        0
    } else {
        let r = spec_index_of(s.drop_first(), id);
        if r < 0 {
            -1
        } else {
            r + 1
        }
    }
}

/// Whether some cluster is named `id`.
pub open spec fn contains_id(s: Seq<ObjectCluster>, id: Seq<char>) -> bool {
    spec_index_of(s, id) >= 0
}

/// `spec_index_of` finds a match when one exists and reports its position.
pub proof fn lemma_spec_index_of(s: Seq<ObjectCluster>, id: Seq<char>)
    ensures
        spec_index_of(s, id) >= 0 ==> 0 <= spec_index_of(s, id) < s.len()
            && s[spec_index_of(s, id)].name@ == id,
        spec_index_of(s, id) < 0 ==> forall|i: int|
            0 <= i < s.len() ==> (#[trigger] s[i]).name@ != id,
    decreases s.len(),
{
    if s.len() > 0 && s[0].name@ != id {
        lemma_spec_index_of(s.drop_first(), id);
        let r = spec_index_of(s.drop_first(), id);
        if r >= 0 {
            assert(s.drop_first()[r] == s[r + 1]);
        } else {
            assert forall|i: int| 0 <= i < s.len() implies (#[trigger] s[i]).name@ != id by {
                if i > 0 {
                    assert(s.drop_first()[i - 1] == s[i]);
                }
            }
        }
    }
}

/// With distinct names, the index of a matching cluster is `spec_index_of`.
pub proof fn lemma_spec_index_of_unique(s: Seq<ObjectCluster>, id: Seq<char>, i: int)
    requires
        forall|a: int, b: int| 0 <= a < b < s.len()
            ==> (#[trigger] s[a]).name@ != (#[trigger] s[b]).name@,
        0 <= i < s.len(),
        s[i].name@ == id,
    ensures
        spec_index_of(s, id) == i,
    decreases s.len(),
{
    if i == 0 {
    } else {
        assert(s[0].name@ != id);
        assert(forall|a: int, b: int| 0 <= a < b < s.drop_first().len()
            ==> (#[trigger] s.drop_first()[a]).name@ != (#[trigger] s.drop_first()[b]).name@) by {
            assert(forall|a: int| 0 <= a < s.drop_first().len()
                ==> #[trigger] s.drop_first()[a] == s[a + 1]);
        }
        assert(s.drop_first()[i - 1] == s[i]);
        lemma_spec_index_of_unique(s.drop_first(), id, i - 1);
    }
}

/// Well-formed graph contents: names are unique, every cluster is
/// well-formed, and all embeddings share one dimensionality.
pub open spec fn graph_wf(s: Seq<ObjectCluster>) -> bool {
    &&& forall|i: int, j: int| 0 <= i < j < s.len()
        ==> (#[trigger] s[i]).name@ != (#[trigger] s[j]).name@
    &&& forall|i: int| 0 <= i < s.len() ==> (#[trigger] s[i]).wf()
    &&& forall|i: int, j: int| 0 <= i < s.len() && 0 <= j < s.len()
        ==> (#[trigger] s[i]).embedding@.len() == (#[trigger] s[j]).embedding@.len()
}

/// An in-memory graph of object clusters plus directed relations
/// (source, relation, target); relations are append-only, not deduplicated.
pub struct LatentGraph {
    pub clusters: Vec<ObjectCluster>,
    pub relations: Vec<(String, String, String)>,
}

/// The greatest-similarity cluster: a linear scan keeping the earliest
/// maximum, so ties break toward the earliest-inserted cluster.
pub open spec fn spec_nearest(s: Seq<ObjectCluster>, q: Seq<i32>) -> Option<(Seq<char>, Similarity)>
    decreases s.len(),
{
    if s.len() == 0 {
        None
    } else {
        let prev = spec_nearest(s.drop_last(), q);
        let cand = (s.last().name@, spec_cosine(q, s.last().embedding@));
        match prev {
            Option::None => Some(cand),
            Option::Some(b) => if sim_lt(b.1, cand.1) {
                Some(cand)
            } else {
                Some(b)
            },
        }
    }
}

/// The nearest cluster's similarity is the maximum: no cluster is more
/// similar to the query than the one `spec_nearest` picks, and one is picked
/// exactly when the graph is non-empty.
pub proof fn lemma_nearest_is_max(s: Seq<ObjectCluster>, q: Seq<i32>)
    requires
        valid_embedding(q),
        forall|i: int| 0 <= i < s.len() ==> (#[trigger] s[i]).wf(),
        forall|i: int| 0 <= i < s.len() ==> (#[trigger] s[i]).embedding@.len() == q.len(),
    ensures
        spec_nearest(s, q) is Some <==> s.len() > 0,
        s.len() > 0 ==> sim_wf(spec_nearest(s, q).unwrap().1),
        forall|i: int| 0 <= i < s.len() ==> crate::similarity::sim_le(
            spec_cosine(q, (#[trigger] s[i]).embedding@),
            spec_nearest(s, q).unwrap().1,
        ),
    decreases s.len(),
{
    if s.len() > 0 {
        assert(forall|i: int| 0 <= i < s.drop_last().len()
            ==> #[trigger] s.drop_last()[i] == s[i]);
        lemma_nearest_is_max(s.drop_last(), q);
        let cand = spec_cosine(q, s.last().embedding@);
        crate::similarity::lemma_cosine_fields(q, s.last().embedding@);
        let best = spec_nearest(s, q).unwrap().1;
        if s.len() > 1 {
            let prev = spec_nearest(s.drop_last(), q).unwrap().1;
            assert forall|i: int| 0 <= i < s.len() implies crate::similarity::sim_le(
                spec_cosine(q, (#[trigger] s[i]).embedding@),
                best,
            ) by {
                crate::similarity::lemma_cosine_fields(q, s[i].embedding@);
                assert(s.last() == s[s.len() - 1]);
                if i < s.len() - 1 {
                    assert(s.drop_last()[i] == s[i]);
                    assert(crate::similarity::sim_le(spec_cosine(q, s[i].embedding@), prev));
                    if sim_lt(prev, cand) {
                        crate::similarity::lemma_sim_le_total(prev, cand);
                        crate::similarity::lemma_sim_le_trans(
                            spec_cosine(q, s[i].embedding@),
                            prev,
                            cand,
                        );
                        assert(best == cand);
                    } else {
                        assert(best == prev);
                    }
                } else {
                    if sim_lt(prev, cand) {
                        assert(best == cand);
                    } else {
                        assert(best == prev);
                        assert(crate::similarity::sim_le(cand, prev));
                    }
                }
            }
        } else {
            assert(spec_nearest(s.drop_last(), q) is None);
            assert(best == cand);
            assert(s.last() == s[0]);
        }
    }
}

impl Default for LatentGraph {
    /// An empty graph.
    fn default() -> (r: LatentGraph)
        ensures
            r.wf(),
            r.clusters@.len() == 0,
            r.relations@.len() == 0,
    {
        LatentGraph::new()
    }
}

impl LatentGraph {
    /// Names unique, clusters well-formed, dimensionality consistent.
    pub open spec fn wf(&self) -> bool {
        graph_wf(self.clusters@)
    }

    /// An empty graph.
    pub fn new() -> (r: LatentGraph)
        ensures
            r.wf(),
            r.clusters@.len() == 0,
            r.relations@.len() == 0,
    {
        LatentGraph { clusters: Vec::new(), relations: Vec::new() }
    }

    /// The position of the cluster named `id`, if any.
    pub(crate) fn index_of(&self, id: &str) -> (r: Option<usize>)
        requires
            self.wf(),
        ensures
            match r {
                Some(i) => i < self.clusters@.len() && spec_index_of(self.clusters@, id@) == i,
                None => spec_index_of(self.clusters@, id@) < 0,
            },
    {
        let n = self.clusters.len();
        let mut i: usize = 0;
        while i < n
            invariant
                self.wf(),
                n == self.clusters@.len(),
                i <= n,
                forall|j: int| 0 <= j < i ==> (#[trigger] self.clusters@[j]).name@ != id@,
            decreases n - i,
        {
            if str_eq(self.clusters[i].name.as_str(), id) {
                proof {
                    lemma_spec_index_of_unique(self.clusters@, id@, i as int);
                }
                return Some(i);
            }
            i += 1;
        }
        proof {
            lemma_spec_index_of(self.clusters@, id@);
            if spec_index_of(self.clusters@, id@) >= 0 {
                assert(self.clusters@[spec_index_of(self.clusters@, id@)].name@ == id@);
            }
        }
        None
    }

    /// Inserts the cluster, or replaces the cluster already stored under the
    /// same name. The `id` is the cluster's name: identity is its id.
    pub fn add_cluster(&mut self, id: String, cluster: ObjectCluster)
        requires
            old(self).wf(),
            cluster.wf(),
            id@ == cluster.name@,
            forall|i: int| 0 <= i < old(self).clusters@.len()
                ==> (#[trigger] old(self).clusters@[i]).embedding@.len()
                    == cluster.embedding@.len(),
        ensures
            final(self).wf(),
            final(self).relations == old(self).relations,
            ({
                let idx = spec_index_of(old(self).clusters@, cluster.name@);
                if idx >= 0 {
                    final(self).clusters@ == old(self).clusters@.update(idx, cluster)
                } else {
                    final(self).clusters@ == old(self).clusters@.push(cluster)
                }
            }),
    {
        match self.index_of(id.as_str()) {
            Some(i) => {
                proof {
                    lemma_spec_index_of(self.clusters@, id@);
                }
                self.clusters[i] = cluster;
                proof {
                    assert(forall|a: int| 0 <= a < self.clusters@.len() && a != i
                        ==> #[trigger] self.clusters@[a] == old(self).clusters@[a]);
                }
            },
            None => {
                proof {
                    lemma_spec_index_of(self.clusters@, id@);
                }
                self.clusters.push(cluster);
                proof {
                    assert(forall|a: int| 0 <= a < old(self).clusters@.len()
                        ==> #[trigger] self.clusters@[a] == old(self).clusters@[a]);
                }
            },
        }
    }

    /// Appends a relation triple; never deduplicates.
    pub fn add_relation(&mut self, source: &str, relation: &str, target: &str)
        requires
            old(self).wf(),
        ensures
            final(self).wf(),
            final(self).clusters == old(self).clusters,
            final(self).relations@.len() == old(self).relations@.len() + 1,
            forall|i: int| 0 <= i < old(self).relations@.len()
                ==> #[trigger] final(self).relations@[i] == old(self).relations@[i],
            final(self).relations@.last().0@ == source@,
            final(self).relations@.last().1@ == relation@,
            final(self).relations@.last().2@ == target@,
    {
        self.relations.push((source.to_owned(), relation.to_owned(), target.to_owned()));
    }

    /// The name and similarity of the cluster most similar to `embedding`;
    /// `None` exactly when the graph holds no cluster. Ties break toward the
    /// earliest-inserted cluster.
    pub fn find_nearest(&self, embedding: &Vec<i32>) -> (r: Option<(String, Similarity)>)
        requires
            self.wf(),
            valid_embedding(embedding@),
            forall|i: int| 0 <= i < self.clusters@.len()
                ==> (#[trigger] self.clusters@[i]).embedding@.len() == embedding@.len(),
        ensures
            match (r, spec_nearest(self.clusters@, embedding@)) {
                (Option::None, Option::None) => self.clusters@.len() == 0,
                (Option::Some(a), Option::Some(b)) => a.0@ == b.0 && a.1 == b.1,
                _ => false,
            },
    {
        let n = self.clusters.len();
        if n == 0 {
            return None;
        }
        let mut best_id: String = self.clusters[0].name.clone();
        let mut best_score: Similarity = cosine(embedding, &self.clusters[0].embedding);
        proof {
            assert(self.clusters@.take(1).drop_last() =~= Seq::<ObjectCluster>::empty());
            assert(self.clusters@.take(1).last() == self.clusters@[0]);
            assert(self.clusters@.take(1).len() == 1);
            assert(spec_nearest(Seq::<ObjectCluster>::empty(), embedding@) is None);
            assert(spec_nearest(self.clusters@.take(1), embedding@) == Some(
                (self.clusters@[0].name@, spec_cosine(embedding@, self.clusters@[0].embedding@)),
            ));
        }
        let mut i: usize = 1;
        while i < n
            invariant
                self.wf(),
                n == self.clusters@.len(),
                1 <= i <= n,
                valid_embedding(embedding@),
                forall|k: int| 0 <= k < n
                    ==> (#[trigger] self.clusters@[k]).embedding@.len() == embedding@.len(),
                sim_wf(best_score),
                spec_nearest(self.clusters@.take(i as int), embedding@)
                    == Some((best_id@, best_score)),
            decreases n - i,
        {
            proof {
                assert(self.clusters@.take(i + 1).drop_last() =~= self.clusters@.take(i as int));
                assert(self.clusters@.take(i + 1).last() == self.clusters@[i as int]);
                assert(self.clusters@[i as int].wf());
            }
            let sc = cosine(embedding, &self.clusters[i].embedding);
            if crate::similarity::sim_lt_exec(&best_score, &sc) {
                best_id = self.clusters[i].name.clone();
                best_score = sc;
            }
            i += 1;
        }
        proof {
            assert(self.clusters@.take(n as int) =~= self.clusters@);
        }
        Some((best_id, best_score))
    }
}

} // verus!
