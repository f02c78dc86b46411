//! Reflection: the clusters most similar to a referenced cluster, sorted by
//! non-increasing similarity, truncated to the five nearest, never including
//! the reference itself.

use vstd::prelude::*;
use crate::latent_graph::{LatentGraph, graph_wf, spec_index_of, lemma_spec_index_of, lemma_spec_index_of_unique};
use crate::object::ObjectCluster;
use crate::rank::{
    Neighbor, neighbors_wf, nviews, sort_desc, sort_neighbors, sorted_desc,
    lemma_sort_desc_contains, lemma_sort_desc_sorted, lemma_sort_desc_wf,
};
use crate::similarity::{Similarity, cosine, lemma_cosine_fields, spec_cosine, valid_embedding};

verus! {

/// The (name, similarity) pair of every cluster other than the reference,
/// in insertion order.
pub open spec fn reflect_pairs(
    s: Seq<ObjectCluster>,
    ref_emb: Seq<i32>,
    self_id: Seq<char>,
) -> Seq<(Seq<char>, Similarity)>
    decreases s.len(),
{
    if s.len() == 0 {
        Seq::<(Seq<char>, Similarity)>::empty()
    } else {
        reflect_pairs(s.drop_last(), ref_emb, self_id) + if s.last().name@ == self_id {
            Seq::<(Seq<char>, Similarity)>::empty()
        } else {
            seq![(s.last().name@, spec_cosine(ref_emb, s.last().embedding@))]
        }
    }
}

/// What `reflect` returns: similarity of the referenced cluster against
/// every other cluster, sorted descending, truncated to five; empty when the
/// id is unknown.
pub open spec fn spec_reflect(s: Seq<ObjectCluster>, id: Seq<char>) -> Seq<(Seq<char>, Similarity)> {
    let idx = spec_index_of(s, id);
    if idx < 0 {
        Seq::<(Seq<char>, Similarity)>::empty()
    } else {
        let sorted = sort_desc(reflect_pairs(s, s[idx].embedding@, id));
        sorted.take(if sorted.len() < 5 {
            sorted.len() as int
        } else {
            5
        })
    }
}

/// The pairs carry well-formed scores, never the reference id, and one entry
/// per other cluster.
pub proof fn lemma_reflect_pairs_wf(s: Seq<ObjectCluster>, ref_emb: Seq<i32>, self_id: Seq<char>)
    requires
        valid_embedding(ref_emb),
        forall|i: int| 0 <= i < s.len() ==> (#[trigger] s[i]).wf(),
        forall|i: int| 0 <= i < s.len()
            ==> (#[trigger] s[i]).embedding@.len() == ref_emb.len(),
    ensures
        neighbors_wf(reflect_pairs(s, ref_emb, self_id)),
        forall|k: int| 0 <= k < reflect_pairs(s, ref_emb, self_id).len()
            ==> (#[trigger] reflect_pairs(s, ref_emb, self_id)[k]).0 != self_id,
        reflect_pairs(s, ref_emb, self_id).len() <= s.len(),
        forall|k: int| 0 <= k < reflect_pairs(s, ref_emb, self_id).len() ==> exists|m: int|
            0 <= m < s.len() && #[trigger] reflect_pairs(s, ref_emb, self_id)[k] == (
            s[m].name@,
            spec_cosine(ref_emb, s[m].embedding@),
            ),
    decreases s.len(),
{
    if s.len() > 0 {
        assert(forall|i: int| 0 <= i < s.drop_last().len()
            ==> #[trigger] s.drop_last()[i] == s[i]);
        lemma_reflect_pairs_wf(s.drop_last(), ref_emb, self_id);
        if s.last().name@ != self_id {
            lemma_cosine_fields(ref_emb, s.last().embedding@);
        }
        let p = reflect_pairs(s, ref_emb, self_id);
        let pd = reflect_pairs(s.drop_last(), ref_emb, self_id);
        assert forall|k: int| 0 <= k < p.len() implies exists|m: int|
            0 <= m < s.len() && #[trigger] p[k] == (
            s[m].name@,
            spec_cosine(ref_emb, s[m].embedding@),
            ) by {
            if k < pd.len() {
                assert(p[k] == pd[k]);
                let m = choose|m: int|
                    0 <= m < s.drop_last().len() && #[trigger] pd[k] == (
                    s.drop_last()[m].name@,
                    spec_cosine(ref_emb, s.drop_last()[m].embedding@),
                    );
                assert(p[k] == (s[m].name@, spec_cosine(ref_emb, s[m].embedding@)));
            } else {
                assert(s.last() == s[s.len() - 1]);
                assert(p[k] == (s[s.len() - 1].name@, spec_cosine(
                    ref_emb,
                    s[s.len() - 1].embedding@,
                )));
            }
        }
    }
}

/// Reflection over the graph: the similarity of the cluster named
/// `object_id` against every other cluster, sorted by non-increasing
/// similarity, truncated to the five nearest; empty when the id is unknown.
pub fn reflect(graph: &LatentGraph, object_id: &str) -> (r: Vec<Neighbor>)
    requires
        graph.wf(),
    ensures
        nviews(r@) == spec_reflect(graph.clusters@, object_id@),
        r@.len() <= 5,
{
    let idx = match graph.index_of(object_id) {
        Some(i) => i,
        None => {
            let out: Vec<Neighbor> = Vec::new();
            proof {
                assert(nviews(out@) =~= spec_reflect(graph.clusters@, object_id@));
            }
            return out;
        },
    };
    let ghost cs = graph.clusters@;
    let ghost ref_emb = graph.clusters@[idx as int].embedding@;
    proof {
        lemma_spec_index_of(cs, object_id@);
        assert(cs[idx as int].wf());
    }
    let n = graph.clusters.len();
    let mut pairs: Vec<Neighbor> = Vec::new();
    let mut j: usize = 0;
    proof {
        assert(nviews(pairs@) =~= reflect_pairs(cs.take(0), ref_emb, object_id@));
    }
    while j < n
        invariant
            graph.wf(),
            cs == graph.clusters@,
            n == cs.len(),
            j <= n,
            idx < n,
            spec_index_of(cs, object_id@) == idx,
            cs[idx as int].name@ == object_id@,
            ref_emb == cs[idx as int].embedding@,
            valid_embedding(ref_emb),
            nviews(pairs@) == reflect_pairs(cs.take(j as int), ref_emb, object_id@),
        decreases n - j,
    {
        proof {
            assert(cs.take(j + 1).drop_last() =~= cs.take(j as int));
            assert(cs.take(j + 1).last() == cs[j as int]);
            assert(cs[j as int].wf());
        }
        if j != idx {
            proof {
                assert(cs[j as int].name@ != object_id@) by {
                    if cs[j as int].name@ == object_id@ {
                        lemma_spec_index_of_unique(cs, object_id@, j as int);
                    }
                }
            }
            let ghost before = pairs@;
            let id_cloned = graph.clusters[j].name.clone();
            let score = cosine(&graph.clusters[idx].embedding, &graph.clusters[j].embedding);
            pairs.push(Neighbor { id: id_cloned, score });
            proof {
                assert(nviews(pairs@) =~= nviews(before).push(
                    (cs[j as int].name@, spec_cosine(ref_emb, cs[j as int].embedding@)),
                ));
                assert(nviews(pairs@) =~= reflect_pairs(cs.take(j + 1), ref_emb, object_id@));
            }
        } else {
            proof {
                assert(reflect_pairs(cs.take(j + 1), ref_emb, object_id@) =~= reflect_pairs(
                    cs.take(j as int),
                    ref_emb,
                    object_id@,
                ));
            }
        }
        j += 1;
    }
    proof {
        assert(cs.take(n as int) =~= cs);
        lemma_reflect_pairs_wf(cs, ref_emb, object_id@);
    }
    let mut sorted = sort_neighbors(pairs);
    proof {
        lemma_sort_desc_wf(reflect_pairs(cs, ref_emb, object_id@));
    }
    if sorted.len() > 5 {
        let ghost whole = sorted@;
        sorted.truncate(5);
        proof {
            assert(nviews(sorted@) =~= nviews(whole).take(5));
        }
    } else {
        proof {
            let sv = nviews(sorted@);
            assert(sv.take(sv.len() as int) =~= sv);
        }
    }
    sorted
}

/// Reflection never includes the reference id, returns at most five entries,
/// they are sorted by non-increasing similarity, and each one is a stored
/// cluster with its true similarity to the reference embedding.
pub proof fn lemma_reflect_properties(s: Seq<ObjectCluster>, id: Seq<char>)
    requires
        graph_wf(s),
    ensures
        spec_reflect(s, id).len() <= 5,
        forall|k: int| 0 <= k < spec_reflect(s, id).len()
            ==> (#[trigger] spec_reflect(s, id)[k]).0 != id,
        sorted_desc(spec_reflect(s, id)),
        forall|k: int| 0 <= k < spec_reflect(s, id).len() ==> exists|m: int|
            0 <= m < s.len() && #[trigger] spec_reflect(s, id)[k] == (
            s[m].name@,
            spec_cosine(s[spec_index_of(s, id)].embedding@, s[m].embedding@),
            ),
{
    let idx = spec_index_of(s, id);
    lemma_spec_index_of(s, id);
    if idx >= 0 {
        let ref_emb = s[idx].embedding@;
        assert(s[idx].wf());
        lemma_reflect_pairs_wf(s, ref_emb, id);
        let pairs = reflect_pairs(s, ref_emb, id);
        let sorted = sort_desc(pairs);
        lemma_sort_desc_sorted(pairs);
        lemma_sort_desc_wf(pairs);
        let take_n = if sorted.len() < 5 {
            sorted.len() as int
        } else {
            5
        };
        assert forall|k: int| 0 <= k < spec_reflect(s, id).len() implies (#[trigger] spec_reflect(
            s,
            id,
        )[k]).0 != id by {
            assert(spec_reflect(s, id)[k] == sorted[k]);
            lemma_sort_desc_contains(pairs, k);
            let m = choose|m: int| 0 <= m < pairs.len() && pairs[m] == sorted[k];
            assert(pairs[m].0 != id);
        }
        assert forall|i: int, j: int| 0 <= i < j < spec_reflect(s, id).len() implies
            crate::similarity::sim_le(
                (#[trigger] spec_reflect(s, id)[j]).1,
                (#[trigger] spec_reflect(s, id)[i]).1,
            ) by {
            assert(spec_reflect(s, id)[i] == sorted[i]);
            assert(spec_reflect(s, id)[j] == sorted[j]);
        }
        assert forall|k: int| 0 <= k < spec_reflect(s, id).len() implies exists|m: int|
            0 <= m < s.len() && #[trigger] spec_reflect(s, id)[k] == (
            s[m].name@,
            spec_cosine(s[idx].embedding@, s[m].embedding@),
            ) by {
            assert(spec_reflect(s, id)[k] == sorted[k]);
            lemma_sort_desc_contains(pairs, k);
            let w = choose|w: int| 0 <= w < pairs.len() && pairs[w] == sorted[k];
            let m = choose|m: int|
                0 <= m < s.len() && #[trigger] pairs[w] == (
                s[m].name@,
                spec_cosine(ref_emb, s[m].embedding@),
                );
            assert(spec_reflect(s, id)[k] == (s[m].name@, spec_cosine(
                s[idx].embedding@,
                s[m].embedding@,
            )));
        }
    }
}

} // verus!
