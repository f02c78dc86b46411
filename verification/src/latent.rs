//! The vector tier: the bootstrap protocol for resolving the similarity
//! collection, parsing of the service's response bodies, dimension checking,
//! and an exact reference index giving embed/query their meaning.

use vstd::prelude::*;
use crate::protocol::MemoryError;
use crate::rank::{Neighbor, neighbors_wf, nviews, sort_desc, sort_neighbors};
use crate::similarity::{
    MAX_ABS_COMPONENT, MAX_DIM, Similarity, cosine, lemma_cosine_fields, spec_cosine,
    valid_embedding,
};
use crate::text::{spec_trim, trim};

verus! {

/// How the collection id is resolved at startup: an explicit override wins,
/// else a locally cached identifier (trimmed), else the collection must be
/// created remotely. Failure to resolve one is fatal.
pub enum BootstrapPlan {
    UseConfigured(String),
    UseCached(String),
    CreateRemote,
}

/// Decides the bootstrap step from the configured override and the cached
/// identifier file's contents.
pub fn plan_bootstrap(configured: Option<String>, cached: Option<String>) -> (r: BootstrapPlan)
    ensures
        configured is Some ==> r == BootstrapPlan::UseConfigured(configured.unwrap()),
        configured is None && cached is Some ==> r is UseCached && r->UseCached_0@ == spec_trim(
            cached.unwrap()@,
        ),
        configured is None && cached is None ==> r is CreateRemote,
{
    match configured {
        Some(id) => BootstrapPlan::UseConfigured(id),
        None => match cached {
            Some(text) => BootstrapPlan::UseCached(trim(text.as_str())),
            None => BootstrapPlan::CreateRemote,
        },
    }
}

/// The "id" string field of a JSON document, when the text parses to an
/// object carrying one; a pure function of the text alone.
pub uninterp spec fn id_field_of(s: Seq<char>) -> Option<Seq<char>>;

/// Relies on serde_json::from_str, Value::get and Value::as_str: extracts
/// the "id" string field of a response body. The result depends on the text
/// alone.
#[verifier::external_body]
fn extract_id_field(text: &str) -> (r: Option<String>)
    ensures
        match r {
            Some(id) => id_field_of(text@) == Some(id@),
            None => id_field_of(text@) is None,
        },
{
    let v: serde_json::Value = serde_json::from_str(text).ok()?;
    Some(v.get("id")?.as_str()?.to_string())
}

/// The "ids" field of a query response — one id list per query embedding —
/// when the text parses to one; a pure function of the text alone.
pub uninterp spec fn query_ids_of(s: Seq<char>) -> Option<Seq<Seq<Seq<char>>>>;

/// Relies on serde_json::from_str, Value::get and serde_json::from_value:
/// decodes the "ids" list of id lists of a response body. The result depends
/// on the text alone.
#[verifier::external_body]
fn extract_query_ids(text: &str) -> (r: Option<Vec<Vec<String>>>)
    ensures
        match r {
            Some(ids) => query_ids_of(text@) == Some(ids.deep_view()),
            None => query_ids_of(text@) is None,
        },
{
    let v: serde_json::Value = serde_json::from_str(text).ok()?;
    let ids = v.get("ids")?.clone();
    serde_json::from_value::<Vec<Vec<String>>>(ids).ok()
}

/// The collection id of a creation response: `Ok` exactly when the body
/// carries an "id" string field; anything else is a fatal bootstrap failure.
pub fn parse_collection_response(text: &str) -> (r: Result<String, MemoryError>)
    ensures
        match r {
            Ok(id) => id_field_of(text@) == Some(id@),
            Err(e) => id_field_of(text@) is None && e is BootstrapFailure,
        },
{
    match extract_id_field(text) {
        Some(id) => Ok(id),
        None => Err(MemoryError::BootstrapFailure),
    }
}

/// The id lists of a query response, flattened in order.
pub open spec fn flatten_ids(s: Seq<Seq<Seq<char>>>) -> Seq<Seq<char>>
    decreases s.len(),
{
    if s.len() == 0 {
        Seq::<Seq<char>>::empty()
    } else {
        flatten_ids(s.drop_last()) + s.last()
    }
}

/// The ids named by a query response, outer lists flattened in order: `Ok`
/// exactly when the body carries the "ids" list of id lists; a body the
/// backend did not shape that way reads as a backend failure.
pub fn parse_query_response(text: &str) -> (r: Result<Vec<String>, MemoryError>)
    ensures
        match r {
            Ok(ids) => query_ids_of(text@) is Some && ids.deep_view() == flatten_ids(
                query_ids_of(text@).unwrap(),
            ),
            Err(e) => query_ids_of(text@) is None && e is ConnectionFailure,
        },
{
    let rows = match extract_query_ids(text) {
        Some(rows) => rows,
        None => {
            return Err(MemoryError::ConnectionFailure);
        },
    };
    let ghost orig = rows.deep_view();
    let mut out: Vec<String> = Vec::new();
    let n = rows.len();
    let mut i: usize = 0;
    proof {
        assert(out.deep_view() =~= flatten_ids(orig.take(0)));
        assert(rows.deep_view().len() == rows@.len());
    }
    while i < n
        invariant
            n == rows@.len(),
            i <= n,
            orig == rows.deep_view(),
            orig.len() == n,
            out.deep_view() == flatten_ids(orig.take(i as int)),
        decreases n - i,
    {
        let m = rows[i].len();
        let mut j: usize = 0;
        proof {
            assert(orig[i as int] == rows@[i as int].deep_view());
            assert(orig[i as int].len() == m);
            assert(out.deep_view() + orig[i as int].take(0) =~= out.deep_view());
        }
        let ghost out_before = out.deep_view();
        while j < m
            invariant
                i < n,
                n == rows@.len(),
                m == rows@[i as int]@.len(),
                j <= m,
                orig == rows.deep_view(),
                orig[i as int] == rows@[i as int].deep_view(),
                out.deep_view() == out_before + orig[i as int].take(j as int),
            decreases m - j,
        {
            proof {
                assert(orig[i as int][j as int] == rows@[i as int]@[j as int]@);
                assert(orig[i as int].take(j + 1).drop_last() =~= orig[i as int].take(j as int));
            }
            let ghost prev = out.deep_view();
            out.push(rows[i][j].clone());
            proof {
                assert(out.deep_view() =~= prev.push(rows@[i as int]@[j as int]@));
                assert(out.deep_view() =~= out_before + orig[i as int].take(j + 1));
            }
            j += 1;
        }
        proof {
            assert(orig[i as int].take(m as int) =~= orig[i as int]);
            assert(orig.take(i + 1).drop_last() =~= orig.take(i as int));
            assert(orig.take(i + 1).last() == orig[i as int]);
            assert(out.deep_view() =~= flatten_ids(orig.take(i + 1)));
        }
        i += 1;
    }
    proof {
        assert(orig.take(n as int) =~= orig);
    }
    Ok(out)
}

/// Handle to the external similarity collection: the service's base URL, the
/// resolved collection id, and the dimensionality fixed at bootstrap. Every
/// embed or query request is checked against that dimension first.
#[derive(Clone, Debug)]
pub struct LatentMemory {
    pub chroma_url: String,
    pub collection_id: String,
    pub dim: usize,
}

impl LatentMemory {
    /// A resolved handle; the dimensionality is fixed here for the process
    /// lifetime.
    pub fn new(chroma_url: String, collection_id: String, dim: usize) -> (r: LatentMemory)
        requires
            1 <= dim,
        ensures
            r.chroma_url == chroma_url,
            r.collection_id == collection_id,
            r.dim == dim,
    {
        LatentMemory { chroma_url, collection_id, dim }
    }

    /// Rejects an embedding whose length differs from the bootstrapped
    /// dimensionality — a request-level error, never a crash.
    pub fn check_dimension(&self, embedding: &Vec<i32>) -> (r: Result<(), MemoryError>)
        ensures
            match r {
                Ok(_) => embedding@.len() == self.dim,
                Err(e) => embedding@.len() != self.dim && e == (MemoryError::DimensionMismatch {
                    expected: self.dim,
                    actual: embedding@.len() as usize,
                }),
            },
    {
        if embedding.len() == self.dim {
            Ok(())
        } else {
            Err(MemoryError::DimensionMismatch { expected: self.dim, actual: embedding.len() })
        }
    }
}

/// The (id, similarity) pair of every stored entry against a query
/// embedding, in insertion order.
pub open spec fn index_pairs(
    s: Seq<(String, Vec<i32>)>,
    q: Seq<i32>,
) -> Seq<(Seq<char>, Similarity)>
    decreases s.len(),
{
    if s.len() == 0 {
        Seq::<(Seq<char>, Similarity)>::empty()
    } else {
        index_pairs(s.drop_last(), q).push((s.last().0@, spec_cosine(q, s.last().1@)))
    }
}

/// What a query returns: the ids of the stored entries sorted by
/// non-increasing similarity to the query embedding, truncated to `k`; ties
/// keep the earlier-stored entry first.
pub open spec fn spec_query(s: Seq<(String, Vec<i32>)>, q: Seq<i32>, k: int) -> Seq<Seq<char>> {
    let sorted = sort_desc(index_pairs(s, q));
    sorted.take(if sorted.len() < k {
        sorted.len() as int
    } else {
        k
    }).map_values(|p: (Seq<char>, Similarity)| p.0)
}

/// An exact similarity index: the reference model of what the external
/// vector store is relied on to do. `embed` records an entry; `query`
/// returns up to `k` ids ordered by descending exact cosine similarity.
pub struct VectorIndex {
    pub dim: usize,
    pub entries: Vec<(String, Vec<i32>)>,
}

impl VectorIndex {
    /// A fixed dimensionality, and every entry a valid embedding of it.
    pub open spec fn wf(&self) -> bool {
        &&& 1 <= self.dim <= MAX_DIM
        &&& forall|i: int| 0 <= i < self.entries@.len() ==> valid_embedding(
            (#[trigger] self.entries@[i]).1@,
        ) && self.entries@[i].1@.len() == self.dim
    }

    /// An empty index of the given dimensionality.
    pub fn new(dim: usize) -> (r: VectorIndex)
        requires
            1 <= dim <= MAX_DIM,
        ensures
            r.wf(),
            r.dim == dim,
            r.entries@.len() == 0,
    {
        VectorIndex { dim, entries: Vec::new() }
    }

    /// Records an entry; an embedding of the wrong length is rejected as a
    /// dimension mismatch and nothing is stored.
    pub fn embed(&mut self, id: String, embedding: Vec<i32>) -> (r: Result<(), MemoryError>)
        requires
            old(self).wf(),
            forall|i: int| 0 <= i < embedding@.len() ==> -MAX_ABS_COMPONENT
                <= #[trigger] embedding@[i] <= MAX_ABS_COMPONENT,
        ensures
            final(self).wf(),
            final(self).dim == old(self).dim,
            match r {
                Ok(_) => embedding@.len() == old(self).dim && final(self).entries@ == old(
                    self,
                ).entries@.push((id, embedding)),
                Err(e) => embedding@.len() != old(self).dim && *final(self) == *old(self)
                    && e == (MemoryError::DimensionMismatch {
                    expected: old(self).dim,
                    actual: embedding@.len() as usize,
                }),
            },
    {
        if embedding.len() != self.dim {
            return Err(MemoryError::DimensionMismatch {
                expected: self.dim,
                actual: embedding.len(),
            });
        }
        self.entries.push((id, embedding));
        Ok(())
    }

    /// Up to `k` stored ids, ordered by non-increasing exact cosine
    /// similarity to the query embedding; a query of the wrong length is
    /// rejected as a dimension mismatch.
    pub fn query(&self, embedding: &Vec<i32>, k: usize) -> (r: Result<Vec<String>, MemoryError>)
        requires
            self.wf(),
            forall|i: int| 0 <= i < embedding@.len() ==> -MAX_ABS_COMPONENT
                <= #[trigger] embedding@[i] <= MAX_ABS_COMPONENT,
        ensures
            match r {
                Ok(ids) => embedding@.len() == self.dim && ids.deep_view() == spec_query(
                    self.entries@,
                    embedding@,
                    k as int,
                ) && ids@.len() <= k,
                Err(e) => embedding@.len() != self.dim && e == (MemoryError::DimensionMismatch {
                    expected: self.dim,
                    actual: embedding@.len() as usize,
                }),
            },
    {
        if embedding.len() != self.dim {
            return Err(MemoryError::DimensionMismatch {
                expected: self.dim,
                actual: embedding.len(),
            });
        }
        let ghost es = self.entries@;
        let n = self.entries.len();
        let mut pairs: Vec<Neighbor> = Vec::new();
        let mut i: usize = 0;
        proof {
            assert(nviews(pairs@) =~= index_pairs(es.take(0), embedding@));
        }
        while i < n
            invariant
                self.wf(),
                es == self.entries@,
                n == es.len(),
                i <= n,
                valid_embedding(embedding@),
                embedding@.len() == self.dim,
                nviews(pairs@) == index_pairs(es.take(i as int), embedding@),
            decreases n - i,
        {
            proof {
                assert(es.take(i + 1).drop_last() =~= es.take(i as int));
                assert(es.take(i + 1).last() == es[i as int]);
                assert(valid_embedding(es[i as int].1@));
            }
            let ghost before = pairs@;
            let id_cloned = self.entries[i].0.clone();
            let score = cosine(embedding, &self.entries[i].1);
            pairs.push(Neighbor { id: id_cloned, score });
            proof {
                assert(nviews(pairs@) =~= nviews(before).push(
                    (es[i as int].0@, spec_cosine(embedding@, es[i as int].1@)),
                ));
            }
            i += 1;
        }
        proof {
            assert(es.take(n as int) =~= es);
            lemma_index_pairs_wf(es, embedding@);
        }
        let mut sorted = sort_neighbors(pairs);
        proof {
            crate::rank::lemma_sort_desc_wf(index_pairs(es, embedding@));
        }
        if sorted.len() > k {
            let ghost whole = sorted@;
            sorted.truncate(k);
            proof {
                assert(nviews(sorted@) =~= nviews(whole).take(k as int));
            }
        } else {
            proof {
                let sv = nviews(sorted@);
                assert(sv.take(sv.len() as int) =~= sv);
            }
        }
        let ghost ranked = nviews(sorted@);
        let m = sorted.len();
        let mut out: Vec<String> = Vec::new();
        let mut j: usize = 0;
        while j < m
            invariant
                m == sorted@.len(),
                j <= m,
                ranked == nviews(sorted@),
                ranked.len() == m,
                out.deep_view() == ranked.take(j as int).map_values(
                    |p: (Seq<char>, Similarity)| p.0,
                ),
            decreases m - j,
        {
            proof {
                assert(ranked[j as int] == sorted@[j as int]@);
            }
            let ghost prev = out.deep_view();
            out.push(sorted[j].id.clone());
            proof {
                assert(out.deep_view() =~= prev.push(sorted@[j as int].id@));
                assert(out.deep_view() =~= ranked.take(j + 1).map_values(
                    |p: (Seq<char>, Similarity)| p.0,
                ));
            }
            j += 1;
        }
        proof {
            assert(ranked.take(m as int) =~= ranked);
        }
        Ok(out)
    }
}

proof fn lemma_index_pairs_len(s: Seq<(String, Vec<i32>)>, q: Seq<i32>)
    ensures
        index_pairs(s, q).len() == s.len(),
    decreases s.len(),
{
    if s.len() > 0 {
        lemma_index_pairs_len(s.drop_last(), q);
    }
}

/// Each pair is its entry's id with the entry's similarity to the query.
proof fn lemma_index_pairs_index(s: Seq<(String, Vec<i32>)>, q: Seq<i32>, i: int)
    requires
        0 <= i < s.len(),
    ensures
        index_pairs(s, q).len() == s.len(),
        index_pairs(s, q)[i] == (s[i].0@, spec_cosine(q, s[i].1@)),
    decreases s.len(),
{
    lemma_index_pairs_len(s, q);
    lemma_index_pairs_len(s.drop_last(), q);
    if i < s.len() - 1 {
        lemma_index_pairs_index(s.drop_last(), q, i);
        assert(s.drop_last()[i] == s[i]);
        assert(index_pairs(s, q)[i] == index_pairs(s.drop_last(), q)[i]);
    } else {
        assert(s.last() == s[i]);
    }
}

/// When some stored entry holds exactly the (nonzero) query embedding, the
/// top-ranked similarity of a query over this index is the value 1: an exact
/// match ranks first, up to ties at similarity 1.
pub proof fn lemma_exact_match_ranks_first(s: Seq<(String, Vec<i32>)>, q: Seq<i32>, e: int)
    requires
        valid_embedding(q),
        crate::similarity::nonzero_embedding(q),
        forall|i: int| 0 <= i < s.len() ==> valid_embedding((#[trigger] s[i]).1@)
            && s[i].1@.len() == q.len(),
        0 <= e < s.len(),
        s[e].1@ == q,
    ensures
        sort_desc(index_pairs(s, q)).len() == s.len(),
        crate::similarity::sim_equiv(
            sort_desc(index_pairs(s, q))[0].1,
            crate::similarity::unit_similarity(),
        ),
{
    let pairs = index_pairs(s, q);
    let sorted = sort_desc(pairs);
    lemma_index_pairs_wf(s, q);
    crate::rank::lemma_sort_desc_wf(pairs);
    crate::rank::lemma_sort_desc_sorted(pairs);
    crate::rank::lemma_sort_desc_multiset(pairs);
    let unit = crate::similarity::unit_similarity();
    assert(crate::similarity::sim_wf(unit));

    // The exact match occurs in the sorted pairs with similarity 1.
    lemma_index_pairs_index(s, q, e);
    crate::similarity::lemma_cosine_self_is_unit(q);
    assert(pairs[e] == (s[e].0@, spec_cosine(q, q)));
    assert(pairs.contains(pairs[e]));
    broadcast use vstd::seq_lib::group_to_multiset_ensures;

    assert(sorted.to_multiset().count(pairs[e]) > 0);
    assert(sorted.contains(pairs[e]));
    let w = choose|w: int| 0 <= w < sorted.len() && sorted[w] == pairs[e];

    // The head is at least the exact match, and no similarity exceeds 1.
    assert(crate::similarity::sim_le(sorted[w].1, sorted[0].1));
    crate::similarity::lemma_cosine_fields(q, q);
    crate::similarity::lemma_sim_le_trans(unit, sorted[w].1, sorted[0].1);
    crate::rank::lemma_sort_desc_contains(pairs, 0);
    let m0 = choose|m0: int| 0 <= m0 < pairs.len() && pairs[m0] == sorted[0];
    assert forall|i: int| 0 <= i < pairs.len() implies crate::similarity::sim_le(
        (#[trigger] pairs[i]).1,
        unit,
    ) by {
        lemma_index_pairs_index(s, q, i);
        crate::similarity::lemma_cosine_bounded(q, s[i].1@);
    }
    assert(crate::similarity::sim_le(pairs[m0].1, unit));
    assert(crate::similarity::sim_le(sorted[0].1, unit));
}

/// The index's pairs carry well-formed scores.
proof fn lemma_index_pairs_wf(s: Seq<(String, Vec<i32>)>, q: Seq<i32>)
    requires
        valid_embedding(q),
        forall|i: int| 0 <= i < s.len() ==> valid_embedding((#[trigger] s[i]).1@)
            && s[i].1@.len() == q.len(),
    ensures
        neighbors_wf(index_pairs(s, q)),
        index_pairs(s, q).len() == s.len(),
    decreases s.len(),
{
    if s.len() > 0 {
        assert(forall|i: int| 0 <= i < s.drop_last().len() ==> #[trigger] s.drop_last()[i] == s[i]);
        lemma_index_pairs_wf(s.drop_last(), q);
        lemma_cosine_fields(q, s.last().1@);
    }
}

} // verus!
