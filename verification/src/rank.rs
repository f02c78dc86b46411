//! Ranking neighbors by similarity: a stable descending sort with a
//! deterministic tie-break (earlier-scanned entries stay in front).

use vstd::prelude::*;
use crate::similarity::{Similarity, sim_wf, sim_le, sim_lt, lemma_sim_le_total, lemma_sim_le_trans};

verus! {

/// Another stored object together with its similarity to a reference
/// embedding.
pub struct Neighbor {
    pub id: String,
    pub score: Similarity,
}

impl View for Neighbor {
    type V = (Seq<char>, Similarity);

    open spec fn view(&self) -> (Seq<char>, Similarity) {
        (self.id@, self.score)
    }
}

/// The views of a neighbor sequence: id characters with scores.
pub open spec fn nviews(s: Seq<Neighbor>) -> Seq<(Seq<char>, Similarity)> {
    s.map_values(|n: Neighbor| n@)
}

/// Every score is within the comparison bounds.
pub open spec fn neighbors_wf(s: Seq<(Seq<char>, Similarity)>) -> bool {
    forall|i: int| 0 <= i < s.len() ==> sim_wf((#[trigger] s[i]).1)
}

/// Scores never increase along the sequence.
pub open spec fn sorted_desc(s: Seq<(Seq<char>, Similarity)>) -> bool {
    forall|i: int, j: int| 0 <= i < j < s.len() ==> sim_le((#[trigger] s[j]).1, (#[trigger] s[i]).1)
}

/// Insertion into a descending-sorted sequence: the new entry goes in front
/// of the first strictly smaller score, so ties keep earlier entries first.
pub open spec fn insert_desc(
    s: Seq<(Seq<char>, Similarity)>,
    x: (Seq<char>, Similarity),
) -> Seq<(Seq<char>, Similarity)>
    decreases s.len(),
{
    if s.len() == 0 {
        seq![x]
    } else if sim_lt(s[0].1, x.1) {
        seq![x] + s
    } else {
        seq![s[0]] + insert_desc(s.drop_first(), x)
    }
}

/// Stable descending sort: entries are inserted left to right.
pub open spec fn sort_desc(s: Seq<(Seq<char>, Similarity)>) -> Seq<(Seq<char>, Similarity)>
    decreases s.len(),
{
    if s.len() == 0 {
        Seq::<(Seq<char>, Similarity)>::empty()
    } else {
        insert_desc(sort_desc(s.drop_last()), s.last())
    }
}

/// Inserting where the scan stopped is `insert_desc`: every earlier entry is
/// at least `x`, the entry at the stop (if any) is strictly below `x`.
proof fn lemma_insert_desc_at(s: Seq<(Seq<char>, Similarity)>, x: (Seq<char>, Similarity), p: int)
    requires
        0 <= p <= s.len(),
        forall|i: int| 0 <= i < p ==> !sim_lt((#[trigger] s[i]).1, x.1),
        p < s.len() ==> sim_lt(s[p].1, x.1),
    ensures
        insert_desc(s, x) == s.insert(p, x),
    decreases p,
{
    if p == 0 {
        assert(insert_desc(s, x) =~= s.insert(0, x));
    } else {
        lemma_insert_desc_at(s.drop_first(), x, p - 1);
        assert(!sim_lt(s[0].1, x.1));
        assert(insert_desc(s, x) == seq![s[0]] + s.drop_first().insert(p - 1, x));
        assert(seq![s[0]] + s.drop_first().insert(p - 1, x) =~= s.insert(p, x));
    }
}

/// `insert_desc` inserts at some position: the result is a `Seq::insert`.
pub proof fn lemma_insert_desc_is_insert(s: Seq<(Seq<char>, Similarity)>, x: (Seq<char>, Similarity))
    ensures
        exists|p: int| 0 <= p <= s.len() && insert_desc(s, x) == #[trigger] s.insert(p, x),
    decreases s.len(),
{
    if s.len() == 0 {
        assert(insert_desc(s, x) =~= s.insert(0, x));
    } else if sim_lt(s[0].1, x.1) {
        assert(insert_desc(s, x) =~= s.insert(0, x));
    } else {
        lemma_insert_desc_is_insert(s.drop_first(), x);
        let p = choose|p: int|
            0 <= p <= s.drop_first().len() && insert_desc(s.drop_first(), x)
                == #[trigger] s.drop_first().insert(p, x);
        assert(seq![s[0]] + s.drop_first().insert(p, x) =~= s.insert(p + 1, x));
    }
}

/// Sorting preserves the entries as a multiset.
pub proof fn lemma_sort_desc_multiset(s: Seq<(Seq<char>, Similarity)>)
    ensures
        sort_desc(s).to_multiset() == s.to_multiset(),
    decreases s.len(),
{
    broadcast use vstd::seq_lib::group_seq_properties;

    if s.len() > 0 {
        lemma_sort_desc_multiset(s.drop_last());
        lemma_insert_desc_is_insert(sort_desc(s.drop_last()), s.last());
        let p = choose|p: int|
            0 <= p <= sort_desc(s.drop_last()).len() && insert_desc(
                sort_desc(s.drop_last()),
                s.last(),
            ) == #[trigger] sort_desc(s.drop_last()).insert(p, s.last());
        vstd::seq_lib::to_multiset_insert(sort_desc(s.drop_last()), p, s.last());
        assert(s =~= s.drop_last().push(s.last()));
        vstd::seq_lib::to_multiset_build(s.drop_last(), s.last());
        assert(sort_desc(s).to_multiset() =~= s.to_multiset());
    }
}

/// Every entry of the sorted sequence occurs in the input.
pub proof fn lemma_sort_desc_contains(s: Seq<(Seq<char>, Similarity)>, i: int)
    requires
        0 <= i < sort_desc(s).len(),
    ensures
        s.contains(sort_desc(s)[i]),
    decreases s.len(),
{
    broadcast use vstd::seq_lib::group_seq_properties;
    broadcast use vstd::seq_lib::group_to_multiset_ensures;

    lemma_sort_desc_multiset(s);
    assert(sort_desc(s).contains(sort_desc(s)[i]));
    assert(sort_desc(s).to_multiset().count(sort_desc(s)[i]) > 0);
}

/// Insertion keeps a descending-sorted sequence sorted.
proof fn lemma_insert_desc_sorted(s: Seq<(Seq<char>, Similarity)>, x: (Seq<char>, Similarity))
    requires
        neighbors_wf(s),
        sim_wf(x.1),
        sorted_desc(s),
    ensures
        sorted_desc(insert_desc(s, x)),
    decreases s.len(),
{
    if s.len() == 0 {
    } else if sim_lt(s[0].1, x.1) {
        let t = seq![x] + s;
        assert forall|i: int, j: int| 0 <= i < j < t.len() implies sim_le(t[j].1, t[i].1) by {
            lemma_sim_le_total(x.1, s[0].1);
            if i == 0 {
                if j == 1 {
                } else {
                    lemma_sim_le_trans(s[j - 1].1, s[0].1, x.1);
                }
            }
        }
    } else {
        lemma_insert_desc_sorted(s.drop_first(), x);
        lemma_insert_desc_is_insert(s.drop_first(), x);
        let t = seq![s[0]] + insert_desc(s.drop_first(), x);
        let r = insert_desc(s.drop_first(), x);
        assert forall|i: int, j: int| 0 <= i < j < t.len() implies sim_le(t[j].1, t[i].1) by {
            if i == 0 {
                let p = choose|p: int|
                    0 <= p <= s.drop_first().len() && r == #[trigger] s.drop_first().insert(p, x);
                assert(t[j] == r[j - 1]);
                if r[j - 1] == x {
                    assert(sim_le(x.1, s[0].1));
                } else {
                    assert(exists|k: int|
                        0 <= k < s.drop_first().len() && s.drop_first()[k] == r[j - 1]) by {
                        if j - 1 < p {
                            assert(s.drop_first()[j - 1] == r[j - 1]);
                        } else {
                            assert(s.drop_first()[j - 2] == r[j - 1]);
                        }
                    }
                    let k = choose|k: int|
                        0 <= k < s.drop_first().len() && s.drop_first()[k] == r[j - 1];
                    assert(s[k + 1] == r[j - 1]);
                    assert(sim_le(s[k + 1].1, s[0].1));
                }
            }
        }
    }
}

/// A sorted permutation of the input: the descending sort is sorted.
pub proof fn lemma_sort_desc_sorted(s: Seq<(Seq<char>, Similarity)>)
    requires
        neighbors_wf(s),
    ensures
        sorted_desc(sort_desc(s)),
    decreases s.len(),
{
    if s.len() > 0 {
        assert(neighbors_wf(s.drop_last()));
        lemma_sort_desc_sorted(s.drop_last());
        assert(neighbors_wf(sort_desc(s.drop_last()))) by {
            lemma_sort_desc_wf(s.drop_last());
        }
        lemma_insert_desc_sorted(sort_desc(s.drop_last()), s.last());
    }
}

/// Sorting preserves score well-formedness and the length.
pub proof fn lemma_sort_desc_wf(s: Seq<(Seq<char>, Similarity)>)
    requires
        neighbors_wf(s),
    ensures
        neighbors_wf(sort_desc(s)),
        sort_desc(s).len() == s.len(),
    decreases s.len(),
{
    broadcast use vstd::seq_lib::group_seq_properties;
    broadcast use vstd::seq_lib::group_to_multiset_ensures;

    lemma_sort_desc_multiset(s);
    assert(sort_desc(s).len() == sort_desc(s).to_multiset().len());
    assert(s.len() == s.to_multiset().len());
    assert forall|i: int| 0 <= i < sort_desc(s).len() implies sim_wf(
        (#[trigger] sort_desc(s)[i]).1,
    ) by {
        lemma_sort_desc_contains(s, i);
        let k = choose|k: int| 0 <= k < s.len() && s[k] == sort_desc(s)[i];
        assert(sim_wf(s[k].1));
    }
}

/// Inserts `x` in front of the first entry whose score is strictly below it.
fn insert_sorted(out: &mut Vec<Neighbor>, x: Neighbor)
    requires
        neighbors_wf(nviews(old(out)@)),
        sim_wf(x.score),
    ensures
        nviews(final(out)@) == insert_desc(nviews(old(out)@), x@),
{
    let n = out.len();
    proof {
        assert(forall|i: int| 0 <= i < n ==> (#[trigger] out@[i])@ == nviews(out@)[i]);
    }
    let mut p: usize = 0;
    while p < n && !crate::similarity::sim_lt_exec(&out[p].score, &x.score)
        invariant
            n == out@.len(),
            p <= n,
            sim_wf(x.score),
            forall|i: int| 0 <= i < n ==> sim_wf((#[trigger] out@[i]).score),
            forall|i: int| 0 <= i < p ==> !sim_lt((#[trigger] out@[i]).score, x.score),
        decreases n - p,
    {
        p += 1;
    }
    proof {
        assert forall|i: int| 0 <= i < p implies !sim_lt((#[trigger] nviews(out@)[i]).1, x@.1) by {
            assert(nviews(out@)[i] == out@[i]@);
        }
        assert(p < n ==> nviews(out@)[p as int].1 == out@[p as int].score);
        lemma_insert_desc_at(nviews(out@), x@, p as int);
    }
    out.insert(p, x);
    proof {
        assert(nviews(out@) =~= nviews(old(out)@).insert(p as int, x@));
    }
}

/// Sorts neighbors by non-increasing similarity; entries with equal scores
/// keep their scan order.
pub fn sort_neighbors(v: Vec<Neighbor>) -> (r: Vec<Neighbor>)
    requires
        neighbors_wf(nviews(v@)),
    ensures
        nviews(r@) == sort_desc(nviews(v@)),
{
    let ghost orig = nviews(v@);
    let mut v = v;
    let mut out: Vec<Neighbor> = Vec::new();
    let ghost mut i: int = 0;
    proof {
        assert(nviews(out@) =~= sort_desc(orig.take(0)));
        assert(nviews(v@) =~= orig.skip(0));
    }
    while v.len() > 0
        invariant
            0 <= i <= orig.len(),
            nviews(v@) =~= orig.skip(i),
            nviews(out@) == sort_desc(orig.take(i)),
            neighbors_wf(orig),
        decreases v@.len(),
    {
        proof {
            assert(neighbors_wf(nviews(out@))) by {
                assert(neighbors_wf(orig.take(i)));
                lemma_sort_desc_wf(orig.take(i));
            }
            assert(v@.len() > 0);
            assert(nviews(v@).len() == v@.len());
            assert(orig.skip(i).len() == orig.len() - i);
            assert(i < orig.len());
            assert(nviews(v@)[0] == v@[0]@);
            assert(orig.skip(i)[0] == orig[i]);
            assert(v@[0]@ == orig[i]);
            assert(sim_wf(orig[i].1));
            assert(sim_wf(v@[0].score));
        }
        let ghost vprev = v@;
        let x = v.remove(0);
        insert_sorted(&mut out, x);
        proof {
            assert(orig.take(i + 1).drop_last() =~= orig.take(i));
            assert(orig.take(i + 1).last() == orig[i]);
            i = i + 1;
            assert(v@ =~= vprev.skip(1));
            assert forall|j: int| 0 <= j < v@.len() implies nviews(v@)[j] == orig.skip(i)[j] by {
                assert(nviews(v@)[j] == v@[j]@);
                assert(v@[j] == vprev[j + 1]);
                assert(nviews(vprev)[j + 1] == vprev[j + 1]@);
                assert(nviews(vprev)[j + 1] == orig.skip(i - 1)[j + 1]);
                assert(orig.skip(i - 1)[j + 1] == orig[i + j]);
                assert(orig.skip(i)[j] == orig[i + j]);
            }
            assert(nviews(v@).len() == v@.len());
            assert(nviews(vprev).len() == vprev.len());
            assert(orig.skip(i).len() == orig.len() - i);
            assert(nviews(v@) =~= orig.skip(i));
        }
    }
    proof {
        assert(orig.take(i) =~= orig);
    }
    out
}

} // verus!
