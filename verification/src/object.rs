//! Tagged, affect-scored object clusters.
//!
//! Affect values are fixed-point tenths (`-17` denotes -1.7). The wide
//! integer type keeps summing weights total for any number of tags.

use vstd::prelude::*;
use crate::similarity::valid_embedding;
use crate::text::str_eq;

verus! {

/// Affect classification.
#[derive(Clone, Copy, Debug, PartialEq, Eq, Structural)]
pub enum Affect {
    Pleasant,
    Unpleasant,
    Unknown,
}

/// The class a fixed-point affect value (tenths) determines: above 0.3 is
/// pleasant, below -0.3 unpleasant, otherwise unknown.
pub open spec fn classify(v: int) -> Affect {
    if v > 3 {
        Affect::Pleasant
    } else if v < -3 {
        Affect::Unpleasant
    } else {
        Affect::Unknown
    }
}

/// An affect value (fixed-point tenths) with its classification.
#[derive(Clone, Copy, Debug, PartialEq, Eq, Structural)]
pub struct AffectScore {
    pub value: i128,
    pub class: Affect,
}

impl AffectScore {
    /// The class is the one the value determines.
    pub open spec fn wf(self) -> bool {
        self.class == classify(self.value as int)
    }

    /// Scores a raw value with its classification.
    pub fn from_value(val: i128) -> (r: AffectScore)
        ensures
            r.value == val,
            r.class == classify(val as int),
            r.wf(),
    {
        let class = if val > 3 {
            Affect::Pleasant
        } else if val < -3 {
            Affect::Unpleasant
        } else {
            Affect::Unknown
        };
        AffectScore { value: val, class }
    }
}

/// The tag contents of a tag list.
pub open spec fn tag_views(s: Seq<String>) -> Seq<Seq<char>> {
    s.map_values(|t: String| t@)
}

/// How many distinct tag contents the list holds.
pub open spec fn distinct_count(s: Seq<Seq<char>>) -> int
    decreases s.len(),
{
    if s.len() == 0 {
        0
    } else {
        distinct_count(s.drop_last()) + if s.drop_last().contains(s.last()) {
            0int
        } else {
            1int
        }
    }
}

/// Stability: at least four distinct tags and an absolute affect value of at
/// least 0.8 (eight tenths).
pub open spec fn stable(tags: Seq<Seq<char>>, affect_value: int) -> bool {
    distinct_count(tags) >= 4 && (affect_value >= 8 || affect_value <= -8)
}

/// A semantic object cluster: identity is its name; tags and affect mutate
/// over time; `known` is monotonic (false to true only).
pub struct ObjectCluster {
    pub name: String,
    pub embedding: Vec<i32>,
    pub tags: Vec<String>,
    pub affect: AffectScore,
    pub known: bool,
}

impl ObjectCluster {
    /// A valid embedding and a classification that matches the value.
    pub open spec fn wf(&self) -> bool {
        valid_embedding(self.embedding@) && self.affect.wf()
    }

    /// A fresh cluster: neutral affect, not yet known.
    pub fn new(name: String, embedding: Vec<i32>, tags: Vec<String>) -> (r: ObjectCluster)
        requires
            valid_embedding(embedding@),
        ensures
            r.wf(),
            r.name == name,
            r.embedding == embedding,
            r.tags == tags,
            r.affect.value == 0,
            r.affect.class == Affect::Unknown,
            !r.known,
    {
        ObjectCluster { name, embedding, tags, affect: AffectScore::from_value(0), known: false }
    }

    /// How many distinct tag contents this cluster holds.
    fn distinct_tag_count(&self) -> (r: usize)
        ensures
            r == distinct_count(tag_views(self.tags@)),
    {
        let n = self.tags.len();
        let mut count: usize = 0;
        let mut i: usize = 0;
        while i < n
            invariant
                n == self.tags@.len(),
                i <= n,
                count == distinct_count(tag_views(self.tags@.take(i as int))),
                count <= i,
            decreases n - i,
        {
            let mut seen = false;
            let mut j: usize = 0;
            while j < i
                invariant
                    i < n,
                    j <= i,
                    n == self.tags@.len(),
                    seen <==> exists|k: int| 0 <= k < j && self.tags@[k]@ == self.tags@[i as int]@,
                decreases i - j,
            {
                if str_eq(self.tags[j].as_str(), self.tags[i].as_str()) {
                    seen = true;
                }
                j += 1;
            }
            proof {
                let pre = tag_views(self.tags@.take(i as int));
                let post = tag_views(self.tags@.take(i + 1));
                assert(post.drop_last() =~= pre);
                assert(post.last() == self.tags@[i as int]@);
                if seen {
                    let k = choose|k: int| 0 <= k < i && self.tags@[k]@ == self.tags@[i as int]@;
                    assert(pre[k] == self.tags@[k]@);
                    assert(pre.contains(post.last()));
                } else {
                    assert(!pre.contains(post.last())) by {
                        if pre.contains(post.last()) {
                            let k = choose|k: int| 0 <= k < pre.len() && pre[k] == post.last();
                            assert(self.tags@[k]@ == self.tags@[i as int]@);
                        }
                    }
                }
            }
            if !seen {
                count += 1;
            }
            i += 1;
        }
        proof {
            assert(self.tags@.take(n as int) =~= self.tags@);
        }
        count
    }

    /// Runs the stability check: marks the cluster known once it has at least
    /// four distinct tags and an absolute affect value of at least 0.8; never
    /// reverts `known` to false.
    pub fn refresh_known(&mut self)
        ensures
            final(self).name == old(self).name,
            final(self).embedding == old(self).embedding,
            final(self).tags == old(self).tags,
            final(self).affect == old(self).affect,
            final(self).known == (old(self).known
                || stable(tag_views(old(self).tags@), old(self).affect.value as int)),
    {
        let d = self.distinct_tag_count();
        if d >= 4 && (self.affect.value >= 8 || self.affect.value <= -8) {
            self.known = true;
        }
    }

    /// Appends the tag unless an equal tag is already present, then runs the
    /// stability check.
    pub fn add_tag(&mut self, tag: &str)
        ensures
            final(self).name == old(self).name,
            final(self).embedding == old(self).embedding,
            final(self).affect == old(self).affect,
            tag_views(final(self).tags@) == if tag_views(old(self).tags@).contains(tag@) {
                tag_views(old(self).tags@)
            } else {
                tag_views(old(self).tags@).push(tag@)
            },
            final(self).known == (old(self).known
                || stable(tag_views(final(self).tags@), old(self).affect.value as int)),
            old(self).wf() ==> final(self).wf(),
    {
        let n = self.tags.len();
        let mut present = false;
        let mut j: usize = 0;
        while j < n
            invariant
                n == self.tags@.len(),
                j <= n,
                present <==> exists|k: int| 0 <= k < j && self.tags@[k]@ == tag@,
            decreases n - j,
        {
            if str_eq(self.tags[j].as_str(), tag) {
                present = true;
            }
            j += 1;
        }
        proof {
            let views = tag_views(self.tags@);
            if present {
                let k = choose|k: int| 0 <= k < n && self.tags@[k]@ == tag@;
                assert(views[k] == tag@);
                assert(views.contains(tag@));
            } else {
                assert(!views.contains(tag@)) by {
                    if views.contains(tag@) {
                        let k = choose|k: int| 0 <= k < views.len() && views[k] == tag@;
                        assert(self.tags@[k]@ == tag@);
                    }
                }
            }
        }
        if !present {
            let owned = tag.to_owned();
            self.tags.push(owned);
            proof {
                assert(tag_views(self.tags@) =~= tag_views(old(self).tags@).push(tag@));
            }
        }
        self.refresh_known();
    }

    /// Shifts the affect value by `delta` (fixed-point tenths), reclassifies,
    /// then runs the stability check.
    pub fn update_affect(&mut self, delta: i128)
        requires
            i128::MIN <= old(self).affect.value + delta <= i128::MAX,
        ensures
            final(self).name == old(self).name,
            final(self).embedding == old(self).embedding,
            final(self).tags == old(self).tags,
            final(self).affect.value == old(self).affect.value + delta,
            final(self).affect.class == classify(old(self).affect.value + delta),
            final(self).known == (old(self).known
                || stable(tag_views(old(self).tags@), old(self).affect.value + delta)),
            old(self).wf() ==> final(self).wf(),
    {
        let v = self.affect.value + delta;
        self.affect = AffectScore::from_value(v);
        self.refresh_known();
    }
}

} // verus!
