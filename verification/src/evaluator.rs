//! Tagging and affect scoring.
//!
//! `assign_tags` splits a description on whitespace, strips leading and
//! trailing non-alphanumeric characters from each token, lowercases, and
//! discards tokens that end up empty — deterministic and order-preserving.
//! `calculate_affect` sums fixed per-tag weights (fixed-point tenths) and
//! classifies the sum.

use vstd::prelude::*;
use vstd::string::StrSliceExecFns;
use crate::object::{AffectScore, ObjectCluster, classify, stable, tag_views};
use crate::text::{is_white, lower_of, spec_trim_token, str_eq, trim_token};

verus! {

/// The whitespace-separated words of `s`: `cur` is the word in progress.
pub open spec fn tokenize_acc(s: Seq<char>, cur: Seq<char>) -> Seq<Seq<char>>
    decreases s.len(),
{
    if s.len() == 0 {
        if cur.len() == 0 {
            Seq::<Seq<char>>::empty()
        } else {
            seq![cur]
        }
    } else if is_white(s[0]) {
        if cur.len() == 0 {
            tokenize_acc(s.drop_first(), Seq::<char>::empty())
        } else {
            seq![cur] + tokenize_acc(s.drop_first(), Seq::<char>::empty())
        }
    } else {
        tokenize_acc(s.drop_first(), cur.push(s[0]))
    }
}

/// The whitespace-separated words of `s`, in order.
pub open spec fn tokenize(s: Seq<char>) -> Seq<Seq<char>> {
    tokenize_acc(s, Seq::<char>::empty())
}

/// A token's final form: edges stripped of non-alphanumeric characters, then
/// lowercased.
pub open spec fn normalize_token(t: Seq<char>) -> Seq<char> {
    lower_of(spec_trim_token(t))
}

/// Normalized tokens with the empty ones discarded, order preserved.
pub open spec fn normalize_tokens(ts: Seq<Seq<char>>) -> Seq<Seq<char>>
    decreases ts.len(),
{
    if ts.len() == 0 {
        Seq::<Seq<char>>::empty()
    } else {
        normalize_tokens(ts.drop_last()) + if normalize_token(ts.last()).len() == 0 {
            Seq::<Seq<char>>::empty()
        } else {
            seq![normalize_token(ts.last())]
        }
    }
}

/// What `assign_tags` returns for a description.
pub open spec fn spec_assign_tags(s: Seq<char>) -> Seq<Seq<char>> {
    normalize_tokens(tokenize(s))
}

/// The fixed weight of one tag, in fixed-point tenths.
pub open spec fn tag_weight(t: Seq<char>) -> int {
    if t == "pain"@ {
        -10
    } else if t == "sharp"@ {
        -7
    } else if t == "beautiful"@ {
        9
    } else if t == "safe"@ {
        6
    } else {
        0
    }
}

/// The summed weight of a tag list, in fixed-point tenths.
pub open spec fn affect_sum(tags: Seq<Seq<char>>) -> int
    decreases tags.len(),
{
    if tags.len() == 0 {
        0
    } else {
        affect_sum(tags.drop_last()) + tag_weight(tags.last())
    }
}

/// Pure tagging and affect scoring over descriptions and tag lists.
pub struct SemanticEvaluator;

impl SemanticEvaluator {
    /// Splits on whitespace, strips leading and trailing non-alphanumeric
    /// characters from each token, lowercases, and discards empty tokens.
    pub fn assign_tags(description: &str) -> (r: Vec<String>)
        ensures
            tag_views(r@) == spec_assign_tags(description@),
    {
        let n = description.unicode_len();
        let mut out: Vec<String> = Vec::new();
        let ghost mut done: Seq<Seq<char>> = Seq::empty();
        let mut start: usize = 0;
        let mut i: usize = 0;
        proof {
            assert(description@.skip(0) =~= description@);
            assert(description@.subrange(0, 0) =~= Seq::<char>::empty());
            assert(Seq::<Seq<char>>::empty() + tokenize_acc(description@, Seq::<char>::empty())
                =~= tokenize_acc(description@, Seq::<char>::empty()));
        }
        while i < n
            invariant
                n == description@.len(),
                start <= i <= n,
                tokenize(description@) == done + tokenize_acc(
                    description@.skip(i as int),
                    description@.subrange(start as int, i as int),
                ),
                tag_views(out@) == normalize_tokens(done),
            decreases n - i,
        {
            let ghost cur = description@.subrange(start as int, i as int);
            let ghost rest = description@.skip(i as int);
            proof {
                assert(rest.len() > 0);
                assert(rest[0] == description@[i as int]);
                assert(rest.drop_first() =~= description@.skip(i + 1));
            }
            let c = description.get_char(i);
            if c.is_whitespace() {
                if start < i {
                    let token = description.substring_char(start, i);
                    let trimmed = trim_token(token);
                    let lowered = trimmed.as_str().to_lowercase();
                    proof {
                        assert(tokenize_acc(rest, cur) == seq![cur] + tokenize_acc(
                            rest.drop_first(),
                            Seq::<char>::empty(),
                        ));
                        let done2 = done.push(cur);
                        assert(done + (seq![cur] + tokenize_acc(
                            rest.drop_first(),
                            Seq::<char>::empty(),
                        )) =~= done2 + tokenize_acc(rest.drop_first(), Seq::<char>::empty()));
                        assert(done2.drop_last() =~= done);
                        assert(done2.last() == cur);
                    }
                    if !lowered.as_str().is_empty() {
                        out.push(lowered);
                        proof {
                            done = done.push(cur);
                            assert(tag_views(out@) =~= normalize_tokens(done));
                        }
                    } else {
                        proof {
                            done = done.push(cur);
                            assert(tag_views(out@) =~= normalize_tokens(done));
                        }
                    }
                } else {
                    proof {
                        assert(cur =~= Seq::<char>::empty());
                        assert(tokenize_acc(rest, cur) == tokenize_acc(
                            rest.drop_first(),
                            Seq::<char>::empty(),
                        ));
                    }
                }
                start = i + 1;
                proof {
                    assert(description@.subrange(start as int, i + 1) =~= Seq::<char>::empty());
                }
            } else {
                proof {
                    assert(tokenize_acc(rest, cur) == tokenize_acc(
                        rest.drop_first(),
                        cur.push(description@[i as int]),
                    ));
                    assert(description@.subrange(start as int, i + 1) =~= cur.push(
                        description@[i as int],
                    ));
                }
            }
            i += 1;
        }
        let ghost cur = description@.subrange(start as int, n as int);
        proof {
            assert(description@.skip(n as int) =~= Seq::<char>::empty());
        }
        if start < n {
            let token = description.substring_char(start, n);
            let trimmed = trim_token(token);
            let lowered = trimmed.as_str().to_lowercase();
            proof {
                assert(tokenize_acc(Seq::<char>::empty(), cur) == seq![cur]);
                let done2 = done.push(cur);
                assert(done + seq![cur] =~= done2);
                assert(done2.drop_last() =~= done);
                assert(done2.last() == cur);
            }
            if !lowered.as_str().is_empty() {
                out.push(lowered);
                proof {
                    done = done.push(cur);
                    assert(tag_views(out@) =~= normalize_tokens(done));
                }
            } else {
                proof {
                    done = done.push(cur);
                    assert(tag_views(out@) =~= normalize_tokens(done));
                }
            }
        } else {
            proof {
                assert(cur =~= Seq::<char>::empty());
                assert(tokenize_acc(Seq::<char>::empty(), cur)
                    =~= Seq::<Seq<char>>::empty());
                assert(done + Seq::<Seq<char>>::empty() =~= done);
            }
        }
        out
    }

    /// Sums the fixed per-tag weights — pain -1.0, sharp -0.7,
    /// beautiful +0.9, safe +0.6, anything else 0 — and classifies the sum.
    pub fn calculate_affect(tags: &Vec<String>) -> (r: AffectScore)
        ensures
            r.value == affect_sum(tag_views(tags@)),
            r.class == classify(affect_sum(tag_views(tags@))),
            r.wf(),
    {
        let n = tags.len();
        let mut score: i128 = 0;
        let mut i: usize = 0;
        while i < n
            invariant
                n == tags@.len(),
                i <= n,
                score == affect_sum(tag_views(tags@.take(i as int))),
                -10 * i <= score <= 10 * i,
            decreases n - i,
        {
            proof {
                assert(tag_views(tags@.take(i + 1)).drop_last() =~= tag_views(
                    tags@.take(i as int),
                ));
                assert(tag_views(tags@.take(i + 1)).last() == tags@[i as int]@);
            }
            let t = tags[i].as_str();
            if str_eq(t, "pain") {
                score -= 10;
            } else if str_eq(t, "sharp") {
                score -= 7;
            } else if str_eq(t, "beautiful") {
                score += 9;
            } else if str_eq(t, "safe") {
                score += 6;
            }
            i += 1;
        }
        proof {
            assert(tags@.take(n as int) =~= tags@);
        }
        AffectScore::from_value(score)
    }

    /// Runs the stability check on a cluster: promotes `known` once the
    /// cluster holds at least four distinct tags and an absolute affect value
    /// of at least 0.8; never reverts it.
    pub fn reclassify_if_stable(cluster: &mut ObjectCluster)
        ensures
            final(cluster).name == old(cluster).name,
            final(cluster).embedding == old(cluster).embedding,
            final(cluster).tags == old(cluster).tags,
            final(cluster).affect == old(cluster).affect,
            final(cluster).known == (old(cluster).known
                || stable(tag_views(old(cluster).tags@), old(cluster).affect.value as int)),
    {
        cluster.refresh_known();
    }
}

} // verus!
