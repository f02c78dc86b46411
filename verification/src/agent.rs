//! The agent's invocation-local working memory and the merge/flush protocol.
//!
//! At invocation start the agent seeds local copies of the volatile and
//! durable tiers; handler logic reads and writes only these copies. A flush
//! writes every local key back: the volatile tier by overwrite, the durable
//! tier by one upsert per key (existing rows keep their `created_at`). Flush
//! is not transactional; concurrent invocations race at flush time with
//! last-writer-wins.

use vstd::prelude::*;
use vstd::map::*;
use crate::long_term::LongTermMemory;
use crate::short_term::{ShortTermMemory, distinct_keys, map_of, lemma_map_of_contains, lemma_map_of_index};

verus! {

/// The key-to-value part of the durable view, `created_at` dropped.
pub open spec fn value_map(m: Map<Seq<char>, (Seq<char>, u64)>) -> Map<Seq<char>, Seq<char>> {
    Map::new(|k: Seq<char>| m.dom().contains(k), |k: Seq<char>| m[k].0)
}

/// The durable view after one upsert per local key: local values win, rows
/// that already existed keep their `created_at`, fresh rows are stamped
/// `now`, and rows for other keys are untouched.
pub open spec fn upsert_all(
    m: Map<Seq<char>, (Seq<char>, u64)>,
    local: Map<Seq<char>, Seq<char>>,
    now: u64,
) -> Map<Seq<char>, (Seq<char>, u64)> {
    Map::new(
        |k: Seq<char>| m.dom().contains(k) || local.dom().contains(k),
        |k: Seq<char>|
            if local.dom().contains(k) {
                (local[k], if m.dom().contains(k) {
                    m[k].1
                } else {
                    now
                })
            } else {
                m[k]
            },
    )
}

/// A local snapshot of the durable tier: its key-value pairs, `created_at`
/// dropped.
pub fn snapshot_long(long: &LongTermMemory) -> (r: ShortTermMemory)
    requires
        long.wf(),
    ensures
        r.wf(),
        r@ == value_map(long@),
{
    let long_pairs = long.all();
    proof {
        assert forall|k: Seq<char>| #[trigger] map_of(long_pairs@).contains_key(k) implies
            value_map(long@).contains_key(k) && map_of(long_pairs@)[k] == value_map(long@)[k] by {
            lemma_map_of_contains(long_pairs@, k);
            let i = choose|i: int| 0 <= i < long_pairs@.len() && long_pairs@[i].0@ == k;
            lemma_map_of_index(long_pairs@, i);
        }
        assert forall|k: Seq<char>| #[trigger] value_map(long@).contains_key(k) implies
            map_of(long_pairs@).contains_key(k) by {
            let i = choose|i: int| 0 <= i < long_pairs@.len() && long_pairs@[i].0@ == k;
            lemma_map_of_contains(long_pairs@, k);
        }
    }
    let r = ShortTermMemory::from_pairs(long_pairs);
    proof {
        assert(r@ =~= value_map(long@));
    }
    r
}

/// An agent invocation's working state: a name, a goal, and local copies of
/// the two string-keyed memory tiers.
pub struct BaseAgent {
    pub name: String,
    pub goal: String,
    pub mem_short: ShortTermMemory,
    pub mem_long: ShortTermMemory,
}

impl BaseAgent {
    /// Both local copies are well-formed.
    pub open spec fn wf(&self) -> bool {
        self.mem_short.wf() && self.mem_long.wf()
    }

    /// A fresh agent with empty local memories.
    pub fn new(name: String, goal: String) -> (r: BaseAgent)
        ensures
            r.wf(),
            r.name == name,
            r.goal == goal,
            r.mem_short@ == Map::<Seq<char>, Seq<char>>::empty(),
            r.mem_long@ == Map::<Seq<char>, Seq<char>>::empty(),
    {
        BaseAgent {
            name,
            goal,
            mem_short: ShortTermMemory::new(),
            mem_long: ShortTermMemory::new(),
        }
    }

    /// Copies the current contents of the global stores into the local
    /// copies; handler logic thereafter touches only these.
    pub fn seed(&mut self, short: &ShortTermMemory, long: &LongTermMemory)
        requires
            short.wf(),
            long.wf(),
        ensures
            final(self).wf(),
            final(self).name == old(self).name,
            final(self).goal == old(self).goal,
            final(self).mem_short@ == short@,
            final(self).mem_long@ == value_map(long@),
    {
        let short_pairs = short.all();
        self.mem_short = ShortTermMemory::from_pairs(short_pairs);
        self.mem_long = snapshot_long(long);
    }

    /// The local value stored under `key`.
    pub fn get_short(&self, key: &str) -> (r: Option<String>)
        requires
            self.wf(),
        ensures
            match r {
                Some(v) => self.mem_short@.contains_key(key@) && v@ == self.mem_short@[key@],
                None => !self.mem_short@.contains_key(key@),
            },
    {
        self.mem_short.get(key)
    }

    /// The local long-term value stored under `key`.
    pub fn get_long(&self, key: &str) -> (r: Option<String>)
        requires
            self.wf(),
        ensures
            match r {
                Some(v) => self.mem_long@.contains_key(key@) && v@ == self.mem_long@[key@],
                None => !self.mem_long@.contains_key(key@),
            },
    {
        self.mem_long.get(key)
    }

    /// Writes a local short-term value.
    pub fn set_short(&mut self, key: String, value: String)
        requires
            old(self).wf(),
        ensures
            final(self).wf(),
            final(self).name == old(self).name,
            final(self).goal == old(self).goal,
            final(self).mem_long == old(self).mem_long,
            final(self).mem_short@ == old(self).mem_short@.insert(key@, value@),
    {
        self.mem_short.set(key, value);
    }

    /// Writes a local long-term value.
    pub fn set_long(&mut self, key: String, value: String)
        requires
            old(self).wf(),
        ensures
            final(self).wf(),
            final(self).name == old(self).name,
            final(self).goal == old(self).goal,
            final(self).mem_short == old(self).mem_short,
            final(self).mem_long@ == old(self).mem_long@.insert(key@, value@),
    {
        self.mem_long.set(key, value);
    }

    /// Records the incoming message in local short-term memory under `msg`,
    /// as handling begins.
    pub fn note_input(&mut self, input: &str)
        requires
            old(self).wf(),
        ensures
            final(self).wf(),
            final(self).name == old(self).name,
            final(self).goal == old(self).goal,
            final(self).mem_long == old(self).mem_long,
            final(self).mem_short@ == old(self).mem_short@.insert("msg"@, input@),
    {
        self.mem_short.set(String::from_str("msg"), input.to_owned())
    }

    /// Every local short-term pair, as owned values.
    pub fn all_short(&self) -> (r: Vec<(String, String)>)
        requires
            self.wf(),
        ensures
            distinct_keys(r@),
            map_of(r@) == self.mem_short@,
    {
        self.mem_short.all()
    }

    /// Every local long-term pair, as owned values.
    pub fn all_long(&self) -> (r: Vec<(String, String)>)
        requires
            self.wf(),
        ensures
            distinct_keys(r@),
            map_of(r@) == self.mem_long@,
    {
        self.mem_long.all()
    }

    /// Writes every local short-term key back into the global volatile
    /// store: a synchronous overwrite per key, other keys untouched.
    pub fn flush_to_global_short(&self, global: &mut ShortTermMemory)
        requires
            self.wf(),
            old(global).wf(),
        ensures
            final(global).wf(),
            final(global)@ == old(global)@.union_prefer_right(self.mem_short@),
    {
        self.mem_short.flush_into(global);
    }

    /// Issues one upsert per local long-term key into the global durable
    /// store: existing rows keep their `created_at`, fresh rows are stamped
    /// `now`, other rows untouched.
    pub fn flush_to_global_long(&self, global: &mut LongTermMemory, now: u64)
        requires
            self.wf(),
            old(global).wf(),
        ensures
            final(global).wf(),
            final(global)@ == upsert_all(old(global)@, self.mem_long@, now),
    {
        let pairs = self.mem_long.all();
        let n = pairs.len();
        let mut i: usize = 0;
        proof {
            assert(upsert_all(old(global)@, map_of(pairs@.take(0)), now) =~= old(global)@);
        }
        while i < n
            invariant
                n == pairs@.len(),
                i <= n,
                distinct_keys(pairs@),
                global.wf(),
                global@ == upsert_all(old(global)@, map_of(pairs@.take(i as int)), now),
            decreases n - i,
        {
            proof {
                assert(pairs@.take(i + 1).drop_last() =~= pairs@.take(i as int));
                assert(pairs@.take(i + 1).last() == pairs@[i as int]);
                lemma_map_of_contains(pairs@.take(i as int), pairs@[i as int].0@);
                assert(forall|j: int| 0 <= j < i
                    ==> pairs@.take(i as int)[j] == pairs@[j]);
                assert(!map_of(pairs@.take(i as int)).contains_key(pairs@[i as int].0@));
            }
            let k = pairs[i].0.as_str();
            let v = pairs[i].1.as_str();
            global.set(k, v, now);
            proof {
                assert(global@ =~= upsert_all(
                    old(global)@,
                    map_of(pairs@.take(i + 1)),
                    now,
                ));
            }
            i += 1;
        }
        proof {
            assert(pairs@.take(n as int) =~= pairs@);
        }
    }
}

/// Flushing an unmodified local snapshot of the volatile tier leaves the
/// global store exactly as it was: overwriting every key of a sub-map with
/// its own values is the identity.
pub proof fn lemma_flush_unmodified_short(
    g: Map<Seq<char>, Seq<char>>,
    l: Map<Seq<char>, Seq<char>>,
)
    requires
        l.submap_of(g),
    ensures
        g.union_prefer_right(l) == g,
{
    assert(g.union_prefer_right(l) =~= g);
}

/// Flushing an unmodified local snapshot of the durable tier leaves the
/// table exactly as it was: every upsert writes the value already stored,
/// and `created_at` is preserved.
pub proof fn lemma_flush_unmodified_long(
    g: Map<Seq<char>, (Seq<char>, u64)>,
    l: Map<Seq<char>, Seq<char>>,
    now: u64,
)
    requires
        forall|k: Seq<char>| #[trigger] l.dom().contains(k)
            ==> g.dom().contains(k) && g[k].0 == l[k],
    ensures
        upsert_all(g, l, now) == g,
{
    let u = upsert_all(g, l, now);
    assert(u.dom() =~= g.dom());
    assert forall|k: Seq<char>| u.dom().contains(k) implies #[trigger] u[k] == g[k] by {
        if l.dom().contains(k) {
            assert(g[k].0 == l[k]);
            assert(u[k] == (l[k], g[k].1));
            assert(u[k] == (g[k].0, g[k].1));
        }
    }
    assert(u =~= g);
}

} // verus!
