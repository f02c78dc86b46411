//! The durable tier's table model: one row per key, holding the value and
//! the creation timestamp. `set` upserts — a new row records the given
//! timestamp, a conflicting key keeps its original `created_at` and only the
//! value changes. The relational backend that persists these rows lives
//! outside the library; its semantics are exactly this model's contracts.

use vstd::prelude::*;
use vstd::map::*;
use crate::text::str_eq;

verus! {

/// The map denoted by a row list: later rows win.
pub open spec fn rows_map(s: Seq<(String, String, u64)>) -> Map<Seq<char>, (Seq<char>, u64)>
    decreases s.len(),
{
    if s.len() == 0 {
        Map::<Seq<char>, (Seq<char>, u64)>::empty()
    } else {
        rows_map(s.drop_last()).insert(s.last().0@, (s.last().1@, s.last().2))
    }
}

/// No two rows share a key.
pub open spec fn rows_distinct(s: Seq<(String, String, u64)>) -> bool {
    forall|i: int, j: int| 0 <= i < j < s.len() ==> s[i].0@ != s[j].0@
}

proof fn lemma_rows_map_contains(s: Seq<(String, String, u64)>, k: Seq<char>)
    ensures
        rows_map(s).contains_key(k) <==> exists|i: int| 0 <= i < s.len() && s[i].0@ == k,
    decreases s.len(),
{
    if s.len() > 0 {
        lemma_rows_map_contains(s.drop_last(), k);
        if s.last().0@ == k {
            assert(s[s.len() - 1].0@ == k);
        } else if rows_map(s).contains_key(k) {
            let i = choose|i: int| 0 <= i < s.drop_last().len() && s.drop_last()[i].0@ == k;
            assert(s[i].0@ == k);
        } else if exists|i: int| 0 <= i < s.len() && s[i].0@ == k {
            let i = choose|i: int| 0 <= i < s.len() && s[i].0@ == k;
            assert(s.drop_last()[i].0@ == k);
        }
    }
}

proof fn lemma_rows_map_index(s: Seq<(String, String, u64)>, i: int)
    requires
        rows_distinct(s),
        0 <= i < s.len(),
    ensures
        rows_map(s).contains_key(s[i].0@),
        rows_map(s)[s[i].0@] == (s[i].1@, s[i].2),
    decreases s.len(),
{
    if i == s.len() - 1 {
    } else {
        lemma_rows_map_index(s.drop_last(), i);
        assert(s.drop_last()[i] == s[i]);
        assert(s.last().0@ != s[i].0@);
    }
}

proof fn lemma_rows_map_update(s: Seq<(String, String, u64)>, i: int, e: (String, String, u64))
    requires
        rows_distinct(s),
        0 <= i < s.len(),
        s[i].0@ == e.0@,
    ensures
        rows_map(s.update(i, e)) == rows_map(s).insert(e.0@, (e.1@, e.2)),
    decreases s.len(),
{
    let t = s.update(i, e);
    if i == s.len() - 1 {
        assert(t.drop_last() =~= s.drop_last());
        assert(t.last() == e);
        assert(rows_map(t) =~= rows_map(s).insert(e.0@, (e.1@, e.2)));
    } else {
        assert(t.drop_last() =~= s.drop_last().update(i, e));
        lemma_rows_map_update(s.drop_last(), i, e);
        assert(t.last() == s.last());
        assert(s.last().0@ != e.0@);
        assert(rows_map(t) =~= rows_map(s).insert(e.0@, (e.1@, e.2)));
    }
}

proof fn lemma_rows_map_push(s: Seq<(String, String, u64)>, e: (String, String, u64))
    ensures
        rows_map(s.push(e)) == rows_map(s).insert(e.0@, (e.1@, e.2)),
{
    assert(s.push(e).drop_last() =~= s);
    assert(s.push(e).last() == e);
}

proof fn lemma_rows_map_remove(s: Seq<(String, String, u64)>, i: int)
    requires
        rows_distinct(s),
        0 <= i < s.len(),
    ensures
        rows_map(s.remove(i)) == rows_map(s).remove(s[i].0@),
    decreases s.len(),
{
    let k = s[i].0@;
    if i == s.len() - 1 {
        assert(s.remove(i) =~= s.drop_last());
        lemma_rows_map_contains(s.drop_last(), k);
        assert(forall|j: int|
            0 <= j < s.drop_last().len() ==> s.drop_last()[j] == s[j] && s[j].0@ != k);
        assert(!rows_map(s.drop_last()).contains_key(k));
        assert(rows_map(s.remove(i)) =~= rows_map(s).remove(k));
    } else {
        let t = s.remove(i);
        assert(t.drop_last() =~= s.drop_last().remove(i));
        assert(t.last() == s.last());
        lemma_rows_map_remove(s.drop_last(), i);
        assert(s.last().0@ != k);
        assert(rows_map(t) =~= rows_map(s).remove(k));
    }
}

/// Durable key-value rows with upsert semantics: the view maps each key's
/// characters to its value characters and creation timestamp.
pub struct LongTermMemory {
    rows: Vec<(String, String, u64)>,
}

impl View for LongTermMemory {
    type V = Map<Seq<char>, (Seq<char>, u64)>;

    closed spec fn view(&self) -> Map<Seq<char>, (Seq<char>, u64)> {
        rows_map(self.rows@)
    }
}

impl LongTermMemory {
    /// Keys are unique among the stored rows.
    pub closed spec fn wf(&self) -> bool {
        rows_distinct(self.rows@)
    }

    /// An empty table. Schema creation at the durable backend is idempotent
    /// and happens outside the library, before rows flow through this model.
    pub fn new() -> (r: LongTermMemory)
        ensures
            r.wf(),
            r@ == Map::<Seq<char>, (Seq<char>, u64)>::empty(),
    {
        LongTermMemory { rows: Vec::new() }
    }

    /// The position of the row holding `key`, if any.
    fn index_of(&self, key: &str) -> (r: Option<usize>)
        ensures
            match r {
                Some(i) => i < self.rows@.len() && self.rows@[i as int].0@ == key@,
                None => forall|j: int| 0 <= j < self.rows@.len() ==> self.rows@[j].0@ != key@,
            },
    {
        let n = self.rows.len();
        let mut i: usize = 0;
        while i < n
            invariant
                n == self.rows@.len(),
                i <= n,
                forall|j: int| 0 <= j < i ==> self.rows@[j].0@ != key@,
            decreases n - i,
        {
            if str_eq(self.rows[i].0.as_str(), key) {
                return Some(i);
            }
            i += 1;
        }
        None
    }

    /// The value stored under `key`, or `None` when the key is absent.
    pub fn get(&self, key: &str) -> (r: Option<String>)
        requires
            self.wf(),
        ensures
            match r {
                Some(v) => self@.contains_key(key@) && v@ == self@[key@].0,
                None => !self@.contains_key(key@),
            },
    {
        proof {
            lemma_rows_map_contains(self.rows@, key@);
        }
        match self.index_of(key) {
            Some(i) => {
                proof {
                    lemma_rows_map_index(self.rows@, i as int);
                }
                Some(self.rows[i].1.clone())
            },
            None => None,
        }
    }

    /// Upsert: a fresh key inserts a row stamped `now`; an existing key
    /// keeps its `created_at` and only the value changes.
    pub fn set(&mut self, key: &str, value: &str, now: u64)
        requires
            old(self).wf(),
        ensures
            final(self).wf(),
            final(self)@ == old(self)@.insert(
                key@,
                (value@, if old(self)@.contains_key(key@) {
                    old(self)@[key@].1
                } else {
                    now
                }),
            ),
    {
        proof {
            lemma_rows_map_contains(self.rows@, key@);
        }
        match self.index_of(key) {
            Some(i) => {
                proof {
                    lemma_rows_map_index(self.rows@, i as int);
                }
                let created = self.rows[i].2;
                let e = (key.to_owned(), value.to_owned(), created);
                proof {
                    lemma_rows_map_update(self.rows@, i as int, e);
                }
                self.rows[i] = e;
            },
            None => {
                let e = (key.to_owned(), value.to_owned(), now);
                proof {
                    lemma_rows_map_push(self.rows@, e);
                }
                self.rows.push(e);
            },
        }
    }

    /// The creation timestamp of the row holding `key`, or `None` when the
    /// key is absent.
    pub fn created_at(&self, key: &str) -> (r: Option<u64>)
        requires
            self.wf(),
        ensures
            match r {
                Some(t) => self@.contains_key(key@) && t == self@[key@].1,
                None => !self@.contains_key(key@),
            },
    {
        proof {
            lemma_rows_map_contains(self.rows@, key@);
        }
        match self.index_of(key) {
            Some(i) => {
                proof {
                    lemma_rows_map_index(self.rows@, i as int);
                }
                Some(self.rows[i].2)
            },
            None => None,
        }
    }

    /// Removes `key` if present.
    pub fn delete(&mut self, key: &str)
        requires
            old(self).wf(),
        ensures
            final(self).wf(),
            final(self)@ == old(self)@.remove(key@),
    {
        proof {
            lemma_rows_map_contains(self.rows@, key@);
        }
        match self.index_of(key) {
            Some(i) => {
                proof {
                    lemma_rows_map_remove(self.rows@, i as int);
                }
                self.rows.remove(i);
            },
            None => {
                proof {
                    assert(self@.remove(key@) =~= self@);
                }
            },
        }
    }

    /// Every key-value pair, creation timestamps left out.
    pub fn all(&self) -> (r: Vec<(String, String)>)
        requires
            self.wf(),
        ensures
            crate::short_term::distinct_keys(r@),
            r@.len() == self@.dom().len(),
            forall|i: int| 0 <= i < r@.len()
                ==> self@.contains_key((#[trigger] r@[i]).0@) && r@[i].1@ == self@[r@[i].0@].0,
            forall|k: Seq<char>| self@.contains_key(k)
                ==> exists|i: int| 0 <= i < r@.len() && (#[trigger] r@[i]).0@ == k,
    {
        let n = self.rows.len();
        let mut out: Vec<(String, String)> = Vec::new();
        let mut i: usize = 0;
        while i < n
            invariant
                self.wf(),
                n == self.rows@.len(),
                i <= n,
                out@.len() == i,
                forall|j: int| 0 <= j < i
                    ==> (#[trigger] out@[j]).0@ == self.rows@[j].0@
                        && out@[j].1@ == self.rows@[j].1@,
            decreases n - i,
        {
            let k = self.rows[i].0.clone();
            let v = self.rows[i].1.clone();
            out.push((k, v));
            i += 1;
        }
        proof {
            assert forall|j: int| 0 <= j < out@.len() implies self@.contains_key(
                (#[trigger] out@[j]).0@,
            ) && out@[j].1@ == self@[out@[j].0@].0 by {
                lemma_rows_map_index(self.rows@, j);
            }
            assert forall|k: Seq<char>| self@.contains_key(k) implies exists|j: int|
                0 <= j < out@.len() && (#[trigger] out@[j]).0@ == k by {
                lemma_rows_map_contains(self.rows@, k);
                let j = choose|j: int| 0 <= j < self.rows@.len() && self.rows@[j].0@ == k;
                assert(out@[j].0@ == k);
            }
            lemma_rows_dom_len(self.rows@);
        }
        out
    }
}

/// With distinct keys the map's domain is as large as the row list.
proof fn lemma_rows_dom_len(s: Seq<(String, String, u64)>)
    requires
        rows_distinct(s),
    ensures
        rows_map(s).dom().len() == s.len(),
        rows_map(s).dom().finite(),
    decreases s.len(),
{
    broadcast use vstd::set::group_set_axioms;

    if s.len() > 0 {
        lemma_rows_dom_len(s.drop_last());
        lemma_rows_map_contains(s.drop_last(), s.last().0@);
        assert(!rows_map(s.drop_last()).contains_key(s.last().0@));
        assert(rows_map(s).dom() =~= rows_map(s.drop_last()).dom().insert(s.last().0@));
        vstd::set::axiom_set_insert_len(rows_map(s.drop_last()).dom(), s.last().0@);
    } else {
        assert(rows_map(s).dom() =~= Set::<Seq<char>>::empty());
    }
}

/// Upserting a key twice and reading it back: the read gives the second
/// value, and the row's `created_at` is the one recorded when the key first
/// entered the table — the second upsert leaves it untouched.
pub proof fn lemma_upsert_preserves_created_at(
    m: Map<Seq<char>, (Seq<char>, u64)>,
    k: Seq<char>,
    v1: Seq<char>,
    v2: Seq<char>,
    t1: u64,
    t2: u64,
)
    ensures
        ({
            let c1 = if m.contains_key(k) {
                m[k].1
            } else {
                t1
            };
            let m1 = m.insert(k, (v1, c1));
            let c2 = if m1.contains_key(k) {
                m1[k].1
            } else {
                t2
            };
            let m2 = m1.insert(k, (v2, c2));
            m2.contains_key(k) && m2[k].0 == v2 && m2[k].1 == c1
        }),
{
}

} // verus!
