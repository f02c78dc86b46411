//! The DSL-facing agent: the six memory accessors the external program
//! evaluator calls, and the wrapper that seeds them from the global stores
//! and flushes the deltas back. The evaluator itself is an external
//! collaborator: the wrapper takes its outcome as a value and performs the
//! memory protocol around it.

use vstd::prelude::*;
use vstd::map::*;
use crate::agent::{snapshot_long, value_map};
use crate::long_term::LongTermMemory;
use crate::short_term::{ShortTermMemory, distinct_keys, map_of};
use crate::text::{is_blank, spec_is_blank};

verus! {

/// The memory capability handed to the program evaluator: local short-term
/// and long-term copies, each a string-keyed map.
pub struct SentienceAgent {
    pub mem_short: ShortTermMemory,
    pub mem_long: ShortTermMemory,
}

impl SentienceAgent {
    /// Both local copies are well-formed.
    pub open spec fn wf(&self) -> bool {
        self.mem_short.wf() && self.mem_long.wf()
    }

    /// An agent with empty local memories.
    pub fn new() -> (r: SentienceAgent)
        ensures
            r.wf(),
            r.mem_short@ == Map::<Seq<char>, Seq<char>>::empty(),
            r.mem_long@ == Map::<Seq<char>, Seq<char>>::empty(),
    {
        SentienceAgent { mem_short: ShortTermMemory::new(), mem_long: ShortTermMemory::new() }
    }

    /// Writes a local short-term value.
    pub fn set_short(&mut self, key: &str, value: &str)
        requires
            old(self).wf(),
        ensures
            final(self).wf(),
            final(self).mem_long == old(self).mem_long,
            final(self).mem_short@ == old(self).mem_short@.insert(key@, value@),
    {
        self.mem_short.set(key.to_owned(), value.to_owned());
    }

    /// The local short-term value stored under `key`.
    pub fn get_short(&self, key: &str) -> (r: Option<String>)
        requires
            self.wf(),
        ensures
            match r {
                Some(v) => self.mem_short@.contains_key(key@) && v@ == self.mem_short@[key@],
                None => !self.mem_short@.contains_key(key@),
            },
    {
        self.mem_short.get(key)
    }

    /// Every local short-term pair.
    pub fn all_short(&self) -> (r: Vec<(String, String)>)
        requires
            self.wf(),
        ensures
            distinct_keys(r@),
            map_of(r@) == self.mem_short@,
    {
        self.mem_short.all()
    }

    /// Writes a local long-term value.
    pub fn set_long(&mut self, key: &str, value: &str)
        requires
            old(self).wf(),
        ensures
            final(self).wf(),
            final(self).mem_short == old(self).mem_short,
            final(self).mem_long@ == old(self).mem_long@.insert(key@, value@),
    {
        self.mem_long.set(key.to_owned(), value.to_owned());
    }

    /// The local long-term value stored under `key`.
    pub fn get_long(&self, key: &str) -> (r: Option<String>)
        requires
            self.wf(),
        ensures
            match r {
                Some(v) => self.mem_long@.contains_key(key@) && v@ == self.mem_long@[key@],
                None => !self.mem_long@.contains_key(key@),
            },
    {
        self.mem_long.get(key)
    }

    /// Every local long-term pair.
    pub fn all_long(&self) -> (r: Vec<(String, String)>)
        requires
            self.wf(),
        ensures
            distinct_keys(r@),
            map_of(r@) == self.mem_long@,
    {
        self.mem_long.all()
    }
}

/// Wraps the evaluator-facing agent: seeded from the global volatile store
/// at construction, flushed back after each program run.
pub struct SentienceWrapper {
    pub inner: SentienceAgent,
}

impl SentienceWrapper {
    /// An agent whose local short-term copy is seeded from the global
    /// volatile store.
    pub fn new(global_short: &ShortTermMemory) -> (r: SentienceWrapper)
        requires
            global_short.wf(),
        ensures
            r.inner.wf(),
            r.inner.mem_short@ == global_short@,
            r.inner.mem_long@ == Map::<Seq<char>, Seq<char>>::empty(),
    {
        let pairs = global_short.all();
        SentienceWrapper {
            inner: SentienceAgent {
                mem_short: ShortTermMemory::from_pairs(pairs),
                mem_long: ShortTermMemory::new(),
            },
        }
    }

    /// Seeds the local long-term copy from the durable store's rows.
    pub fn seed_long(&mut self, long: &LongTermMemory)
        requires
            old(self).inner.wf(),
            long.wf(),
        ensures
            final(self).inner.wf(),
            final(self).inner.mem_short == old(self).inner.mem_short,
            final(self).inner.mem_long@ == value_map(long@),
    {
        self.inner.mem_long = snapshot_long(long);
    }

    /// Writes every local short-term key back into the global store.
    pub fn flush_back(&self, global: &mut ShortTermMemory)
        requires
            self.inner.wf(),
            old(global).wf(),
        ensures
            final(global).wf(),
            final(global)@ == old(global)@.union_prefer_right(self.inner.mem_short@),
    {
        self.inner.mem_short.flush_into(global);
    }

    /// Finishes one program run: flushes the local short-term delta back and
    /// hands out the evaluator's output — `Some` exactly for a successful,
    /// non-blank output.
    pub fn handle_code(&self, outcome: Result<String, String>, global: &mut ShortTermMemory) -> (r:
        Option<String>)
        requires
            self.inner.wf(),
            old(global).wf(),
        ensures
            final(global).wf(),
            final(global)@ == old(global)@.union_prefer_right(self.inner.mem_short@),
            match outcome {
                Ok(s) => if spec_is_blank(s@) {
                    r is None
                } else {
                    r == Some(s)
                },
                Err(_) => r is None,
            },
    {
        self.flush_back(global);
        match outcome {
            Ok(s) => {
                if is_blank(s.as_str()) {
                    None
                } else {
                    Some(s)
                }
            },
            Err(_) => None,
        }
    }
}

} // verus!
