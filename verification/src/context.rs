//! The per-invocation facade: one bundle of the three stores and the single
//! process-wide semantic graph, with get/set for each tier.

use vstd::prelude::*;
use crate::latent::VectorIndex;
use crate::latent_graph::LatentGraph;
use crate::long_term::LongTermMemory;
use crate::protocol::MemoryError;
use crate::short_term::{ShortTermMemory, distinct_keys, map_of};
use crate::similarity::MAX_ABS_COMPONENT;

verus! {

/// One invocation's bundle of the memory tiers. The semantic graph is the
/// single process-wide instance, handed in rather than defaulted per
/// invocation.
pub struct Context {
    pub mem_short: ShortTermMemory,
    pub mem_long: LongTermMemory,
    pub mem_latent: VectorIndex,
    pub mem_semantic: LatentGraph,
}

impl Context {
    /// Every tier is well-formed.
    pub open spec fn wf(&self) -> bool {
        &&& self.mem_short.wf()
        &&& self.mem_long.wf()
        &&& self.mem_latent.wf()
        &&& self.mem_semantic.wf()
    }

    /// Binds one invocation to the given stores and the shared graph.
    pub fn new(
        mem_short: ShortTermMemory,
        mem_long: LongTermMemory,
        mem_latent: VectorIndex,
        mem_semantic: LatentGraph,
    ) -> (r: Context)
        requires
            mem_short.wf(),
            mem_long.wf(),
            mem_latent.wf(),
            mem_semantic.wf(),
        ensures
            r.wf(),
            r.mem_short == mem_short,
            r.mem_long == mem_long,
            r.mem_latent == mem_latent,
            r.mem_semantic == mem_semantic,
    {
        Context { mem_short, mem_long, mem_latent, mem_semantic }
    }

    /// Stores a volatile value.
    pub fn set_short(&mut self, key: &str, value: &str)
        requires
            old(self).wf(),
        ensures
            final(self).wf(),
            final(self).mem_short@ == old(self).mem_short@.insert(key@, value@),
            final(self).mem_long == old(self).mem_long,
            final(self).mem_latent == old(self).mem_latent,
            final(self).mem_semantic == old(self).mem_semantic,
    {
        self.mem_short.set(key.to_owned(), value.to_owned());
    }

    /// The volatile value stored under `key`.
    pub fn get_short(&self, key: &str) -> (r: Option<String>)
        requires
            self.wf(),
        ensures
            match r {
                Some(v) => self.mem_short@.contains_key(key@) && v@ == self.mem_short@[key@],
                None => !self.mem_short@.contains_key(key@),
            },
    {
        self.mem_short.get(key)
    }

    /// Every volatile pair.
    pub fn all_short(&self) -> (r: Vec<(String, String)>)
        requires
            self.wf(),
        ensures
            distinct_keys(r@),
            map_of(r@) == self.mem_short@,
    {
        self.mem_short.all()
    }

    /// Upserts a durable value; a fresh row is stamped `now`.
    pub fn set_long(&mut self, key: &str, value: &str, now: u64)
        requires
            old(self).wf(),
        ensures
            final(self).wf(),
            final(self).mem_long@ == old(self).mem_long@.insert(
                key@,
                (value@, if old(self).mem_long@.contains_key(key@) {
                    old(self).mem_long@[key@].1
                } else {
                    now
                }),
            ),
            final(self).mem_short == old(self).mem_short,
            final(self).mem_latent == old(self).mem_latent,
            final(self).mem_semantic == old(self).mem_semantic,
    {
        self.mem_long.set(key, value, now);
    }

    /// The durable value stored under `key`.
    pub fn get_long(&self, key: &str) -> (r: Option<String>)
        requires
            self.wf(),
        ensures
            match r {
                Some(v) => self.mem_long@.contains_key(key@) && v@ == self.mem_long@[key@].0,
                None => !self.mem_long@.contains_key(key@),
            },
    {
        self.mem_long.get(key)
    }

    /// Records an embedding in the vector tier.
    pub fn embed_latent(&mut self, id: String, embedding: Vec<i32>) -> (r: Result<
        (),
        MemoryError,
    >)
        requires
            old(self).wf(),
            forall|i: int| 0 <= i < embedding@.len() ==> -MAX_ABS_COMPONENT
                <= #[trigger] embedding@[i] <= MAX_ABS_COMPONENT,
        ensures
            final(self).wf(),
            final(self).mem_short == old(self).mem_short,
            final(self).mem_long == old(self).mem_long,
            final(self).mem_semantic == old(self).mem_semantic,
            final(self).mem_latent.dim == old(self).mem_latent.dim,
            match r {
                Ok(_) => embedding@.len() == old(self).mem_latent.dim
                    && final(self).mem_latent.entries@ == old(self).mem_latent.entries@.push(
                    (id, embedding),
                ),
                Err(e) => embedding@.len() != old(self).mem_latent.dim && final(self).mem_latent
                    == old(self).mem_latent && e == (MemoryError::DimensionMismatch {
                    expected: old(self).mem_latent.dim,
                    actual: embedding@.len() as usize,
                }),
            },
    {
        self.mem_latent.embed(id, embedding)
    }

    /// Up to `k` vector-tier ids nearest to the query embedding.
    pub fn query_latent(&self, embedding: &Vec<i32>, k: usize) -> (r: Result<
        Vec<String>,
        MemoryError,
    >)
        requires
            self.wf(),
            forall|i: int| 0 <= i < embedding@.len() ==> -MAX_ABS_COMPONENT
                <= #[trigger] embedding@[i] <= MAX_ABS_COMPONENT,
        ensures
            match r {
                Ok(ids) => embedding@.len() == self.mem_latent.dim && ids.deep_view()
                    == crate::latent::spec_query(
                    self.mem_latent.entries@,
                    embedding@,
                    k as int,
                ) && ids@.len() <= k,
                Err(e) => embedding@.len() != self.mem_latent.dim && e
                    == (MemoryError::DimensionMismatch {
                    expected: self.mem_latent.dim,
                    actual: embedding@.len() as usize,
                }),
            },
    {
        self.mem_latent.query(embedding, k)
    }
}

} // verus!
