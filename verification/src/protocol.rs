//! Error taxonomy for the memory tiers.

use vstd::prelude::*;

verus! {

/// One error class per failure mode of a memory operation.
///
/// `ConnectionFailure` is a backend that cannot be reached, `NotFound` a key
/// that is absent, `DimensionMismatch` an embedding whose length differs from
/// the bootstrapped dimension, `BootstrapFailure` a vector collection that
/// cannot be resolved at startup (fatal), and `LockDegraded` a guarded
/// structure whose lock cannot be acquired after a prior panic (swallowed by
/// callers as "no value").
#[derive(Clone, Debug)]
pub enum MemoryError {
    ConnectionFailure,
    NotFound,
    DimensionMismatch { expected: usize, actual: usize },
    BootstrapFailure,
    LockDegraded,
}

impl MemoryError {
    /// A short human-readable description of the error class.
    pub fn message(&self) -> (r: &'static str)
        ensures
            r@ == self.spec_message(),
    {
        proof {
            reveal_strlit("backend unreachable");
            reveal_strlit("key not found");
            reveal_strlit("embedding dimension mismatch");
            reveal_strlit("vector collection bootstrap failed");
            reveal_strlit("lock unavailable");
        }
        match self {
            MemoryError::ConnectionFailure => "backend unreachable",
            MemoryError::NotFound => "key not found",
            MemoryError::DimensionMismatch { .. } => "embedding dimension mismatch",
            MemoryError::BootstrapFailure => "vector collection bootstrap failed",
            MemoryError::LockDegraded => "lock unavailable",
        }
    }

    pub open spec fn spec_message(&self) -> Seq<char> {
        match self {
            MemoryError::ConnectionFailure => "backend unreachable"@,
            MemoryError::NotFound => "key not found"@,
            MemoryError::DimensionMismatch { .. } => "embedding dimension mismatch"@,
            MemoryError::BootstrapFailure => "vector collection bootstrap failed"@,
            MemoryError::LockDegraded => "lock unavailable"@,
        }
    }
}

} // verus!
