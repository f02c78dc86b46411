//! Tiered memory subsystem for an autonomous agent: a volatile in-process
//! store, a durable key-value table, a vector store protocol with an exact
//! reference index, and a semantic clustering graph with similarity-based
//! reflection.

pub mod agent;
pub mod api;
pub mod chat;
pub mod context;
pub mod evaluator;
pub mod latent;
pub mod latent_graph;
pub mod long_term;
pub mod object;
pub mod protocol;
pub mod rank;
pub mod reflect;
pub mod sentience;
pub mod settings;
pub mod short_term;
pub mod similarity;
pub mod text;
