//! Bounded, cycle-free trees of engineering "principles".
//!
//! The crate expands a seed term into a depth- and size-bounded tree by
//! classifying encyclopedic text into engineering categories, decomposing
//! known concepts through a static knowledge base, and caching pages,
//! principle sets and whole subtrees in capacity-bounded, time-boxed stores.
//! Network fetching is left to the caller: the expansion runs over a snapshot
//! of already-fetched pages, and reports which pages it still needs.

pub mod analyzer;
pub mod api;
pub mod cache;
pub mod engine;
pub mod monitor;
pub mod outside;
pub mod semantic_analyzer;
pub mod text;
pub mod types;
