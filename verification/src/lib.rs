//! Pruning of a node's historical data, verified.
//!
//! A pruner deletes, part by part and batch by batch, the rows of derived tables that
//! belong to blocks at or below a target, and remembers in a checkpoint how far it got.
//! The range planner, the pruning of sharded history indices, the part driver and the
//! run over all parts work on a [`store::Store`] held in memory; what each of them does
//! to it is stated in [`effects`], and [`invariants`], [`laws`] and [`batching`] prove
//! what holds of every batch, of every run and of every choice of batch limits.
//!
//! [`phf`] holds key sets backed by perfect hash functions.

pub mod batching;
pub mod block_list;
pub mod changesets;
pub mod effects;
pub mod gate;
pub mod history;
pub mod indices;
pub mod invariants;
pub mod keys;
pub mod laws;
pub mod phf;
pub mod planner;
pub mod pruner;
pub mod sort;
pub mod store;
pub mod table;
pub mod types;
pub mod wellformed;

pub use effects::{PartResult, PruneTargets, PrunerResult};
pub use phf::{Fmph, Functions, KeySet, NippyJarError};
pub use pruner::Pruner;
pub use store::Store;
pub use types::{
    CommitThresholds, PruneCheckpoint, PruneMode, PruneModes, PrunePart, PrunerError,
};
