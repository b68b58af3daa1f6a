//! Incremental median maintenance over a keyed, filtered record collection.
//!
//! The core of the crate is an incremental sorted-aggregation engine: records
//! arrive in discrete rounds ("ticks"), each batch is filtered to one group,
//! sorted by its sort key, merged into the retained sorted aggregate of the
//! previous ticks (optionally after removing deleted records), and the median
//! of the merged aggregate is published for the tick.  Two stateless baselines
//! recompute the same median from scratch, so that the strategies can be
//! cross-checked against one another.

pub mod baseline;
pub mod engine;
pub mod generator;
pub mod merge;
pub mod order;
pub mod part;
pub mod pipeline;
pub mod record;
pub mod seq_order;
