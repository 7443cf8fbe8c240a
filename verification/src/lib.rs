//! The field write barrier of the LXR reference-counting collector, verified.
//!
//! The barrier logs each reference slot the first time a mutator overwrites it,
//! records the overwritten referent for a decrement and the slot for an
//! increment, and hands full buffers to the collector as work packets.
//! The heap, its side metadata and the collector's scheduler are modelled
//! sequentially, so every operation is a function from state to state.
pub mod object;
pub mod heap;
pub mod queue;
pub mod work;
pub mod plan;
pub mod barrier;
pub mod gc_log;
pub mod laws;
