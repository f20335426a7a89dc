//! Turns host telemetry events into graph fragments, merges the fragments of
//! one batch into a single deduplicated graph and encodes that graph as a
//! compressed, length-framed binary payload.

pub mod event;
pub mod graph;
pub mod batch;
pub mod wire;
pub mod serializer;
pub mod metrics;
pub mod reading;
