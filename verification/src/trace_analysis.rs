//! Analysis of a set of Jaeger traces.
pub mod api;
pub mod dedup;
pub mod edge_value;
pub mod stats;
