//! Verified core of the jaeger_stats trace-analysis and stitching library.
pub mod order;
pub mod stats;
pub mod stitch;
pub mod text;
pub mod trace;
pub mod traceext;
pub mod trace_analysis;
