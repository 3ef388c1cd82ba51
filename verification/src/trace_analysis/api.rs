//! Viewing the result of a trace analysis.
pub mod trace_data_set;
