//! Stitching the results of several trace analyses into time-series.
pub mod api;
pub mod call_chain_data;
pub mod call_chain_reporter;
pub mod dataseries;
pub mod key;
pub mod legacy;
pub mod proc_oper_stats_reporter;
pub mod stitch_list;
pub mod stitched;
pub mod stitched_line;
pub mod stitched_set;
