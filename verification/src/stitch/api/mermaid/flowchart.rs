//! Flowchart nodes that carry a display label.
pub mod basic_node;
pub mod escape_name;
pub mod link;
