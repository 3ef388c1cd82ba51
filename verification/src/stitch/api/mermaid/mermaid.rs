//! A Mermaid diagram of nested subgraphs and basic nodes.
pub mod basic_node;
pub mod link;
#[allow(clippy::module_inception)]
pub mod mermaid;
pub mod node;
pub mod sub_graph;
