//! Building Mermaid diagrams of the services and their call-chains.
pub mod diagram;
pub mod flowchart;
pub mod indent;
pub mod mermaid;
pub mod service_oper_graph;
