//! A link between two nodes of a diagram.
use super::super::service_oper_graph::LinkType;
use vstd::prelude::*;

verus! {

/// A link between two nodes (basic nodes or subgraphs), with the value it carries.
pub struct MermaidLink<'a, V> {
    pub src: &'a str,
    pub target: &'a str,
    pub value: V,
    pub link_type: LinkType,
}

impl<'a, V> MermaidLink<'a, V> {
    pub fn new(src: &'a str, target: &'a str, value: V, link_type: LinkType) -> (r: Self)
        ensures
            r.src == src,
            r.target == target,
            r.value == value,
            r.link_type == link_type,
    {
        Self { src, target, value, link_type }
    }

    /// The diagram is left as it is: this kind of link adds no line of its own (the
    /// emphasized links are styled by the diagram's "linkStyle" line).
    pub fn to_diagram(&self, diagram: &mut Vec<String>, indent: usize)
        ensures
            final(diagram)@ == old(diagram)@,
    {
    }
}

} // verus!
