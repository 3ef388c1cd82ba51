//! A node of a diagram: a basic node or a subgraph.
use super::super::indent::tabs;
use super::super::service_oper_graph::ServiceOperationType;
use super::basic_node::{basic_node_lines, MermaidBasicNode};
use super::sub_graph::MermaidSubGraph;
use crate::text::views;
use vstd::prelude::*;

verus! {

/// Container to allow basic nodes and subgraphs to be held in the same list.
pub enum MermaidNode<'a> {
    Node(MermaidBasicNode<'a>),
    SubGraph(MermaidSubGraph<'a>),
}

/// The diagram lines of a node at indentation level `indent`.
pub open spec fn node_lines(n: MermaidNode, indent: nat) -> Seq<Seq<char>>
    decreases n, 0nat,
{
    match n {
        MermaidNode::Node(b) => basic_node_lines(b.service@, b.serv_oper_type, indent),
        MermaidNode::SubGraph(sg) => subgraph_lines(sg, indent),
    }
}

/// The diagram lines of a subgraph at indentation level `indent`: the opening line, the nested
/// nodes one level deeper, the closing line and, when emphasized, a style line.
pub open spec fn subgraph_lines(sg: MermaidSubGraph, indent: nat) -> Seq<Seq<char>>
    decreases sg, sg.nodes@.len() + 1,
{
    let open = tabs(indent) + "subgraph "@ + sg.service@;
    let close = tabs(indent) + "end"@;
    let style = if sg.serv_oper_type == ServiceOperationType::Emphasized {
        seq!["\tstyle "@ + sg.service@ + " fill:#00f"@]
    } else {
        seq![]
    };
    seq![open] + children_lines(sg, indent + 1, sg.nodes@.len()) + seq![close] + style
}

/// The diagram lines of the first `k` nested nodes of `sg`.
pub open spec fn children_lines(sg: MermaidSubGraph, indent: nat, k: nat) -> Seq<Seq<char>>
    decreases sg, k,
{
    if k == 0 || k > sg.nodes@.len() {
        seq![]
    } else {
        proof {
            lemma_node_decreases(sg, (k - 1) as int);
        }
        children_lines(sg, indent, (k - 1) as nat) + node_lines(sg.nodes@[k - 1], indent)
    }
}

/// The nesting depth of a node: 0 for a basic node.
pub open spec fn node_depth(n: MermaidNode) -> nat
    decreases n, 0nat,
{
    match n {
        MermaidNode::Node(_) => 0,
        MermaidNode::SubGraph(sg) => subgraph_depth(sg),
    }
}

/// The nesting depth of a subgraph: one more than its deepest nested node.
pub open spec fn subgraph_depth(sg: MermaidSubGraph) -> nat
    decreases sg, sg.nodes@.len() + 1,
{
    1 + children_depth(sg, sg.nodes@.len())
}

/// The greatest depth among the first `k` nested nodes of `sg`.
pub open spec fn children_depth(sg: MermaidSubGraph, k: nat) -> nat
    decreases sg, k,
{
    if k == 0 || k > sg.nodes@.len() {
        0
    } else {
        proof {
            lemma_node_decreases(sg, (k - 1) as int);
        }
        let a = children_depth(sg, (k - 1) as nat);
        let b = node_depth(sg.nodes@[k - 1]);
        if a >= b { a } else { b }
    }
}

/// A nested node is smaller than its subgraph.
pub proof fn lemma_node_decreases(sg: MermaidSubGraph, i: int)
    requires
        0 <= i < sg.nodes@.len(),
    ensures
        decreases_to!(sg => sg.nodes@[i]),
{
    assert(decreases_to!(sg => sg.nodes));
    assert(decreases_to!(sg.nodes => sg.nodes@));
    assert(decreases_to!(sg.nodes@ => sg.nodes@[i]));
}

impl<'a> MermaidNode<'a> {
    /// Append the lines of this node to `diagram`.
    pub fn to_diagram(&self, diagram: &mut Vec<String>, indent: usize)
        requires
            indent + node_depth(*self) <= usize::MAX,
        ensures
            views(final(diagram)@) == views(old(diagram)@) + node_lines(*self, indent as nat),
        decreases *self, 0nat,
    {
        match self {
            MermaidNode::Node(node) => node.to_diagram(diagram, indent),
            MermaidNode::SubGraph(sg) => sg.to_diagram(diagram, indent),
        }
    }
}

} // verus!
