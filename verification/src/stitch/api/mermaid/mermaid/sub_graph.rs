//! A node with nested nodes.
use super::super::indent::tab_string;
use super::super::service_oper_graph::ServiceOperationType;
use super::basic_node::MermaidBasicNode;
use super::node::{
    children_depth, children_lines, lemma_node_decreases, node_depth, node_lines, subgraph_depth,
    subgraph_lines, MermaidNode,
};
use crate::text::views;
use vstd::prelude::*;
use vstd::string::*;

verus! {

/// A node with an inner structure of nested nodes.
pub struct MermaidSubGraph<'a> {
    /// a plain service name, so no embedded '/' is expected.
    pub service: &'a str,
    pub serv_oper_type: ServiceOperationType,
    pub nodes: Vec<MermaidNode<'a>>,
}

/// Every nested node is at most as deep as the deepest of the first `k` nested nodes.
pub proof fn lemma_children_depth(sg: MermaidSubGraph, k: nat, j: int)
    requires
        0 <= j < k <= sg.nodes@.len(),
    ensures
        node_depth(sg.nodes@[j]) <= children_depth(sg, k),
    decreases k,
{
    if j < k - 1 {
        lemma_children_depth(sg, (k - 1) as nat, j);
    }
}

impl<'a> MermaidSubGraph<'a> {
    /// Add a nested subgraph.
    pub fn add_subgraph(&mut self, sg: MermaidSubGraph<'a>)
        ensures
            final(self).service == old(self).service,
            final(self).serv_oper_type == old(self).serv_oper_type,
            final(self).nodes@ == old(self).nodes@.push(MermaidNode::SubGraph(sg)),
    {
        self.nodes.push(MermaidNode::SubGraph(sg))
    }

    /// Add a basic node (without nested nodes).
    pub fn add_node(&mut self, node: MermaidBasicNode<'a>)
        ensures
            final(self).service == old(self).service,
            final(self).serv_oper_type == old(self).serv_oper_type,
            final(self).nodes@ == old(self).nodes@.push(MermaidNode::Node(node)),
    {
        self.nodes.push(MermaidNode::Node(node))
    }

    /// Append the lines of this subgraph, with its nested nodes one level deeper, to `diagram`.
    pub fn to_diagram(&self, diagram: &mut Vec<String>, indent: usize)
        requires
            indent + subgraph_depth(*self) <= usize::MAX,
        ensures
            views(final(diagram)@) == views(old(diagram)@) + subgraph_lines(*self, indent as nat),
        decreases *self, self.nodes@.len() + 1,
    {
        let indent_str = tab_string(indent);
        let mut open = indent_str.clone();
        open.append("subgraph ");
        open.append(self.service);
        let ghost d0 = views(diagram@);
        let ghost l0 = open@;
        diagram.push(open);
        assert(views(diagram@) =~= d0.push(l0));
        let ghost start = views(diagram@);
        let mut i: usize = 0;
        while i < self.nodes.len()
            invariant
                i <= self.nodes@.len(),
                indent + subgraph_depth(*self) <= usize::MAX,
                views(diagram@) == start + children_lines(*self, (indent + 1) as nat, i as nat),
            decreases self.nodes.len() - i,
        {
            proof {
                lemma_children_depth(*self, self.nodes@.len(), i as int);
                lemma_node_decreases(*self, i as int);
            }
            self.nodes[i].to_diagram(diagram, indent + 1);
            i = i + 1;
            assert(children_lines(*self, (indent + 1) as nat, i as nat) == children_lines(
                *self,
                (indent + 1) as nat,
                (i - 1) as nat,
            ) + node_lines(self.nodes@[i - 1], (indent + 1) as nat));
        }
        let mut close = indent_str;
        close.append("end");
        let ghost d1 = views(diagram@);
        let ghost l1 = close@;
        diagram.push(close);
        assert(views(diagram@) =~= d1.push(l1));
        if self.serv_oper_type == ServiceOperationType::Emphasized {
            let mut style = String::new();
            style.append("\tstyle ");
            style.append(self.service);
            style.append(" fill:#00f");
            let ghost d2 = views(diagram@);
            let ghost l2 = style@;
            diagram.push(style);
            assert(views(diagram@) =~= d2.push(l2));
        }
        assert(views(diagram@) =~= views(old(diagram)@) + subgraph_lines(*self, indent as nat));
    }
}

} // verus!
