//! A complete diagram: its nodes, its links and the styling of the emphasized links.
use super::super::service_oper_graph::LinkType;
use super::basic_node::MermaidBasicNode;
use super::link::MermaidLink;
use super::node::{node_depth, node_lines, MermaidNode};
use super::sub_graph::MermaidSubGraph;
use crate::text::{decimal, join, join_strings, usize_to_string, views};
use vstd::prelude::*;
use vstd::string::*;

verus! {

/// A diagram of nodes and the links between them.
pub struct Mermaid<'a, V> {
    nodes: Vec<MermaidNode<'a>>,
    links: Vec<MermaidLink<'a, V>>,
}

/// The lines of `nodes`, each at indentation level 1, in order.
pub open spec fn nodes_lines(nodes: Seq<MermaidNode>) -> Seq<Seq<char>>
    decreases nodes.len(),
{
    if nodes.len() == 0 {
        seq![]
    } else {
        nodes_lines(nodes.drop_last()) + node_lines(nodes.last(), 1)
    }
}

/// The one-based numbers, in decimal, of the emphasized links among `links`.
pub open spec fn emphasized_numbers<V>(links: Seq<MermaidLink<V>>) -> Seq<Seq<char>>
    decreases links.len(),
{
    if links.len() == 0 {
        seq![]
    } else {
        let prev = emphasized_numbers(links.drop_last());
        if links.last().link_type == LinkType::Emphasized {
            prev.push(decimal(links.len()))
        } else {
            prev
        }
    }
}

/// The style line that draws the emphasized links thick and red.
pub open spec fn link_style_line<V>(links: Seq<MermaidLink<V>>) -> Seq<char> {
    "linkStyle "@ + join(emphasized_numbers(links), ","@) + " stroke:#ff3,stroke-width:4px,color:red;"@
}

impl<'a, V> Mermaid<'a, V> {
    /// A diagram without nodes or links.
    pub fn new() -> (r: Self)
        ensures
            r.nodes().len() == 0,
            r.links().len() == 0,
    {
        Mermaid { nodes: Vec::new(), links: Vec::new() }
    }

    pub closed spec fn nodes(&self) -> Seq<MermaidNode<'a>> {
        self.nodes@
    }

    pub closed spec fn links(&self) -> Seq<MermaidLink<'a, V>> {
        self.links@
    }

    /// Add a subgraph, a container that can hold nested basic nodes and subgraphs.
    pub fn add_subgraph(&mut self, sg: MermaidSubGraph<'a>)
        ensures
            final(self).nodes() == old(self).nodes().push(MermaidNode::SubGraph(sg)),
            final(self).links() == old(self).links(),
    {
        self.nodes.push(MermaidNode::SubGraph(sg))
    }

    /// Add a basic node (one without nested nodes).
    pub fn add_node(&mut self, node: MermaidBasicNode<'a>)
        ensures
            final(self).nodes() == old(self).nodes().push(MermaidNode::Node(node)),
            final(self).links() == old(self).links(),
    {
        self.nodes.push(MermaidNode::Node(node))
    }

    /// Add a link to the diagram.
    pub fn add_link(&mut self, link: MermaidLink<'a, V>)
        ensures
            final(self).nodes() == old(self).nodes(),
            final(self).links() == old(self).links().push(link),
    {
        self.links.push(link)
    }

    /// The diagram: "graph LR", the lines of the nodes (each at indentation level 1),
    /// and the style line of the emphasized links.
    pub fn mermaid_diagram(&self) -> (r: String)
        requires
            forall|i: int| 0 <= i < self.nodes().len() ==> 1 + node_depth(#[trigger] self.nodes()[i]) <= usize::MAX,
        ensures
            r@ == join(
                seq!["graph LR"@] + nodes_lines(self.nodes()) + seq![link_style_line(self.links())],
                "\n"@,
            ),
    {
        let mut diagram: Vec<String> = Vec::new();
        diagram.push(String::from_str("graph LR"));
        let mut i: usize = 0;
        assert(views(diagram@) =~= seq!["graph LR"@] + nodes_lines(self.nodes@.take(0)));
        while i < self.nodes.len()
            invariant
                i <= self.nodes@.len(),
                forall|j: int| 0 <= j < self.nodes().len() ==> 1 + node_depth(#[trigger] self.nodes()[j]) <= usize::MAX,
                views(diagram@) == seq!["graph LR"@] + nodes_lines(self.nodes@.take(i as int)),
            decreases self.nodes.len() - i,
        {
            assert(1 + node_depth(self.nodes()[i as int]) <= usize::MAX);
            self.nodes[i].to_diagram(&mut diagram, 1);
            proof {
                assert(self.nodes@.take(i + 1).drop_last() =~= self.nodes@.take(i as int));
                assert(self.nodes@.take(i + 1).last() == self.nodes@[i as int]);
            }
            i = i + 1;
        }
        assert(self.nodes@.take(i as int) =~= self.nodes@);
        let mut k: usize = 0;
        while k < self.links.len()
            invariant
                k <= self.links@.len(),
                views(diagram@) == seq!["graph LR"@] + nodes_lines(self.nodes@),
            decreases self.links.len() - k,
        {
            self.links[k].to_diagram(&mut diagram, 1);
            k = k + 1;
        }
        let mut highlighted: Vec<String> = Vec::new();
        let mut idx: usize = 0;
        assert(views(highlighted@) =~= emphasized_numbers(self.links@.take(0)));
        while idx < self.links.len()
            invariant
                idx <= self.links@.len(),
                views(highlighted@) == emphasized_numbers(self.links@.take(idx as int)),
            decreases self.links.len() - idx,
        {
            proof {
                assert(self.links@.take(idx + 1).drop_last() =~= self.links@.take(idx as int));
                assert(self.links@.take(idx + 1).last() == self.links@[idx as int]);
            }
            if self.links[idx].link_type == LinkType::Emphasized {
                let number = usize_to_string(idx + 1);
                let ghost before = views(highlighted@);
                highlighted.push(number);
                assert(views(highlighted@) =~= before.push(decimal((idx + 1) as nat)));
            }
            idx = idx + 1;
        }
        assert(self.links@.take(idx as int) =~= self.links@);
        let mut style = String::from_str("linkStyle ");
        let numbers = join_strings(&highlighted, ",");
        style.append(numbers.as_str());
        style.append(" stroke:#ff3,stroke-width:4px,color:red;");
        let ghost before = views(diagram@);
        let ghost line = style@;
        diagram.push(style);
        assert(views(diagram@) =~= before.push(line));
        assert(line == link_style_line(self.links()));
        assert(views(diagram@) =~= seq!["graph LR"@] + nodes_lines(self.nodes()) + seq![link_style_line(self.links())]);
        join_strings(&diagram, "\n")
    }
}

} // verus!
