//! A flowchart link between two nodes, labelled with the value it carries.
use super::super::indent::{tab_string, tabs};
use super::super::service_oper_graph::LinkType;
use crate::text::views;
use vstd::prelude::*;
use vstd::string::*;

verus! {

/// A link between two nodes (basic nodes or subgraphs), with an optional value.
pub struct MermaidLink<V> {
    pub src: String,
    pub target: String,
    pub value: Option<V>,
    pub link_type: LinkType,
}

/// The line of a link at indentation level `indent`, with the value part `value`
/// ("|value|", or nothing for a link without value).
pub open spec fn flow_link_line(
    indent: nat,
    src: Seq<char>,
    emphasized: bool,
    value: Seq<char>,
    target: Seq<char>,
) -> Seq<char> {
    tabs(indent) + src + (if emphasized {
        " ==>"@
    } else {
        " -->"@
    }) + value + " "@ + target
}

impl<V: Copy> MermaidLink<V> {
    pub fn new(src: String, target: String, value: Option<V>, link_type: LinkType) -> (r: Self)
        ensures
            r.src == src,
            r.target == target,
            r.value == value,
            r.link_type == link_type,
    {
        Self { src, target, value, link_type }
    }

    /// Append the line of this link; its value, when it has one, is written by `show`
    /// between bars.
    pub fn to_diagram<G: Fn(V) -> String>(&self, diagram: &mut Vec<String>, indent: usize, show: &G)
        requires
            forall|v: V| show.requires((v,)),
        ensures
            exists|value: Seq<char>|
                {
                    &&& views(final(diagram)@) == views(old(diagram)@).push(
                        flow_link_line(
                            indent as nat,
                            self.src@,
                            self.link_type == LinkType::Emphasized,
                            value,
                            self.target@,
                        ),
                    )
                    &&& match self.value {
                        Some(v) => exists|t: String|
                            show.ensures((v,), t) && value == "|"@ + t@ + "|"@,
                        None => value.len() == 0,
                    }
                },
    {
        let mut value_str = String::new();
        match self.value {
            Some(value) => {
                let t = show(value);
                value_str.append("|");
                value_str.append(t.as_str());
                value_str.append("|");
                assert(value_str@ == "|"@ + t@ + "|"@);
            },
            None => {
                assert(value_str@.len() == 0);
            },
        }
        let mut link = tab_string(indent);
        link.append(self.src.as_str());
        if self.link_type == LinkType::Emphasized {
            link.append(" ==>");
        } else {
            link.append(" -->");
        }
        link.append(value_str.as_str());
        link.append(" ");
        link.append(self.target.as_str());
        let ghost before = views(diagram@);
        let ghost line = link@;
        diagram.push(link);
        assert(views(diagram@) =~= before.push(line));
        assert(line == flow_link_line(
            indent as nat,
            self.src@,
            self.link_type == LinkType::Emphasized,
            value_str@,
            self.target@,
        ));
    }
}

} // verus!
