//! A diagram node without nested nodes.
use super::super::indent::{tab_string, tabs};
use super::super::service_oper_graph::ServiceOperationType;
use crate::text::views;
use vstd::prelude::*;
use vstd::string::*;

verus! {

/// A basic node without any nested nodes.
pub struct MermaidBasicNode<'a> {
    pub service: &'a str,
    pub serv_oper_type: ServiceOperationType,
}

/// The diagram lines of a basic node at indentation level `indent`.
pub open spec fn basic_node_lines(service: Seq<char>, t: ServiceOperationType, indent: nat) -> Seq<Seq<char>> {
    let node = tabs(indent) + service + "(["@ + service + "])"@;
    if t == ServiceOperationType::Emphasized {
        seq![node, "\tstyle "@ + service + " fill:#00f"@]
    } else {
        seq![node]
    }
}

impl<'a> MermaidBasicNode<'a> {
    pub fn new(service: &'a str, serv_oper_type: ServiceOperationType) -> (r: Self)
        ensures
            r.service == service,
            r.serv_oper_type == serv_oper_type,
    {
        Self { service, serv_oper_type }
    }

    /// Append the lines of this node to `diagram`.
    pub fn to_diagram(&self, diagram: &mut Vec<String>, indent: usize)
        ensures
            views(final(diagram)@) == views(old(diagram)@) + basic_node_lines(
                self.service@,
                self.serv_oper_type,
                indent as nat,
            ),
    {
        let mut node_spec = tab_string(indent);
        node_spec.append(self.service);
        node_spec.append("([");
        node_spec.append(self.service);
        node_spec.append("])");
        let ghost d0 = views(diagram@);
        let ghost l0 = node_spec@;
        diagram.push(node_spec);
        assert(views(diagram@) =~= d0.push(l0));
        if self.serv_oper_type == ServiceOperationType::Emphasized {
            let mut style = String::new();
            style.append("\tstyle ");
            style.append(self.service);
            style.append(" fill:#00f");
            let ghost d1 = views(diagram@);
            let ghost l1 = style@;
            diagram.push(style);
            assert(views(diagram@) =~= d1.push(l1));
        }
        assert(views(diagram@) =~= views(old(diagram)@) + basic_node_lines(
            self.service@,
            self.serv_oper_type,
            indent as nat,
        ));
    }
}

} // verus!
