//! A flowchart node without nested nodes.
use super::super::indent::{tab_string, tabs};
use super::super::service_oper_graph::ServiceOperationType;
use super::escape_name::escape_name;
use crate::text::{replace_chars, views};
use vstd::prelude::*;
use vstd::string::*;

verus! {

/// A basic node without any nested nodes; its identifier is the escaped service and its label the service.
pub struct MermaidBasicNode {
    pub service: String,
    pub serv_oper_type: ServiceOperationType,
}

/// The diagram lines of a basic flowchart node at indentation level `indent`.
pub open spec fn flow_node_lines(service: Seq<char>, t: ServiceOperationType, indent: nat) -> Seq<Seq<char>> {
    let esc = replace_chars(service, seq![' '], '_');
    let node = tabs(indent) + esc + "([\""@ + service + "\"])"@;
    if t == ServiceOperationType::Emphasized {
        seq![node, tabs(indent) + "style "@ + esc + " fill:#003311"@]
    } else {
        seq![node]
    }
}

impl MermaidBasicNode {
    pub fn new(service: String, serv_oper_type: ServiceOperationType) -> (r: Self)
        ensures
            r.service == service,
            r.serv_oper_type == serv_oper_type,
    {
        Self { service, serv_oper_type }
    }

    /// Append the lines of this node to `diagram`.
    pub fn to_diagram(&self, diagram: &mut Vec<String>, indent: usize)
        ensures
            views(final(diagram)@) == views(old(diagram)@) + flow_node_lines(
                self.service@,
                self.serv_oper_type,
                indent as nat,
            ),
    {
        let indent_str = tab_string(indent);
        let esc_service = escape_name(self.service.as_str());
        let mut node_spec = indent_str.clone();
        node_spec.append(esc_service.as_str());
        node_spec.append("([\"");
        node_spec.append(self.service.as_str());
        node_spec.append("\"])");
        let ghost d0 = views(diagram@);
        let ghost l0 = node_spec@;
        diagram.push(node_spec);
        assert(views(diagram@) =~= d0.push(l0));
        if self.serv_oper_type == ServiceOperationType::Emphasized {
            let mut style = indent_str;
            style.append("style ");
            style.append(esc_service.as_str());
            style.append(" fill:#003311");
            let ghost d1 = views(diagram@);
            let ghost l1 = style@;
            diagram.push(style);
            assert(views(diagram@) =~= d1.push(l1));
        }
        assert(views(diagram@) =~= views(old(diagram)@) + flow_node_lines(
            self.service@,
            self.serv_oper_type,
            indent as nat,
        ));
    }
}

} // verus!
