//! A link from an operation to a service/operation of the graph.
use super::link_type::LinkType;
use super::Loc;
use vstd::prelude::*;

verus! {

/// A link to the operation at (`to_service`, `to_oper`) of the graph, with the count of
/// calls over it and how the link is drawn.
#[derive(Clone, Copy, Debug)]
pub struct CallDescriptor<C> {
    pub to_service: usize,
    pub to_oper: usize,
    pub count: C,
    pub line_type: LinkType,
}

impl<C> CallDescriptor<C> {
    /// A default-drawn link to `loc` carrying `count`.
    pub fn new(loc: Loc, count: C) -> (r: Self)
        ensures
            r.to_service == loc.service_idx,
            r.to_oper == loc.oper_idx,
            r.count == count,
            r.line_type == LinkType::Default,
    {
        Self { to_service: loc.service_idx, to_oper: loc.oper_idx, count, line_type: LinkType::Default }
    }
}

} // verus!
