//! An operation of a service, with its outgoing links.
use super::call_descriptor::CallDescriptor;
use super::link_type::LinkType;
use super::{Loc, ServiceOperationType};
use crate::stats::call_chain::CallDirection;
use vstd::prelude::*;

verus! {

/// An operation of a service and the links that leave it.
#[derive(Debug)]
pub struct Operation<C> {
    pub oper: String,
    pub call_direction: CallDirection,
    pub serv_oper_type: ServiceOperationType,
    pub calls: Vec<CallDescriptor<C>>,
}

/// The link `c` leads to the operation `oper` of the service `service`.
pub open spec fn links_to<C>(c: CallDescriptor<C>, service: int, oper: int) -> bool {
    c.to_service == service && c.to_oper == oper
}

/// `k` is the first link of `calls` that leads to (`service`, `oper`).
pub open spec fn first_link<C>(calls: Seq<CallDescriptor<C>>, service: int, oper: int, k: int) -> bool {
    &&& 0 <= k < calls.len()
    &&& links_to(calls[k], service, oper)
    &&& forall|j: int| 0 <= j < k ==> !links_to(#[trigger] calls[j], service, oper)
}

/// No link of `calls` leads to (`service`, `oper`).
pub open spec fn no_link<C>(calls: Seq<CallDescriptor<C>>, service: int, oper: int) -> bool {
    forall|j: int| 0 <= j < calls.len() ==> !links_to(#[trigger] calls[j], service, oper)
}

/// The index of the first link of `calls` to (`service`, `oper`), if there is one.
pub fn link_position<C>(calls: &Vec<CallDescriptor<C>>, service: usize, oper: usize) -> (r: Option<usize>)
    ensures
        r matches Some(k) ==> first_link(calls@, service as int, oper as int, k as int),
        r is None ==> no_link(calls@, service as int, oper as int),
{
    let mut k: usize = 0;
    while k < calls.len()
        invariant
            k <= calls.len(),
            forall|j: int| 0 <= j < k ==> !links_to(#[trigger] calls@[j], service as int, oper as int),
        decreases calls.len() - k,
    {
        if calls[k].to_oper == oper && calls[k].to_service == service {
            return Some(k);
        }
        k = k + 1;
    }
    None
}

impl<C: Copy> Operation<C> {
    /// A default-shown operation without links.
    pub fn new(oper: String, call_direction: CallDirection) -> (r: Self)
        ensures
            r.oper == oper,
            r.call_direction == call_direction,
            r.serv_oper_type == ServiceOperationType::Default,
            r.calls@.len() == 0,
    {
        Self { oper, call_direction, serv_oper_type: ServiceOperationType::Default, calls: Vec::new() }
    }

    /// Add the link `to`, or, when a link to the same operation exists, add the count of
    /// `to` to the count of the first such link with `merge`.
    pub fn upsert_link<F: Fn(C, C) -> C>(&mut self, to: CallDescriptor<C>, merge: F)
        requires
            forall|a: C, b: C| merge.requires((a, b)),
        ensures
            final(self).oper == old(self).oper,
            final(self).call_direction == old(self).call_direction,
            final(self).serv_oper_type == old(self).serv_oper_type,
            no_link(old(self).calls@, to.to_service as int, to.to_oper as int) ==> final(self).calls@
                == old(self).calls@.push(to),
            forall|k: int|
                first_link(old(self).calls@, to.to_service as int, to.to_oper as int, k) ==> {
                    &&& final(self).calls@.len() == old(self).calls@.len()
                    &&& forall|j: int|
                        0 <= j < old(self).calls@.len() && j != k ==> final(self).calls@[j] == old(
                            self,
                        ).calls@[j]
                    &&& final(self).calls@[k].to_service == old(self).calls@[k].to_service
                    &&& final(self).calls@[k].to_oper == old(self).calls@[k].to_oper
                    &&& final(self).calls@[k].line_type == old(self).calls@[k].line_type
                    &&& merge.ensures((old(self).calls@[k].count, to.count), final(self).calls@[k].count)
                },
    {
        match link_position(&self.calls, to.to_service, to.to_oper) {
            Some(idx) => {
                let mut c = self.calls[idx];
                c.count = merge(c.count, to.count);
                self.calls.set(idx, c);
            },
            None => self.calls.push(to),
        }
    }

    /// Set how the first link to `to` is drawn; such a link must exist.
    pub fn update_line_type(&mut self, to: Loc, line_type: LinkType)
        requires
            !no_link(old(self).calls@, to.service_idx as int, to.oper_idx as int),
        ensures
            final(self).oper == old(self).oper,
            final(self).call_direction == old(self).call_direction,
            final(self).serv_oper_type == old(self).serv_oper_type,
            forall|k: int|
                first_link(old(self).calls@, to.service_idx as int, to.oper_idx as int, k)
                    ==> final(self).calls@ == old(self).calls@.update(
                    k,
                    CallDescriptor { line_type, ..old(self).calls@[k] },
                ),
    {
        match link_position(&self.calls, to.service_idx, to.oper_idx) {
            Some(idx) => {
                let mut c = self.calls[idx];
                c.line_type = line_type;
                self.calls.set(idx, c);
            },
            None => {},
        }
    }

    /// Set how this operation is shown.
    pub fn update_serv_oper_type(&mut self, serv_oper_type: ServiceOperationType)
        ensures
            final(self).oper == old(self).oper,
            final(self).call_direction == old(self).call_direction,
            final(self).serv_oper_type == serv_oper_type,
            final(self).calls == old(self).calls,
    {
        self.serv_oper_type = serv_oper_type
    }
}

} // verus!
