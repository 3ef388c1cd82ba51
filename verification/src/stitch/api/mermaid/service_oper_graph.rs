//! The graph of services, their operations and the calls between them, from which the
//! service/operation diagrams are drawn.
pub mod call_descriptor;
pub mod link_type;
pub mod operation;

pub use link_type::LinkType;

use crate::stats::call_chain::{Call, CallDirection};
use crate::text::{join, views};
use call_descriptor::CallDescriptor;
use operation::{first_link, links_to, no_link, Operation};
use vstd::prelude::*;
use vstd::string::*;

verus! {

/// How a service/operation is shown in a diagram.
#[derive(Clone, Copy, Debug, PartialEq, Eq, Structural)]
pub enum ServiceOperationType {
    Default,
    Emphasized,
}

/// A position in the graph: a service and one of its operations.
#[derive(Clone, Copy, Debug, PartialEq, Eq, Structural)]
pub struct Loc {
    pub service_idx: usize,
    pub oper_idx: usize,
}

/// A service with its operations.
#[derive(Debug)]
pub struct Service<C> {
    pub service: String,
    pub serv_oper_type: ServiceOperationType,
    pub operations: Vec<Operation<C>>,
}

/// `op` is a freshly added operation for `call`: named after its method, shown by
/// default and without links.
pub open spec fn fresh_operation<C>(op: Operation<C>, method: Seq<char>, dir: CallDirection) -> bool {
    &&& op.oper@ == method
    &&& op.call_direction == dir
    &&& op.serv_oper_type == ServiceOperationType::Default
    &&& op.calls@.len() == 0
}

impl<C: Copy> Service<C> {
    /// A default-shown service without operations.
    pub fn new(service: String) -> (r: Self)
        ensures
            r.service == service,
            r.serv_oper_type == ServiceOperationType::Default,
            r.operations@.len() == 0,
    {
        Self { service, serv_oper_type: ServiceOperationType::Default, operations: Vec::new() }
    }

    /// Append the lines of this service as a subgraph of nodes, one per operation.
    pub fn mermaid_add_nodes(&self, diagram: &mut Vec<String>)
        ensures
            views(final(diagram)@) == views(old(diagram)@) + node_lines(*self),
    {
        let ghost d0 = views(diagram@);
        let mut head = String::new();
        head.append("\tsubgraph ");
        head.append(self.service.as_str());
        diagram.push(head);
        let mut i: usize = 0;
        assert(views(diagram@) =~= d0 + seq!["\tsubgraph "@ + self.service@]);
        while i < self.operations.len()
            invariant
                i <= self.operations@.len(),
                views(diagram@) == d0 + seq!["\tsubgraph "@ + self.service@] + Seq::new(
                    i as nat,
                    |j: int| op_node_line(self.service@, self.operations@[j].oper@),
                ),
            decreases self.operations.len() - i,
        {
            let label = self.get_operation_label(i);
            let mut line = String::new();
            line.append("\t\t");
            line.append(label.as_str());
            line.append("([");
            line.append(label.as_str());
            line.append("])");
            let ghost before = views(diagram@);
            let ghost l = line@;
            diagram.push(line);
            i = i + 1;
            assert(views(diagram@) =~= before.push(l));
            assert(views(diagram@) =~= d0 + seq!["\tsubgraph "@ + self.service@] + Seq::new(
                i as nat,
                |j: int| op_node_line(self.service@, self.operations@[j].oper@),
            ));
        }
        let ghost before_end = views(diagram@);
        diagram.push(String::from_str("\tend"));
        assert(views(diagram@) =~= before_end.push("\tend"@));
        if self.serv_oper_type == ServiceOperationType::Emphasized {
            let mut style = String::new();
            style.append("\tstyle ");
            style.append(self.service.as_str());
            style.append(" fill:#00f");
            let ghost before_style = views(diagram@);
            let ghost l = style@;
            diagram.push(style);
            assert(views(diagram@) =~= before_style.push(l));
        }
        assert(views(diagram@) =~= views(old(diagram)@) + node_lines(*self));
    }

    /// Append a line for every link leaving the operations of this service, with the
    /// count of the link shown by `show` and its target named as in `pog`.
    pub fn mermaid_add_links<G: Fn(C) -> String>(&self, diagram: &mut Vec<String>, pog: &ServiceOperGraph<C>, show: &G)
        requires
            forall|c: C| show.requires((c,)),
            forall|o: int, c: int|
                0 <= o < self.operations@.len() && 0 <= c < self.operations@[o].calls@.len() ==> valid_loc(
                    pog@,
                    (#[trigger] self.operations@[o].calls@[c]).to_service as int,
                    self.operations@[o].calls@[c].to_oper as int,
                ),
        ensures
            exists|labels: Seq<String>, lines: Seq<Seq<char>>|
                #![trigger links_drawn(pog@, op_links(self.service@, self.operations@), *show, labels, lines)]
                views(final(diagram)@) == views(old(diagram)@) + lines && links_drawn(
                    pog@,
                    op_links(self.service@, self.operations@),
                    *show,
                    labels,
                    lines,
                ),
    {
        let ghost d0 = views(diagram@);
        let ghost mut labels: Seq<String> = seq![];
        let ghost mut lines: Seq<Seq<char>> = seq![];
        let mut o: usize = 0;
        while o < self.operations.len()
            invariant
                o <= self.operations@.len(),
                forall|c: C| show.requires((c,)),
                forall|p: int, c: int|
                    0 <= p < self.operations@.len() && 0 <= c < self.operations@[p].calls@.len() ==> valid_loc(
                        pog@,
                        (#[trigger] self.operations@[p].calls@[c]).to_service as int,
                        self.operations@[p].calls@[c].to_oper as int,
                    ),
                views(diagram@) == d0 + lines,
                links_drawn(pog@, op_links(self.service@, self.operations@.take(o as int)), *show, labels, lines),
            decreases self.operations.len() - o,
        {
            let oper = &self.operations[o];
            let from = self.get_operation_label(o);
            let ghost prev_links = op_links(self.service@, self.operations@.take(o as int));
            let ghost base_labels = labels;
            let ghost base_lines = lines;
            let mut c: usize = 0;
            while c < oper.calls.len()
                invariant
                    c <= oper.calls@.len(),
                    o < self.operations@.len(),
                    *oper == self.operations@[o as int],
                    from@ == op_label(self.service@, oper.oper@),
                    forall|c: C| show.requires((c,)),
                    forall|p: int, c: int|
                        0 <= p < self.operations@.len() && 0 <= c < self.operations@[p].calls@.len() ==> valid_loc(
                            pog@,
                            (#[trigger] self.operations@[p].calls@[c]).to_service as int,
                            self.operations@[p].calls@[c].to_oper as int,
                        ),
                    prev_links == op_links(self.service@, self.operations@.take(o as int)),
                    links_drawn(pog@, prev_links, *show, base_labels, base_lines),
                    views(diagram@) == d0 + lines,
                    lines.len() == labels.len(),
                    links_drawn(
                        pog@,
                        prev_links + oper.calls@.take(c as int).map_values(
                            |d: CallDescriptor<C>| (from@, d),
                        ),
                        *show,
                        labels,
                        lines,
                    ),
                decreases oper.calls.len() - c,
            {
                let call = &oper.calls[c];
                assert(valid_loc(pog@, call.to_service as int, call.to_oper as int));
                let target = pog.get_target(call.to_service, call.to_oper);
                let count_label = show(call.count);
                let mut link = String::new();
                link.append("\t");
                link.append(from.as_str());
                if call.line_type == LinkType::Emphasized {
                    link.append(" ==>|");
                } else {
                    link.append(" -->|");
                }
                link.append(count_label.as_str());
                link.append("| ");
                link.append(target.as_str());
                let ghost before = views(diagram@);
                let ghost l = link@;
                proof {
                    let links_now = prev_links + oper.calls@.take(c as int).map_values(
                        |d: CallDescriptor<C>| (from@, d),
                    );
                    let links_next = prev_links + oper.calls@.take(c + 1).map_values(
                        |d: CallDescriptor<C>| (from@, d),
                    );
                    assert(links_next =~= links_now.push((from@, *call)));
                    labels = labels.push(count_label);
                    lines = lines.push(l);
                    assert(l == link_line(from@, call.line_type == LinkType::Emphasized, count_label@, target_label(pog@, *call)));
                    assert(links_drawn(pog@, links_next, *show, labels, lines));
                }
                diagram.push(link);
                c = c + 1;
                assert(views(diagram@) =~= before.push(l));
            }
            proof {
                assert(oper.calls@.take(oper.calls@.len() as int) =~= oper.calls@);
                assert(self.operations@.take(o + 1).drop_last() =~= self.operations@.take(o as int));
                assert(self.operations@.take(o + 1).last() == self.operations@[o as int]);
            }
            o = o + 1;
        }
        proof {
            assert(self.operations@.take(o as int) =~= self.operations@);
        }
    }

    /// "service/operation" of the operation at `oper_idx` of this service.
    pub fn get_operation_label(&self, oper_idx: usize) -> (r: String)
        requires
            oper_idx < self.operations@.len(),
        ensures
            r@ == op_label(self.service@, self.operations@[oper_idx as int].oper@),
    {
        let mut r = self.service.clone();
        r.append("/");
        r.append(self.operations[oper_idx].oper.as_str());
        proof {
            reveal_strlit("/");
        }
        r
    }

    /// Add an operation to the service and return its index.
    pub fn add_operation(&mut self, oper: String, call_direction: CallDirection) -> (r: usize)
        ensures
            r == old(self).operations@.len(),
            final(self).service == old(self).service,
            final(self).serv_oper_type == old(self).serv_oper_type,
            final(self).operations@.len() == old(self).operations@.len() + 1,
            final(self).operations@.drop_last() == old(self).operations@,
            fresh_operation(final(self).operations@.last(), oper@, call_direction),
    {
        let oper_idx = self.operations.len();
        self.operations.push(Operation::new(oper, call_direction));
        proof {
            assert(self.operations@.drop_last() =~= old(self).operations@);
        }
        oper_idx
    }
}

/// The graph of services and their operations; calls are links from an operation to
/// the operation it calls.
#[derive(Debug)]
pub struct ServiceOperGraph<C>(Vec<Service<C>>);

impl<C> View for ServiceOperGraph<C> {
    type V = Seq<Service<C>>;

    closed spec fn view(&self) -> Seq<Service<C>> {
        self.0@
    }
}

/// `l` is a position of `g`.
pub open spec fn valid_loc<C>(g: Seq<Service<C>>, s: int, o: int) -> bool {
    0 <= s < g.len() && 0 <= o < g[s].operations@.len()
}

/// The operation at `l` is `method` of the service `process`.
pub open spec fn names_at<C>(g: Seq<Service<C>>, l: Loc, process: Seq<char>, method: Seq<char>) -> bool {
    &&& valid_loc(g, l.service_idx as int, l.oper_idx as int)
    &&& g[l.service_idx as int].service@ == process
    &&& g[l.service_idx as int].operations@[l.oper_idx as int].oper@ == method
}

/// No service of `g` is named `process`.
pub open spec fn no_service<C>(g: Seq<Service<C>>, process: Seq<char>) -> bool {
    forall|s: int| 0 <= s < g.len() ==> (#[trigger] g[s]).service@ != process
}

/// The service at `s` has no operation named `method`.
pub open spec fn no_operation<C>(g: Seq<Service<C>>, s: int, method: Seq<char>) -> bool {
    forall|o: int|
        0 <= o < g[s].operations@.len() ==> (#[trigger] g[s].operations@[o]).oper@ != method
}

/// The graph is well formed: service names differ, operation names differ within a
/// service, and every link leads to a position of the graph.
pub open spec fn graph_wf<C>(g: Seq<Service<C>>) -> bool {
    &&& forall|s1: int, s2: int|
        0 <= s1 < s2 < g.len() ==> (#[trigger] g[s1]).service@ != (#[trigger] g[s2]).service@
    &&& forall|s: int, o1: int, o2: int|
        0 <= s < g.len() && 0 <= o1 < o2 < g[s].operations@.len() ==> (
        #[trigger] g[s].operations@[o1]).oper@ != (#[trigger] g[s].operations@[o2]).oper@
    &&& forall|s: int, o: int, c: int|
        valid_loc(g, s, o) && 0 <= c < g[s].operations@[o].calls@.len() ==> valid_loc(
            g,
            (#[trigger] g[s].operations@[o].calls@[c]).to_service as int,
            g[s].operations@[o].calls@[c].to_oper as int,
        )
}

/// `g2` is `g` with the position for (`process`, `method`) looked up or added, and `l`
/// is that position: unchanged when it was there; else the operation (with
/// `dir`) is added to the service of that name, or a new service holding it is added.
pub open spec fn located<C>(
    g: Seq<Service<C>>,
    process: Seq<char>,
    method: Seq<char>,
    dir: CallDirection,
    g2: Seq<Service<C>>,
    l: Loc,
) -> bool {
    &&& names_at(g2, l, process, method)
    &&& if l.service_idx < g.len() && l.oper_idx < g[l.service_idx as int].operations@.len() {
        g2 == g
    } else if l.service_idx < g.len() {
        &&& no_operation(g, l.service_idx as int, method)
        &&& g2.len() == g.len()
        &&& forall|s: int| 0 <= s < g.len() && s != l.service_idx ==> g2[s] == g[s]
        &&& g2[l.service_idx as int].service == g[l.service_idx as int].service
        &&& g2[l.service_idx as int].serv_oper_type == g[l.service_idx as int].serv_oper_type
        &&& g2[l.service_idx as int].operations@.drop_last() == g[l.service_idx as int].operations@
        &&& l.oper_idx == g[l.service_idx as int].operations@.len()
        &&& fresh_operation(g2[l.service_idx as int].operations@[l.oper_idx as int], method, dir)
    } else {
        &&& no_service(g, process)
        &&& l.service_idx == g.len()
        &&& l.oper_idx == 0
        &&& g2.len() == g.len() + 1
        &&& g2.drop_last() == g
        &&& g2.last().serv_oper_type == ServiceOperationType::Default
        &&& g2.last().operations@.len() == 1
        &&& fresh_operation(g2.last().operations@[0], method, dir)
    }
}

/// "service/operation", as a node of the diagram is labelled.
pub open spec fn op_label(service: Seq<char>, oper: Seq<char>) -> Seq<char> {
    service + seq!['/'] + oper
}

/// The node line of an operation: "\t\tservice/operation([service/operation])".
pub open spec fn op_node_line(service: Seq<char>, oper: Seq<char>) -> Seq<char> {
    "\t\t"@ + op_label(service, oper) + "(["@ + op_label(service, oper) + "])"@
}

/// The node lines of a service: a subgraph holding a node per operation, followed by a
/// style line when the service is emphasized.
pub open spec fn node_lines<C>(svc: Service<C>) -> Seq<Seq<char>> {
    let name = svc.service@;
    seq!["\tsubgraph "@ + name] + Seq::new(
        svc.operations@.len(),
        |i: int| op_node_line(name, svc.operations@[i].oper@),
    ) + seq!["\tend"@] + if svc.serv_oper_type == ServiceOperationType::Emphasized {
        seq!["\tstyle "@ + name + " fill:#00f"@]
    } else {
        seq![]
    }
}

/// The line of a link, drawn thick when emphasized, labelled with its count.
pub open spec fn link_line(from: Seq<char>, emphasized: bool, count: Seq<char>, target: Seq<char>) -> Seq<char> {
    "\t"@ + from + (if emphasized {
        " ==>|"@
    } else {
        " -->|"@
    }) + count + "| "@ + target
}

/// The links leaving the operations of a service, in order, each with the label of the
/// operation that it leaves.
pub open spec fn op_links<C>(service: Seq<char>, ops: Seq<Operation<C>>) -> Seq<(Seq<char>, CallDescriptor<C>)>
    decreases ops.len(),
{
    if ops.len() == 0 {
        seq![]
    } else {
        op_links(service, ops.drop_last()) + ops.last().calls@.map_values(
            |c: CallDescriptor<C>| (op_label(service, ops.last().oper@), c),
        )
    }
}

/// The label of the operation that the link `c` leads to.
pub open spec fn target_label<C>(g: Seq<Service<C>>, c: CallDescriptor<C>) -> Seq<char> {
    op_label(g[c.to_service as int].service@, g[c.to_service as int].operations@[c.to_oper as int].oper@)
}

/// `lines` draw `links`, the count of link `k` shown as `labels[k]`, a result of `show`.
pub open spec fn links_drawn<C, G: Fn(C) -> String>(
    g: Seq<Service<C>>,
    links: Seq<(Seq<char>, CallDescriptor<C>)>,
    show: G,
    labels: Seq<String>,
    lines: Seq<Seq<char>>,
) -> bool {
    &&& labels.len() == links.len()
    &&& lines.len() == links.len()
    &&& forall|k: int|
        0 <= k < links.len() ==> show.ensures((links[k].1.count,), #[trigger] labels[k]) && lines[k]
            == link_line(
            links[k].0,
            links[k].1.line_type == LinkType::Emphasized,
            labels[k]@,
            target_label(g, links[k].1),
        )
}

/// The node lines of all services, in order.
pub open spec fn all_node_lines<C>(g: Seq<Service<C>>) -> Seq<Seq<char>>
    decreases g.len(),
{
    if g.len() == 0 {
        seq![]
    } else {
        all_node_lines(g.drop_last()) + node_lines(g.last())
    }
}

/// The links of all services, in order.
pub open spec fn all_links<C>(g: Seq<Service<C>>) -> Seq<(Seq<char>, CallDescriptor<C>)>
    decreases g.len(),
{
    if g.len() == 0 {
        seq![]
    } else {
        all_links(g.drop_last()) + op_links(g.last().service@, g.last().operations@)
    }
}

/// In a well-formed graph a pair of names has only one position.
pub proof fn lemma_names_at_unique<C>(g: Seq<Service<C>>, l: Loc, process: Seq<char>, method: Seq<char>)
    requires
        graph_wf(g),
        names_at(g, l, process, method),
    ensures
        forall|l2: Loc| #[trigger] names_at(g, l2, process, method) ==> l2 == l,
{
    assert forall|l2: Loc| #[trigger] names_at(g, l2, process, method) implies l2 == l by {
        if l2.service_idx != l.service_idx {
            if l2.service_idx < l.service_idx {
                assert(g[l2.service_idx as int].service@ != g[l.service_idx as int].service@);
            } else {
                assert(g[l.service_idx as int].service@ != g[l2.service_idx as int].service@);
            }
        } else if l2.oper_idx != l.oper_idx {
            let s = l.service_idx as int;
            if l2.oper_idx < l.oper_idx {
                assert(g[s].operations@[l2.oper_idx as int].oper@ != g[s].operations@[l.oper_idx as int].oper@);
            } else {
                assert(g[s].operations@[l.oper_idx as int].oper@ != g[s].operations@[l2.oper_idx as int].oper@);
            }
        }
    }
}

/// `g2` is `g` with the first link from `from` to `to` drawn as `line_type`; where there
/// is no such link, a link to `to` drawn as `line_type` and carrying `new_count` is added.
pub open spec fn line_type_set<C>(
    g: Seq<Service<C>>,
    from: Loc,
    to: Loc,
    line_type: LinkType,
    new_count: C,
    g2: Seq<Service<C>>,
) -> bool {
    let s = from.service_idx as int;
    let o = from.oper_idx as int;
    let old_op = g[s].operations@[o];
    &&& valid_loc(g, s, o)
    &&& g2.len() == g.len()
    &&& forall|t: int| 0 <= t < g.len() && t != s ==> g2[t] == g[t]
    &&& g2[s].service == g[s].service
    &&& g2[s].serv_oper_type == g[s].serv_oper_type
    &&& g2[s].operations@.len() == g[s].operations@.len()
    &&& forall|p: int| 0 <= p < g[s].operations@.len() && p != o ==> g2[s].operations@[p] == g[s].operations@[p]
    &&& g2[s].operations@[o].oper == old_op.oper
    &&& g2[s].operations@[o].call_direction == old_op.call_direction
    &&& g2[s].operations@[o].serv_oper_type == old_op.serv_oper_type
    &&& forall|k: int|
        first_link(old_op.calls@, to.service_idx as int, to.oper_idx as int, k) ==> g2[s].operations@[o].calls@
            == old_op.calls@.update(k, CallDescriptor { line_type, ..old_op.calls@[k] })
    &&& no_link(old_op.calls@, to.service_idx as int, to.oper_idx as int) ==> g2[s].operations@[o].calls@
        == old_op.calls@.push(
        CallDescriptor { to_service: to.service_idx, to_oper: to.oper_idx, count: new_count, line_type },
    )
}

proof fn lemma_line_type_set_wf<C>(
    g: Seq<Service<C>>,
    from: Loc,
    to: Loc,
    line_type: LinkType,
    new_count: C,
    g2: Seq<Service<C>>,
)
    requires
        graph_wf(g),
        line_type_set(g, from, to, line_type, new_count, g2),
        valid_loc(g, to.service_idx as int, to.oper_idx as int),
    ensures
        graph_wf(g2),
{
    let s = from.service_idx as int;
    let o = from.oper_idx as int;
    let old_calls = g[s].operations@[o].calls@;
    if !no_link(old_calls, to.service_idx as int, to.oper_idx as int) {
        let k = choose|k: int| 0 <= k < old_calls.len() && links_to(#[trigger] old_calls[k], to.service_idx as int, to.oper_idx as int);
        let k0 = lemma_first_link_exists(old_calls, to.service_idx as int, to.oper_idx as int, k);
    }
    assert forall|t: int, p: int| valid_loc(g, t, p) implies valid_loc(g2, t, p) by {
        if t != s {
            assert(g2[t] == g[t]);
        }
    }
    assert forall|t: int, p: int, c: int|
        valid_loc(g2, t, p) && 0 <= c < g2[t].operations@[p].calls@.len() implies valid_loc(
        g2,
        (#[trigger] g2[t].operations@[p].calls@[c]).to_service as int,
        g2[t].operations@[p].calls@[c].to_oper as int,
    ) by {
        if t == s && p == o {
            if c < old_calls.len() {
                assert(g2[s].operations@[o].calls@[c].to_service == old_calls[c].to_service);
                assert(g2[s].operations@[o].calls@[c].to_oper == old_calls[c].to_oper);
                assert(valid_loc(g, old_calls[c].to_service as int, old_calls[c].to_oper as int));
            }
        } else if t == s {
            assert(g2[s].operations@[p] == g[s].operations@[p]);
            assert(valid_loc(g, t, p));
        } else {
            assert(g2[t] == g[t]);
            assert(valid_loc(g, t, p));
        }
    }
    assert forall|t: int, o1: int, o2: int|
        0 <= t < g2.len() && 0 <= o1 < o2 < g2[t].operations@.len() implies (
        #[trigger] g2[t].operations@[o1]).oper@ != (#[trigger] g2[t].operations@[o2]).oper@ by {
        if t == s {
            assert(g2[s].operations@[o1].oper == g[s].operations@[o1].oper);
            assert(g2[s].operations@[o2].oper == g[s].operations@[o2].oper);
        } else {
            assert(g2[t] == g[t]);
        }
    }
}

/// Where some link leads to (`service`, `oper`), there is a first one.
proof fn lemma_first_link_exists<C>(calls: Seq<CallDescriptor<C>>, service: int, oper: int, k: int) -> (k0: int)
    requires
        0 <= k < calls.len(),
        links_to(calls[k], service, oper),
    ensures
        first_link(calls, service, oper, k0),
    decreases k,
{
    if exists|j: int| 0 <= j < k && links_to(#[trigger] calls[j], service, oper) {
        let j = choose|j: int| 0 <= j < k && links_to(#[trigger] calls[j], service, oper);
        lemma_first_link_exists(calls, service, oper, j)
    } else {
        k
    }
}

/// Looking up a service/operation that a well-formed graph already holds changes
/// nothing and finds its one position: find-or-add is idempotent.
pub proof fn lemma_located_again<C>(
    g: Seq<Service<C>>,
    process: Seq<char>,
    method: Seq<char>,
    dir: CallDirection,
    l: Loc,
    g2: Seq<Service<C>>,
    l2: Loc,
)
    requires
        graph_wf(g),
        names_at(g, l, process, method),
        located(g, process, method, dir, g2, l2),
    ensures
        g2 == g,
        l2 == l,
{
    lemma_names_at_unique(g, l, process, method);
    if l2.service_idx < g.len() && l2.oper_idx < g[l2.service_idx as int].operations@.len() {
        assert(names_at(g, l2, process, method));
    } else if l2.service_idx < g.len() {
        assert(g[l2.service_idx as int].service@ == g2[l2.service_idx as int].service@);
        if l.service_idx != l2.service_idx {
            if l.service_idx < l2.service_idx {
                assert(g[l.service_idx as int].service@ != g[l2.service_idx as int].service@);
            } else {
                assert(g[l2.service_idx as int].service@ != g[l.service_idx as int].service@);
            }
        }
        assert(g[l.service_idx as int].operations@[l.oper_idx as int].oper@ == method);
    } else {
        assert(g[l.service_idx as int].service@ == process);
    }
}

/// A position found or added by `located` stays a position, with the same names.
proof fn lemma_located_keeps<C>(
    g: Seq<Service<C>>,
    process: Seq<char>,
    method: Seq<char>,
    dir: CallDirection,
    g2: Seq<Service<C>>,
    l: Loc,
    other: Loc,
)
    requires
        located(g, process, method, dir, g2, l),
        valid_loc(g, other.service_idx as int, other.oper_idx as int),
    ensures
        valid_loc(g2, other.service_idx as int, other.oper_idx as int),
        g2[other.service_idx as int].service == g[other.service_idx as int].service,
        g2[other.service_idx as int].operations@[other.oper_idx as int] == g[other.service_idx as int].operations@[other.oper_idx as int],
{
    if l.service_idx < g.len() && l.oper_idx < g[l.service_idx as int].operations@.len() {
    } else if l.service_idx < g.len() {
        if other.service_idx == l.service_idx {
            assert(g2[l.service_idx as int].operations@.drop_last()[other.oper_idx as int]
                == g2[l.service_idx as int].operations@[other.oper_idx as int]);
        }
    } else {
        assert(g2.drop_last()[other.service_idx as int] == g2[other.service_idx as int]);
    }
}

/// `g2` is `g` with a link carrying `count` from `from` to `to` added to the operation at
/// `from`; where that operation already links to `to`, its first such link instead
/// gets `count` added to its count by `merge`.
pub open spec fn link_added<C, F: Fn(C, C) -> C>(
    g: Seq<Service<C>>,
    from: Loc,
    to: Loc,
    count: C,
    merge: F,
    g2: Seq<Service<C>>,
) -> bool {
    let s = from.service_idx as int;
    let o = from.oper_idx as int;
    let old_op = g[s].operations@[o];
    let new_op = g2[s].operations@[o];
    let ts = to.service_idx as int;
    let to_o = to.oper_idx as int;
    &&& valid_loc(g, s, o)
    &&& g2.len() == g.len()
    &&& forall|t: int| 0 <= t < g.len() && t != s ==> g2[t] == g[t]
    &&& g2[s].service == g[s].service
    &&& g2[s].serv_oper_type == g[s].serv_oper_type
    &&& g2[s].operations@.len() == g[s].operations@.len()
    &&& forall|p: int| 0 <= p < g[s].operations@.len() && p != o ==> g2[s].operations@[p] == g[s].operations@[p]
    &&& new_op.oper == old_op.oper
    &&& new_op.call_direction == old_op.call_direction
    &&& new_op.serv_oper_type == old_op.serv_oper_type
    &&& no_link(old_op.calls@, ts, to_o) ==> new_op.calls@ == old_op.calls@.push(CallDescriptor::<C> {
        to_service: to.service_idx,
        to_oper: to.oper_idx,
        count,
        line_type: LinkType::Default,
    })
    &&& forall|k: int|
        first_link(old_op.calls@, ts, to_o, k) ==> {
            &&& new_op.calls@.len() == old_op.calls@.len()
            &&& forall|j: int| 0 <= j < old_op.calls@.len() && j != k ==> new_op.calls@[j] == old_op.calls@[j]
            &&& new_op.calls@[k].to_service == to.service_idx
            &&& new_op.calls@[k].to_oper == to.oper_idx
            &&& new_op.calls@[k].line_type == old_op.calls@[k].line_type
            &&& merge.ensures((old_op.calls@[k].count, count), new_op.calls@[k].count)
        }
}

impl<C: Copy> ServiceOperGraph<C> {
    /// An empty graph.
    pub fn new() -> (r: Self)
        ensures
            r@.len() == 0,
            graph_wf(r@),
    {
        ServiceOperGraph(Vec::new())
    }

    /// Add a new service holding the operation of `call`, and return its position.
    fn add_service_operation(&mut self, call: Call) -> (l: Loc)
        requires
            graph_wf(old(self)@),
            no_service(old(self)@, call.process@),
        ensures
            graph_wf(final(self)@),
            located(old(self)@, call.process@, call.method@, call.call_direction, final(self)@, l),
    {
        let ghost g = self@;
        let mut process = Service::new(call.process);
        let proc_idx = self.0.len();
        let oper_idx = process.add_operation(call.method, call.call_direction);
        self.0.push(process);
        proof {
            assert(self@.drop_last() =~= g);
            assert(self@[proc_idx as int].operations@.len() == 1);
        }
        Loc { service_idx: proc_idx, oper_idx }
    }

    /// The index of the service named `service_name`, if the graph holds one.
    pub fn get_service_idx(&self, service_name: &str) -> (r: Option<usize>)
        ensures
            r matches Some(s) ==> s < self@.len() && self@[s as int].service@ == service_name@ && forall|j: int|
                0 <= j < s ==> (#[trigger] self@[j]).service@ != service_name@,
            r is None ==> no_service(self@, service_name@),
    {
        let mut s: usize = 0;
        while s < self.0.len()
            invariant
                s <= self.0@.len(),
                forall|j: int| 0 <= j < s ==> (#[trigger] self.0@[j]).service@ != service_name@,
            decreases self.0.len() - s,
        {
            if crate::text::str_eq(self.0[s].service.as_str(), service_name) {
                return Some(s);
            }
            s = s + 1;
        }
        None
    }

    /// The index of the operation named `method` of the service at `s`, if it has one.
    fn get_oper_idx(&self, s: usize, method: &str) -> (r: Option<usize>)
        requires
            s < self@.len(),
        ensures
            r matches Some(o) ==> o < self@[s as int].operations@.len()
                && self@[s as int].operations@[o as int].oper@ == method@ && forall|j: int|
                0 <= j < o ==> (#[trigger] self@[s as int].operations@[j]).oper@ != method@,
            r is None ==> no_operation(self@, s as int, method@),
    {
        let ops = &self.0[s].operations;
        let mut o: usize = 0;
        while o < ops.len()
            invariant
                o <= ops@.len(),
                ops@ == self@[s as int].operations@,
                forall|j: int| 0 <= j < o ==> (#[trigger] ops@[j]).oper@ != method@,
            decreases ops.len() - o,
        {
            if crate::text::str_eq(ops[o].oper.as_str(), method) {
                return Some(o);
            }
            o = o + 1;
        }
        None
    }

    /// The position of the operation of `call`; when the graph does not hold it, it is
    /// added to the service of that name, or as a new service.
    pub fn get_create_service_operation_idx(&mut self, call: Call) -> (l: Loc)
        requires
            graph_wf(old(self)@),
        ensures
            graph_wf(final(self)@),
            located(old(self)@, call.process@, call.method@, call.call_direction, final(self)@, l),
    {
        let ghost g = self@;
        if let Some(proc_idx) = self.get_service_idx(call.process.as_str()) {
            match self.get_oper_idx(proc_idx, call.method.as_str()) {
                Some(oper_idx) => Loc { service_idx: proc_idx, oper_idx },
                None => {
                    let oper_idx = self.0[proc_idx].add_operation(call.method, call.call_direction);
                    proof {
                        let s = proc_idx as int;
                        assert forall|s2: int| 0 <= s2 < g.len() && s2 != s implies self@[s2] == g[s2] by {}
                        assert forall|t: int, o1: int, o2: int|
                            0 <= t < self@.len() && 0 <= o1 < o2 < self@[t].operations@.len() implies (
                            #[trigger] self@[t].operations@[o1]).oper@ != (
                            #[trigger] self@[t].operations@[o2]).oper@ by {
                            if t == s && o2 == oper_idx {
                                assert(self@[s].operations@[o1] == g[s].operations@[o1]);
                            } else if t == s {
                                assert(self@[s].operations@[o1] == g[s].operations@[o1]);
                                assert(self@[s].operations@[o2] == g[s].operations@[o2]);
                            }
                        }
                        assert forall|t: int, o: int, c: int|
                            valid_loc(self@, t, o) && 0 <= c < self@[t].operations@[o].calls@.len() implies valid_loc(
                            self@,
                            (#[trigger] self@[t].operations@[o].calls@[c]).to_service as int,
                            self@[t].operations@[o].calls@[c].to_oper as int,
                        ) by {
                            if t == s {
                                assert(o < oper_idx);
                                assert(self@[s].operations@[o] == g[s].operations@[o]);
                            }
                            let ts = self@[t].operations@[o].calls@[c].to_service as int;
                            let to = self@[t].operations@[o].calls@[c].to_oper as int;
                            assert(valid_loc(g, ts, to));
                            if ts == s {
                                assert(self@[s].operations@.len() == g[s].operations@.len() + 1);
                            }
                        }
                    }
                    Loc { service_idx: proc_idx, oper_idx }
                },
            }
        } else {
            self.add_service_operation(call)
        }
    }

    /// Add a link carrying `count` from the operation of `from` to that of `to`, adding
    /// either operation when the graph does not hold it yet; an existing link between
    /// the two gets `count` added to its count by `merge`. Between services this is a
    /// call sent by `from` and received by `to`; inside one service it is the pass-through
    /// from the received call to the call that the service sends.
    pub fn add_connection<F: Fn(C, C) -> C>(&mut self, from: Call, to: Call, count: C, merge: F)
        requires
            graph_wf(old(self)@),
            forall|a: C, b: C| merge.requires((a, b)),
        ensures
            graph_wf(final(self)@),
            exists|g1: Seq<Service<C>>, g2: Seq<Service<C>>, lf: Loc, lt: Loc|
                #![trigger located(old(self)@, from.process@, from.method@, from.call_direction, g1, lf), located(g1, to.process@, to.method@, to.call_direction, g2, lt)]
                {
                    &&& located(old(self)@, from.process@, from.method@, from.call_direction, g1, lf)
                    &&& located(g1, to.process@, to.method@, to.call_direction, g2, lt)
                    &&& link_added(g2, lf, lt, count, merge, final(self)@)
                },
    {
        let ghost g0 = self@;
        let ghost fp = from.process@;
        let ghost fm = from.method@;
        let ghost fd = from.call_direction;
        let from_loc = self.get_create_service_operation_idx(from);
        let ghost g1 = self@;
        let to_loc = self.get_create_service_operation_idx(to);
        let ghost g2 = self@;
        proof {
            lemma_located_keeps(g1, to.process@, to.method@, to.call_direction, g2, to_loc, from_loc);
        }
        let link = CallDescriptor::new(to_loc, count);
        self.0[from_loc.service_idx].operations[from_loc.oper_idx].upsert_link(link, merge);
        proof {
            let s = from_loc.service_idx as int;
            let o = from_loc.oper_idx as int;
            assert(link_added(g2, from_loc, to_loc, count, merge, self@));
            let old_calls = g2[s].operations@[o].calls@;
            let new_calls = self@[s].operations@[o].calls@;
            assert forall|t: int, p: int| valid_loc(g2, t, p) implies valid_loc(self@, t, p) by {
                if t == s {
                    assert(self@[s].operations@.len() == g2[s].operations@.len());
                } else {
                    assert(self@[t] == g2[t]);
                }
            }
            assert forall|t: int, p: int, c: int|
                valid_loc(self@, t, p) && 0 <= c < self@[t].operations@[p].calls@.len() implies valid_loc(
                self@,
                (#[trigger] self@[t].operations@[p].calls@[c]).to_service as int,
                self@[t].operations@[p].calls@[c].to_oper as int,
            ) by {
                if t == s && p == o {
                    if no_link(old_calls, link.to_service as int, link.to_oper as int) {
                        if c < old_calls.len() {
                            assert(new_calls[c] == old_calls[c]);
                            assert(valid_loc(g2, new_calls[c].to_service as int, new_calls[c].to_oper as int));
                        } else {
                            assert(new_calls[c] == link);
                        }
                    } else {
                        let k = choose|k: int| 0 <= k < old_calls.len() && links_to(#[trigger] old_calls[k], link.to_service as int, link.to_oper as int);
                        let k0 = lemma_first_link_exists(old_calls, link.to_service as int, link.to_oper as int, k);
                        if c != k0 {
                            assert(new_calls[c] == old_calls[c]);
                            assert(valid_loc(g2, new_calls[c].to_service as int, new_calls[c].to_oper as int));
                        }
                    }
                } else if t == s {
                    assert(self@[s].operations@[p] == g2[s].operations@[p]);
                    assert(valid_loc(g2, t, p));
                } else {
                    assert(self@[t] == g2[t]);
                    assert(valid_loc(g2, t, p));
                }
            }
        }
    }

    /// Set how the link from the operation of `from` to that of `to` is drawn. Either
    /// operation is added when the graph lacks it, and the link is created, carrying
    /// `new_count`, when it does not exist.
    pub fn update_line_type(&mut self, from: &Call, to: &Call, line_type: LinkType, new_count: C)
        requires
            graph_wf(old(self)@),
        ensures
            graph_wf(final(self)@),
            exists|g1: Seq<Service<C>>, g2: Seq<Service<C>>, lf: Loc, lt: Loc|
                #![trigger located(old(self)@, from.process@, from.method@, from.call_direction, g1, lf), located(g1, to.process@, to.method@, to.call_direction, g2, lt)]
                {
                    &&& located(old(self)@, from.process@, from.method@, from.call_direction, g1, lf)
                    &&& located(g1, to.process@, to.method@, to.call_direction, g2, lt)
                    &&& line_type_set(g2, lf, lt, line_type, new_count, final(self)@)
                },
    {
        let from_call = Call {
            process: from.process.clone(),
            method: from.method.clone(),
            call_direction: from.call_direction,
        };
        let to_call = Call { process: to.process.clone(), method: to.method.clone(), call_direction: to.call_direction };
        let f = self.get_create_service_operation_idx(from_call);
        let ghost g1 = self@;
        let t = self.get_create_service_operation_idx(to_call);
        let ghost g2 = self@;
        proof {
            lemma_located_keeps(g1, to.process@, to.method@, to.call_direction, g2, t, f);
        }
        match operation::link_position(&self.0[f.service_idx].operations[f.oper_idx].calls, t.service_idx, t.oper_idx) {
            Some(_) => {
                self.0[f.service_idx].operations[f.oper_idx].update_line_type(t, line_type);
            },
            None => {
                let link = CallDescriptor { to_service: t.service_idx, to_oper: t.oper_idx, count: new_count, line_type };
                self.0[f.service_idx].operations[f.oper_idx].calls.push(link);
            },
        }
        proof {
            assert(line_type_set(g2, f, t, line_type, new_count, self@));
            lemma_line_type_set_wf(g2, f, t, line_type, new_count, self@);
        }
    }

    /// Set how the operation of `call` is shown; the graph must hold it.
    pub fn update_service_operation_type(&mut self, call: &Call, serv_oper_type: ServiceOperationType)
        requires
            graph_wf(old(self)@),
            exists|l: Loc| names_at(old(self)@, l, call.process@, call.method@),
        ensures
            graph_wf(final(self)@),
            forall|l: Loc|
                names_at(old(self)@, l, call.process@, call.method@) ==> {
                    let s = l.service_idx as int;
                    let o = l.oper_idx as int;
                    &&& final(self)@.len() == old(self)@.len()
                    &&& forall|t: int| 0 <= t < old(self)@.len() && t != s ==> final(self)@[t] == old(self)@[t]
                    &&& final(self)@[s].service == old(self)@[s].service
                    &&& final(self)@[s].serv_oper_type == old(self)@[s].serv_oper_type
                    &&& final(self)@[s].operations@ == old(self)@[s].operations@.update(
                        o,
                        Operation { serv_oper_type, ..old(self)@[s].operations@[o] },
                    )
                },
    {
        let ghost g = self@;
        match self.get_service_operation_idx(call) {
            Some(loc) => {
                self.0[loc.service_idx].operations[loc.oper_idx].update_serv_oper_type(serv_oper_type);
                proof {
                    lemma_names_at_unique(g, loc, call.process@, call.method@);
                    let s = loc.service_idx as int;
                    let o = loc.oper_idx as int;
                    assert(self@[s].operations@ =~= g[s].operations@.update(
                        o,
                        Operation { serv_oper_type, ..g[s].operations@[o] },
                    ));
                    assert forall|t: int, p: int| valid_loc(g, t, p) implies valid_loc(self@, t, p) by {
                        if t != s {
                            assert(self@[t] == g[t]);
                        }
                    }
                    assert forall|t: int, p: int, c: int|
                        valid_loc(self@, t, p) && 0 <= c < self@[t].operations@[p].calls@.len() implies valid_loc(
                        self@,
                        (#[trigger] self@[t].operations@[p].calls@[c]).to_service as int,
                        self@[t].operations@[p].calls@[c].to_oper as int,
                    ) by {
                        if t == s {
                            assert(self@[s].operations@[p].calls == g[s].operations@[p].calls);
                        } else {
                            assert(self@[t] == g[t]);
                        }
                        assert(valid_loc(g, t, p));
                    }
                    assert forall|t: int, o1: int, o2: int|
                        0 <= t < self@.len() && 0 <= o1 < o2 < self@[t].operations@.len() implies (
                        #[trigger] self@[t].operations@[o1]).oper@ != (
                        #[trigger] self@[t].operations@[o2]).oper@ by {
                        if t == s {
                            assert(self@[s].operations@[o1].oper == g[s].operations@[o1].oper);
                            assert(self@[s].operations@[o2].oper == g[s].operations@[o2].oper);
                        } else {
                            assert(self@[t] == g[t]);
                        }
                    }
                }
            },
            None => {},
        }
    }

    /// "service/operation" of the operation at (`proc_idx`, `oper_idx`).
    pub fn get_target(&self, proc_idx: usize, oper_idx: usize) -> (r: String)
        requires
            valid_loc(self@, proc_idx as int, oper_idx as int),
        ensures
            r@ == op_label(self@[proc_idx as int].service@, self@[proc_idx as int].operations@[oper_idx as int].oper@),
    {
        self.0[proc_idx].get_operation_label(oper_idx)
    }

    /// The detailed Mermaid diagram: "graph LR", then the services as subgraphs of their
    /// operations, then a line per link labelled with its count as `show` writes it.
    pub fn mermaid_diagram_full<G: Fn(C) -> String>(&self, show: &G) -> (r: String)
        requires
            graph_wf(self@),
            forall|c: C| show.requires((c,)),
        ensures
            exists|labels: Seq<String>, lines: Seq<Seq<char>>|
                #![trigger links_drawn(self@, all_links(self@), *show, labels, lines)]
                links_drawn(self@, all_links(self@), *show, labels, lines) && r@ == join(
                    seq!["graph LR"@] + all_node_lines(self@) + lines,
                    "\n"@,
                ),
    {
        let mut diagram: Vec<String> = Vec::new();
        diagram.push(String::from_str("graph LR"));
        let mut i: usize = 0;
        assert(views(diagram@) =~= seq!["graph LR"@] + all_node_lines(self@.take(0)));
        while i < self.0.len()
            invariant
                i <= self@.len(),
                views(diagram@) == seq!["graph LR"@] + all_node_lines(self@.take(i as int)),
            decreases self.0.len() - i,
        {
            self.0[i].mermaid_add_nodes(&mut diagram);
            proof {
                assert(self@.take(i + 1).drop_last() =~= self@.take(i as int));
                assert(self@.take(i + 1).last() == self@[i as int]);
            }
            i = i + 1;
        }
        assert(self@.take(i as int) =~= self@);
        let ghost head = views(diagram@);
        let ghost mut labels: Seq<String> = seq![];
        let ghost mut lines: Seq<Seq<char>> = seq![];
        let mut j: usize = 0;
        assert(all_links(self@.take(0)) =~= Seq::<(Seq<char>, CallDescriptor<C>)>::empty());
        while j < self.0.len()
            invariant
                j <= self@.len(),
                graph_wf(self@),
                forall|c: C| show.requires((c,)),
                views(diagram@) == head + lines,
                links_drawn(self@, all_links(self@.take(j as int)), *show, labels, lines),
            decreases self.0.len() - j,
        {
            let ghost before = views(diagram@);
            self.0[j].mermaid_add_links(&mut diagram, self, show);
            proof {
                let (more_labels, more_lines) = choose|more_labels: Seq<String>, more_lines: Seq<Seq<char>>|
                    views(diagram@) == before + more_lines && links_drawn(
                        self@,
                        op_links(self@[j as int].service@, self@[j as int].operations@),
                        *show,
                        more_labels,
                        more_lines,
                    );
                assert(self@.take(j + 1).drop_last() =~= self@.take(j as int));
                assert(self@.take(j + 1).last() == self@[j as int]);
                let prev = all_links(self@.take(j as int));
                let next = all_links(self@.take(j + 1));
                assert(next == prev + op_links(self@[j as int].service@, self@[j as int].operations@));
                labels = labels + more_labels;
                lines = lines + more_lines;
                assert(links_drawn(self@, next, *show, labels, lines)) by {
                    assert forall|k: int| 0 <= k < next.len() implies show.ensures((next[k].1.count,), #[trigger] labels[k]) && lines[k]
                        == link_line(
                        next[k].0,
                        next[k].1.line_type == LinkType::Emphasized,
                        labels[k]@,
                        target_label(self@, next[k].1),
                    ) by {
                        if k >= prev.len() {
                            assert(more_labels[k - prev.len()] == labels[k]);
                        }
                    }
                }
                assert(views(diagram@) =~= head + lines);
            }
            j = j + 1;
        }
        assert(self@.take(j as int) =~= self@);
        let r = crate::text::join_strings(&diagram, "\n");
        assert(views(diagram@) =~= seq!["graph LR"@] + all_node_lines(self@) + lines);
        r
    }

    /// The Mermaid diagram of the graph; only the detailed diagram is drawn (the compact
    /// one, which would show the services alone, is not available).
    pub fn mermaid_diagram<G: Fn(C) -> String>(&self, compact: bool, show: &G) -> (r: String)
        requires
            !compact,
            graph_wf(self@),
            forall|c: C| show.requires((c,)),
        ensures
            exists|labels: Seq<String>, lines: Seq<Seq<char>>|
                #![trigger links_drawn(self@, all_links(self@), *show, labels, lines)]
                links_drawn(self@, all_links(self@), *show, labels, lines) && r@ == join(
                    seq!["graph LR"@] + all_node_lines(self@) + lines,
                    "\n"@,
                ),
    {
        self.mermaid_diagram_full(show)
    }

    /// The position of the operation of `call`, if the graph holds it.
    pub fn get_service_operation_idx(&self, call: &Call) -> (r: Option<Loc>)
        requires
            graph_wf(self@),
        ensures
            r matches Some(l) ==> names_at(self@, l, call.process@, call.method@),
            r is None ==> forall|l: Loc| !names_at(self@, l, call.process@, call.method@),
    {
        match self.get_service_idx(call.process.as_str()) {
            Some(proc_idx) => match self.get_oper_idx(proc_idx, call.method.as_str()) {
                Some(oper_idx) => Some(Loc { service_idx: proc_idx, oper_idx }),
                None => {
                    proof {
                        assert forall|l: Loc| !names_at(self@, l, call.process@, call.method@) by {
                            if names_at(self@, l, call.process@, call.method@) {
                                if l.service_idx != proc_idx {
                                    if l.service_idx < proc_idx {
                                        assert(self@[l.service_idx as int].service@ != self@[proc_idx as int].service@);
                                    } else {
                                        assert(self@[proc_idx as int].service@ != self@[l.service_idx as int].service@);
                                    }
                                } else {
                                    assert(self@[proc_idx as int].operations@[l.oper_idx as int].oper@ != call.method@);
                                }
                            }
                        }
                    }
                    None
                },
            },
            None => None,
        }
    }
}

} // verus!
