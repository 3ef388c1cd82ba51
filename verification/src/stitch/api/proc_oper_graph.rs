//! The graph of processes, their operations and the counted calls between them.
use crate::stats::call_chain::{Call, CallDirection};
use crate::text::str_eq;
use vstd::prelude::*;

verus! {

/// A link to the operation at (`to_proc`, `to_oper`) with the count of calls over it.
#[derive(Clone, Copy, Debug)]
pub struct CallDescriptor<C> {
    pub to_proc: usize,
    pub to_oper: usize,
    pub count: C,
}

/// An operation of a process and the links that leave it.
#[derive(Debug)]
pub struct Operation<C> {
    pub oper: String,
    pub call_direction: CallDirection,
    pub calls: Vec<CallDescriptor<C>>,
}

/// A process with its operations.
#[derive(Debug)]
pub struct Process<C> {
    pub proc: String,
    pub operations: Vec<Operation<C>>,
}

/// The graph of processes and their operations.
#[derive(Debug)]
pub struct ProcOperGraph<C>(Vec<Process<C>>);

impl<C> View for ProcOperGraph<C> {
    type V = Seq<Process<C>>;

    closed spec fn view(&self) -> Seq<Process<C>> {
        self.0@
    }
}

/// `s` is the first process of `g` named `name`.
pub open spec fn first_process<C>(g: Seq<Process<C>>, name: Seq<char>, s: int) -> bool {
    &&& 0 <= s < g.len()
    &&& g[s].proc@ == name
    &&& forall|j: int| 0 <= j < s ==> (#[trigger] g[j]).proc@ != name
}

/// `o` is the first operation of `ops` named `name`.
pub open spec fn first_oper<C>(ops: Seq<Operation<C>>, name: Seq<char>, o: int) -> bool {
    &&& 0 <= o < ops.len()
    &&& ops[o].oper@ == name
    &&& forall|j: int| 0 <= j < o ==> (#[trigger] ops[j]).oper@ != name
}

/// `op` is a new operation named `method` with direction `dir` and no links.
pub open spec fn new_oper<C>(op: Operation<C>, method: Seq<char>, dir: CallDirection) -> bool {
    op.oper@ == method && op.call_direction == dir && op.calls@.len() == 0
}

/// `g2` is `g` with the operation (`process`, `method`) looked up or added, and `d` leads
/// to it carrying `count`: an existing operation is found by its first matching
/// process and operation; a missing operation is added to the first process of that
/// name, and a missing process is added holding it.
pub open spec fn proc_located<C>(
    g: Seq<Process<C>>,
    process: Seq<char>,
    method: Seq<char>,
    dir: CallDirection,
    count: C,
    g2: Seq<Process<C>>,
    d: CallDescriptor<C>,
) -> bool {
    let s = d.to_proc as int;
    let o = d.to_oper as int;
    &&& d.count == count
    &&& if s < g.len() && o < g[s].operations@.len() {
        &&& first_process(g, process, s)
        &&& first_oper(g[s].operations@, method, o)
        &&& g2 == g
    } else if s < g.len() {
        &&& first_process(g, process, s)
        &&& forall|j: int| 0 <= j < g[s].operations@.len() ==> (#[trigger] g[s].operations@[j]).oper@ != method
        &&& o == g[s].operations@.len()
        &&& g2.len() == g.len()
        &&& forall|t: int| 0 <= t < g.len() && t != s ==> g2[t] == g[t]
        &&& g2[s].proc == g[s].proc
        &&& g2[s].operations@.drop_last() == g[s].operations@
        &&& g2[s].operations@.len() == o + 1
        &&& new_oper(g2[s].operations@[o], method, dir)
    } else {
        &&& forall|j: int| 0 <= j < g.len() ==> (#[trigger] g[j]).proc@ != process
        &&& s == g.len()
        &&& o == 0
        &&& g2.drop_last() == g
        &&& g2.len() == g.len() + 1
        &&& g2.last().proc@ == process
        &&& g2.last().operations@.len() == 1
        &&& new_oper(g2.last().operations@[0], method, dir)
    }
}

/// `g2` is `g` where the operation at `from` gets the link `to`; where that operation
/// already links to the same operation, the first such link instead gets the count of
/// `to` added by `merge`.
pub open spec fn proc_link_added<C, F: Fn(C, C) -> C>(
    g: Seq<Process<C>>,
    from: CallDescriptor<C>,
    to: CallDescriptor<C>,
    merge: F,
    g2: Seq<Process<C>>,
) -> bool {
    let s = from.to_proc as int;
    let o = from.to_oper as int;
    let old_calls = g[s].operations@[o].calls@;
    let new_calls = g2[s].operations@[o].calls@;
    let same = |c: CallDescriptor<C>| c.to_proc == to.to_proc && c.to_oper == to.to_oper;
    &&& 0 <= s < g.len()
    &&& 0 <= o < g[s].operations@.len()
    &&& g2.len() == g.len()
    &&& forall|t: int| 0 <= t < g.len() && t != s ==> g2[t] == g[t]
    &&& g2[s].proc == g[s].proc
    &&& g2[s].operations@.len() == g[s].operations@.len()
    &&& forall|p: int| 0 <= p < g[s].operations@.len() && p != o ==> g2[s].operations@[p] == g[s].operations@[p]
    &&& g2[s].operations@[o].oper == g[s].operations@[o].oper
    &&& g2[s].operations@[o].call_direction == g[s].operations@[o].call_direction
    &&& (forall|j: int| 0 <= j < old_calls.len() ==> !same(#[trigger] old_calls[j])) ==> new_calls == old_calls.push(to)
    &&& forall|k: int|
        0 <= k < old_calls.len() && same(old_calls[k]) && (forall|j: int| 0 <= j < k ==> !same(#[trigger] old_calls[j])) ==> {
            &&& new_calls.len() == old_calls.len()
            &&& forall|j: int| 0 <= j < old_calls.len() && j != k ==> new_calls[j] == old_calls[j]
            &&& new_calls[k].to_proc == to.to_proc
            &&& new_calls[k].to_oper == to.to_oper
            &&& merge.ensures((old_calls[k].count, to.count), new_calls[k].count)
        }
}

impl<C: Copy> Operation<C> {
    /// Add the link `to`, or, when a link to the same operation exists, add its count to
    /// the first such link with `merge`.
    pub fn upsert_link<F: Fn(C, C) -> C>(&mut self, to: CallDescriptor<C>, merge: F)
        requires
            forall|a: C, b: C| merge.requires((a, b)),
        ensures
            final(self).oper == old(self).oper,
            final(self).call_direction == old(self).call_direction,
            (forall|j: int|
                0 <= j < old(self).calls@.len() ==> !((#[trigger] old(self).calls@[j]).to_proc == to.to_proc
                    && old(self).calls@[j].to_oper == to.to_oper)) ==> final(self).calls@ == old(
                self,
            ).calls@.push(to),
            forall|k: int|
                0 <= k < old(self).calls@.len() && old(self).calls@[k].to_proc == to.to_proc
                    && old(self).calls@[k].to_oper == to.to_oper && (forall|j: int|
                    0 <= j < k ==> !((#[trigger] old(self).calls@[j]).to_proc == to.to_proc
                        && old(self).calls@[j].to_oper == to.to_oper)) ==> {
                    &&& final(self).calls@.len() == old(self).calls@.len()
                    &&& forall|j: int|
                        0 <= j < old(self).calls@.len() && j != k ==> final(self).calls@[j] == old(
                            self,
                        ).calls@[j]
                    &&& final(self).calls@[k].to_proc == to.to_proc
                    &&& final(self).calls@[k].to_oper == to.to_oper
                    &&& merge.ensures((old(self).calls@[k].count, to.count), final(self).calls@[k].count)
                },
    {
        let mut k: usize = 0;
        while k < self.calls.len()
            invariant
                k <= self.calls@.len(),
                self.calls@ == old(self).calls@,
                self.oper == old(self).oper,
                self.call_direction == old(self).call_direction,
                forall|a: C, b: C| merge.requires((a, b)),
                forall|j: int|
                    0 <= j < k ==> !((#[trigger] self.calls@[j]).to_proc == to.to_proc && self.calls@[j].to_oper
                        == to.to_oper),
            decreases self.calls.len() - k,
        {
            if self.calls[k].to_oper == to.to_oper && self.calls[k].to_proc == to.to_proc {
                let mut c = self.calls[k];
                c.count = merge(c.count, to.count);
                self.calls.set(k, c);
                return;
            }
            k = k + 1;
        }
        self.calls.push(to);
    }
}

impl<C: Copy> Process<C> {
    /// Add an operation to the process and return its index.
    pub fn push_oper(&mut self, oper: String, call_direction: CallDirection) -> (r: usize)
        ensures
            r == old(self).operations@.len(),
            final(self).proc == old(self).proc,
            final(self).operations@.drop_last() == old(self).operations@,
            final(self).operations@.len() == old(self).operations@.len() + 1,
            new_oper(final(self).operations@.last(), oper@, call_direction),
    {
        let oper_idx = self.operations.len();
        self.operations.push(Operation { oper, call_direction, calls: Vec::new() });
        assert(self.operations@.drop_last() =~= old(self).operations@);
        oper_idx
    }
}

impl<C: Copy> ProcOperGraph<C> {
    /// An empty graph.
    pub fn new() -> (r: Self)
        ensures
            r@.len() == 0,
    {
        ProcOperGraph(Vec::new())
    }

    /// Add a new process holding the operation of `call`, and return a descriptor
    /// leading to it that carries `count`.
    fn push_proc_oper(&mut self, call: Call, count: C) -> (d: CallDescriptor<C>)
        requires
            forall|j: int| 0 <= j < old(self)@.len() ==> (#[trigger] old(self)@[j]).proc@ != call.process@,
        ensures
            proc_located(old(self)@, call.process@, call.method@, call.call_direction, count, final(self)@, d),
    {
        let mut process = Process { proc: call.process, operations: Vec::new() };
        let to_proc = self.0.len();
        let to_oper = process.push_oper(call.method, call.call_direction);
        self.0.push(process);
        assert(self@.drop_last() =~= old(self)@);
        CallDescriptor { to_proc, to_oper, count }
    }

    /// A descriptor leading to the operation of `call` and carrying `count`; the
    /// operation, and its process, are added when the graph lacks them.
    pub fn get_proc_oper_idx(&mut self, call: Call, count: C) -> (d: CallDescriptor<C>)
        ensures
            proc_located(old(self)@, call.process@, call.method@, call.call_direction, count, final(self)@, d),
    {
        let mut to_proc: usize = 0;
        while to_proc < self.0.len()
            invariant
                to_proc <= self@.len(),
                self@ == old(self)@,
                forall|j: int| 0 <= j < to_proc ==> (#[trigger] self@[j]).proc@ != call.process@,
            decreases self.0.len() - to_proc,
        {
            if str_eq(self.0[to_proc].proc.as_str(), call.process.as_str()) {
                let mut to_oper: usize = 0;
                while to_oper < self.0[to_proc].operations.len()
                    invariant
                        to_proc < self@.len(),
                        to_oper <= self@[to_proc as int].operations@.len(),
                        self@ == old(self)@,
                        first_process(self@, call.process@, to_proc as int),
                        forall|j: int|
                            0 <= j < to_oper ==> (#[trigger] self@[to_proc as int].operations@[j]).oper@
                                != call.method@,
                    decreases self@[to_proc as int].operations@.len() - to_oper,
                {
                    if str_eq(self.0[to_proc].operations[to_oper].oper.as_str(), call.method.as_str()) {
                        return CallDescriptor { to_proc, to_oper, count };
                    }
                    to_oper = to_oper + 1;
                }
                let ghost g = self@;
                let to_oper = self.0[to_proc].push_oper(call.method, call.call_direction);
                proof {
                    assert forall|t: int| 0 <= t < g.len() && t != to_proc implies self@[t] == g[t] by {}
                }
                return CallDescriptor { to_proc, to_oper, count };
            }
            to_proc = to_proc + 1;
        }
        self.push_proc_oper(call, count)
    }

    /// Add a link carrying `count` from the operation of `from` to that of `to`, adding
    /// the operations when the graph lacks them; an existing link between the two gets
    /// `count` added by `merge`.
    pub fn add<F: Fn(C, C) -> C>(&mut self, from: Call, to: Call, count: C, merge: F)
        requires
            forall|a: C, b: C| merge.requires((a, b)),
        ensures
            exists|g1: Seq<Process<C>>, g2: Seq<Process<C>>, df: CallDescriptor<C>, dt: CallDescriptor<C>|
                #![trigger proc_located(old(self)@, from.process@, from.method@, from.call_direction, count, g1, df), proc_located(g1, to.process@, to.method@, to.call_direction, count, g2, dt)]
                {
                    &&& proc_located(old(self)@, from.process@, from.method@, from.call_direction, count, g1, df)
                    &&& proc_located(g1, to.process@, to.method@, to.call_direction, count, g2, dt)
                    &&& proc_link_added(g2, df, dt, merge, final(self)@)
                },
    {
        let from = self.get_proc_oper_idx(from, count);
        let ghost g1 = self@;
        let to = self.get_proc_oper_idx(to, count);
        let ghost g2 = self@;
        proof {
            let s = from.to_proc as int;
            let o = from.to_oper as int;
            assert(0 <= s < g2.len() && 0 <= o < g2[s].operations@.len()) by {
                if to.to_proc as int == g1.len() {
                    assert(g2.drop_last()[s] == g2[s]);
                } else if (to.to_proc as int) < g1.len() && to.to_oper as int == g1[to.to_proc as int].operations@.len() && to.to_proc == from.to_proc {
                    assert(g2[s].operations@.drop_last()[o] == g2[s].operations@[o]);
                }
            }
        }
        self.0[from.to_proc].operations[from.to_oper].upsert_link(to, merge);
        assert(proc_link_added(g2, from, to, merge, self@));
    }
}

} // verus!
