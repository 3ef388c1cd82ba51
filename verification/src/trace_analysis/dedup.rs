//! Deduplication of traces by their trace id: of traces that share an id only the first
//! is kept.
use crate::text::str_eq;
use crate::trace::Trace;
use vstd::prelude::*;

verus! {

/// The trace ids of `traces`.
pub open spec fn trace_ids(traces: Seq<Trace>) -> Seq<Seq<char>> {
    traces.map_values(|t: Trace| t.trace_id@)
}

/// The traces of `traces` whose id did not occur before them, in order.
pub open spec fn first_occurrences(traces: Seq<Trace>) -> Seq<Trace>
    decreases traces.len(),
{
    if traces.len() == 0 {
        seq![]
    } else {
        let kept = first_occurrences(traces.drop_last());
        if trace_ids(kept).contains(traces.last().trace_id@) {
            kept
        } else {
            kept.push(traces.last())
        }
    }
}

/// The ids of the traces of `traces` whose id did occur before them, in order.
pub open spec fn repeated_ids(traces: Seq<Trace>) -> Seq<Seq<char>>
    decreases traces.len(),
{
    if traces.len() == 0 {
        seq![]
    } else {
        let kept = first_occurrences(traces.drop_last());
        let rest = repeated_ids(traces.drop_last());
        if trace_ids(kept).contains(traces.last().trace_id@) {
            rest.push(traces.last().trace_id@)
        } else {
            rest
        }
    }
}

/// After deduplication no two traces share a trace id.
pub proof fn lemma_dedup_distinct(traces: Seq<Trace>)
    ensures
        forall|i: int, j: int|
            0 <= i < j < first_occurrences(traces).len() ==> (#[trigger] first_occurrences(traces)[i]).trace_id@
                != (#[trigger] first_occurrences(traces)[j]).trace_id@,
    decreases traces.len(),
{
    if traces.len() > 0 {
        lemma_dedup_distinct(traces.drop_last());
        let kept = first_occurrences(traces.drop_last());
        if !trace_ids(kept).contains(traces.last().trace_id@) {
            let r = first_occurrences(traces);
            assert forall|i: int, j: int| 0 <= i < j < r.len() implies (#[trigger] r[i]).trace_id@
                != (#[trigger] r[j]).trace_id@ by {
                if j == kept.len() {
                    assert(trace_ids(kept)[i] == kept[i].trace_id@);
                } else {
                    assert(r[i] == kept[i] && r[j] == kept[j]);
                }
            }
        }
    }
}

/// Deduplication keeps every trace id: each id of the input is the id of a kept trace,
/// and each kept trace is one of the input.
pub proof fn lemma_dedup_keeps_ids(traces: Seq<Trace>)
    ensures
        forall|i: int| 0 <= i < traces.len() ==> trace_ids(first_occurrences(traces)).contains(#[trigger] traces[i].trace_id@),
        forall|i: int| 0 <= i < first_occurrences(traces).len() ==> traces.contains(#[trigger] first_occurrences(traces)[i]),
    decreases traces.len(),
{
    if traces.len() > 0 {
        let prev = traces.drop_last();
        lemma_dedup_keeps_ids(prev);
        let kept = first_occurrences(prev);
        let r = first_occurrences(traces);
        assert forall|i: int| 0 <= i < traces.len() implies trace_ids(r).contains(#[trigger] traces[i].trace_id@) by {
            if i < prev.len() {
                assert(prev[i] == traces[i]);
                let k = choose|k: int| 0 <= k < trace_ids(kept).len() && trace_ids(kept)[k] == prev[i].trace_id@;
                assert(trace_ids(r)[k] == trace_ids(kept)[k]);
            } else if !trace_ids(kept).contains(traces.last().trace_id@) {
                assert(trace_ids(r)[kept.len() as int] == traces.last().trace_id@);
            }
        }
        assert forall|i: int| 0 <= i < r.len() implies traces.contains(#[trigger] r[i]) by {
            if i < kept.len() {
                assert(r[i] == kept[i]);
                let k = choose|k: int| 0 <= k < prev.len() && prev[k] == kept[i];
                assert(traces[k] == prev[k]);
            } else {
                assert(traces[traces.len() - 1] == r[i]);
            }
        }
    }
}

/// Every trace is either kept or has its id listed as removed.
pub proof fn lemma_dedup_accounts_for_all(traces: Seq<Trace>)
    ensures
        first_occurrences(traces).len() + repeated_ids(traces).len() == traces.len(),
    decreases traces.len(),
{
    if traces.len() > 0 {
        lemma_dedup_accounts_for_all(traces.drop_last());
    }
}

/// Whether the id `id` is one of the ids of `kept`.
fn holds_id(kept: &Vec<Trace>, id: &str) -> (r: bool)
    ensures
        r == trace_ids(kept@).contains(id@),
{
    let mut i: usize = 0;
    while i < kept.len()
        invariant
            i <= kept.len(),
            forall|j: int| 0 <= j < i ==> kept@[j].trace_id@ != id@,
        decreases kept.len() - i,
    {
        if str_eq(kept[i].trace_id.as_str(), id) {
            assert(trace_ids(kept@)[i as int] == id@);
            return true;
        }
        i = i + 1;
    }
    proof {
        if trace_ids(kept@).contains(id@) {
            let j = choose|j: int| 0 <= j < trace_ids(kept@).len() && trace_ids(kept@)[j] == id@;
            assert(kept@[j].trace_id@ == id@);
        }
    }
    false
}

/// Remove the traces whose trace id occurred before; returns the kept traces, in their
/// order, and the ids of the removed ones, in the order of the removed traces.
pub fn deduplicate(traces: Vec<Trace>) -> (r: (Vec<Trace>, Vec<String>))
    ensures
        r.0@ == first_occurrences(traces@),
        crate::text::views(r.1@) == repeated_ids(traces@),
{
    let ghost all = traces@;
    let mut rest = traces;
    let mut kept: Vec<Trace> = Vec::new();
    let mut duplicated_ids: Vec<String> = Vec::new();
    let ghost mut k: int = 0;
    assert(all.take(0) =~= Seq::<Trace>::empty());
    assert(all.skip(0) =~= all);
    assert(crate::text::views(duplicated_ids@) =~= Seq::<Seq<char>>::empty());
    while rest.len() > 0
        invariant
            0 <= k <= all.len(),
            rest@ == all.skip(k),
            kept@ == first_occurrences(all.take(k)),
            crate::text::views(duplicated_ids@) == repeated_ids(all.take(k)),
        decreases rest.len(),
    {
        let ghost before = rest@;
        let tr = rest.remove(0);
        proof {
            assert(before[0] == all[k]);
            assert(rest@ =~= all.skip(k + 1));
            assert(all.take(k + 1).drop_last() =~= all.take(k));
            assert(all.take(k + 1).last() == all[k]);
        }
        let ghost dups_before = crate::text::views(duplicated_ids@);
        if holds_id(&kept, tr.trace_id.as_str()) {
            duplicated_ids.push(tr.trace_id.clone());
            assert(crate::text::views(duplicated_ids@) =~= dups_before.push(tr.trace_id@));
        } else {
            kept.push(tr);
        }
        proof {
            k = k + 1;
        }
    }
    assert(all.take(k) =~= all);
    (kept, duplicated_ids)
}

} // verus!
