//! Grouping the traces per end-point, each group split into complete traces and
//! incomplete ones (traces that miss spans), ahead of the statistics per end-point and
//! the correction of incomplete call-chains.
use crate::text::str_eq;
use crate::traceext::{endpoint_key, TraceExt};
use vstd::multiset::Multiset;
use vstd::prelude::*;

verus! {

/// A trace is complete when no span that it refers to is missing.
pub open spec fn is_complete(t: TraceExt) -> bool {
    t.trace.missing_span_ids@.len() == 0
}

/// The end-point key of a trace.
pub open spec fn key_of(t: TraceExt) -> Seq<char> {
    endpoint_key(t.trace.root_call@)
}

/// The groups as (key, complete traces, incomplete traces).
pub open spec fn group_views(r: Seq<(String, Vec<TraceExt>, Vec<TraceExt>)>) -> Seq<(Seq<char>, Seq<TraceExt>, Seq<TraceExt>)> {
    r.map_values(|g: (String, Vec<TraceExt>, Vec<TraceExt>)| (g.0@, g.1@, g.2@))
}

/// All traces held by the groups.
pub open spec fn group_bag(gs: Seq<(Seq<char>, Seq<TraceExt>, Seq<TraceExt>)>) -> Multiset<TraceExt>
    decreases gs.len(),
{
    if gs.len() == 0 {
        Multiset::empty()
    } else {
        group_bag(gs.drop_last()).add(gs.last().1.to_multiset()).add(gs.last().2.to_multiset())
    }
}

/// The number of incomplete traces among `ts`.
pub open spec fn num_incomplete(ts: Seq<TraceExt>) -> nat
    decreases ts.len(),
{
    if ts.len() == 0 {
        0
    } else {
        num_incomplete(ts.drop_last()) + if is_complete(ts.last()) {
            0nat
        } else {
            1nat
        }
    }
}

/// The position of the first group with key `key`, or the number of groups when there is none.
pub open spec fn group_index(gs: Seq<(Seq<char>, Seq<TraceExt>, Seq<TraceExt>)>, key: Seq<char>) -> int
    decreases gs.len(),
{
    if gs.len() == 0 {
        0
    } else if gs[0].0 == key {
        0
    } else {
        1 + group_index(gs.drop_first(), key)
    }
}

/// The groups of `ts`, built trace by trace: a trace joins the group of its key (the
/// complete list or the incomplete one, at the end), or starts a new group at the end.
pub open spec fn grouping(ts: Seq<TraceExt>) -> Seq<(Seq<char>, Seq<TraceExt>, Seq<TraceExt>)>
    decreases ts.len(),
{
    if ts.len() == 0 {
        seq![]
    } else {
        let gs = grouping(ts.drop_last());
        let t = ts.last();
        let i = group_index(gs, key_of(t));
        if i < gs.len() {
            if is_complete(t) {
                gs.update(i, (gs[i].0, gs[i].1.push(t), gs[i].2))
            } else {
                gs.update(i, (gs[i].0, gs[i].1, gs[i].2.push(t)))
            }
        } else if is_complete(t) {
            gs.push((key_of(t), seq![t], seq![]))
        } else {
            gs.push((key_of(t), seq![], seq![t]))
        }
    }
}

/// The first group with `key` is the first after those before `g`, none of which has it.
proof fn lemma_group_index(gs: Seq<(Seq<char>, Seq<TraceExt>, Seq<TraceExt>)>, key: Seq<char>, g: int)
    requires
        0 <= g <= gs.len(),
        forall|j: int| 0 <= j < g ==> (#[trigger] gs[j]).0 != key,
        g == gs.len() || gs[g].0 == key,
    ensures
        group_index(gs, key) == g,
    decreases gs.len(),
{
    if gs.len() > 0 && g > 0 {
        assert forall|j: int| 0 <= j < g - 1 implies (#[trigger] gs.drop_first()[j]).0 != key by {
            assert(gs.drop_first()[j] == gs[j + 1]);
        }
        assert(gs[0].0 != key);
        lemma_group_index(gs.drop_first(), key, g - 1);
    }
}

/// The traces of `ts` that miss some span, in order.
pub open spec fn traces_missing_spans(ts: Seq<TraceExt>) -> Seq<TraceExt> {
    ts.filter(|t: TraceExt| t.trace.missing_span_ids@.len() > 0)
}

/// The number of traces in the incomplete lists of all groups.
pub open spec fn incomplete_total(gs: Seq<(Seq<char>, Seq<TraceExt>, Seq<TraceExt>)>) -> nat
    decreases gs.len(),
{
    if gs.len() == 0 {
        0
    } else {
        incomplete_total(gs.drop_last()) + gs.last().2.len()
    }
}

/// Replacing one group changes the total by the change in its incomplete list.
proof fn lemma_incomplete_total_update(
    gs: Seq<(Seq<char>, Seq<TraceExt>, Seq<TraceExt>)>,
    g: int,
    x: (Seq<char>, Seq<TraceExt>, Seq<TraceExt>),
)
    requires
        0 <= g < gs.len(),
    ensures
        incomplete_total(gs.update(g, x)) + gs[g].2.len() == incomplete_total(gs) + x.2.len(),
    decreases gs.len(),
{
    let u = gs.update(g, x);
    if g == gs.len() - 1 {
        assert(u.drop_last() =~= gs.drop_last());
    } else {
        lemma_incomplete_total_update(gs.drop_last(), g, x);
        assert(u.drop_last() =~= gs.drop_last().update(g, x));
    }
}

/// The position of the first group with a key lies among the groups or just after them.
proof fn lemma_group_index_range(gs: Seq<(Seq<char>, Seq<TraceExt>, Seq<TraceExt>)>, key: Seq<char>)
    ensures
        0 <= group_index(gs, key) <= gs.len(),
    decreases gs.len(),
{
    if gs.len() > 0 {
        lemma_group_index_range(gs.drop_first(), key);
    }
}

/// The incomplete count is the number of traces that miss some span.
pub proof fn law_num_incomplete_counts_missing(ts: Seq<TraceExt>)
    ensures
        num_incomplete(ts) == traces_missing_spans(ts).len(),
    decreases ts.len(),
{
    reveal_with_fuel(Seq::filter, 1);
    if ts.len() > 0 {
        law_num_incomplete_counts_missing(ts.drop_last());
    }
}

/// Grouping puts every trace that misses some span, and no other, in an incomplete list:
/// the incomplete lists together hold as many traces as miss spans.
pub proof fn law_grouping_incomplete_total(ts: Seq<TraceExt>)
    ensures
        incomplete_total(grouping(ts)) == traces_missing_spans(ts).len(),
    decreases ts.len(),
{
    reveal_with_fuel(Seq::filter, 1);
    if ts.len() > 0 {
        law_grouping_incomplete_total(ts.drop_last());
        let gs = grouping(ts.drop_last());
        let t = ts.last();
        let i = group_index(gs, key_of(t));
        lemma_group_index_range(gs, key_of(t));
        if i < gs.len() {
            if is_complete(t) {
                lemma_incomplete_total_update(gs, i, (gs[i].0, gs[i].1.push(t), gs[i].2));
            } else {
                lemma_incomplete_total_update(gs, i, (gs[i].0, gs[i].1, gs[i].2.push(t)));
            }
        } else {
            let x = if is_complete(t) {
                (key_of(t), seq![t], Seq::<TraceExt>::empty())
            } else {
                (key_of(t), Seq::<TraceExt>::empty(), seq![t])
            };
            assert(gs.push(x).drop_last() =~= gs);
        }
    }
}

/// Every group holds only traces of its key, complete ones in its first list and
/// incomplete ones in its second, no group is empty, and no two groups share a key.
pub open spec fn well_grouped(gs: Seq<(Seq<char>, Seq<TraceExt>, Seq<TraceExt>)>) -> bool {
    &&& forall|g: int| 0 <= g < gs.len() ==> (#[trigger] gs[g]).1.len() + gs[g].2.len() > 0
    &&& forall|g: int, j: int|
        0 <= g < gs.len() && 0 <= j < gs[g].1.len() ==> key_of(#[trigger] gs[g].1[j]) == gs[g].0 && is_complete(
            gs[g].1[j],
        )
    &&& forall|g: int, j: int|
        0 <= g < gs.len() && 0 <= j < gs[g].2.len() ==> key_of(#[trigger] gs[g].2[j]) == gs[g].0 && !is_complete(
            gs[g].2[j],
        )
    &&& forall|g1: int, g2: int| 0 <= g1 < g2 < gs.len() ==> (#[trigger] gs[g1]).0 != (#[trigger] gs[g2]).0
}

/// Adding a trace to one list of a group adds it to the traces held.
proof fn lemma_bag_add_to_group(
    gs: Seq<(Seq<char>, Seq<TraceExt>, Seq<TraceExt>)>,
    g: int,
    x: (Seq<char>, Seq<TraceExt>, Seq<TraceExt>),
    t: TraceExt,
)
    requires
        0 <= g < gs.len(),
        (x.1 == gs[g].1.push(t) && x.2 == gs[g].2) || (x.1 == gs[g].1 && x.2 == gs[g].2.push(t)),
    ensures
        group_bag(gs.update(g, x)) =~= group_bag(gs).insert(t),
    decreases gs.len(),
{
    broadcast use vstd::multiset::group_multiset_axioms;
    broadcast use vstd::seq_lib::group_to_multiset_ensures;

    let u = gs.update(g, x);
    if g == gs.len() - 1 {
        assert(u.drop_last() =~= gs.drop_last());
        assert(u.last() == x);
    } else {
        lemma_bag_add_to_group(gs.drop_last(), g, x, t);
        assert(u.drop_last() =~= gs.drop_last().update(g, x));
        assert(u.last() == gs.last());
    }
}

/// A new group of one trace adds that trace to the traces held.
proof fn lemma_bag_new_group(
    gs: Seq<(Seq<char>, Seq<TraceExt>, Seq<TraceExt>)>,
    x: (Seq<char>, Seq<TraceExt>, Seq<TraceExt>),
    t: TraceExt,
)
    requires
        (x.1 == seq![t] && x.2 == Seq::<TraceExt>::empty()) || (x.1 == Seq::<TraceExt>::empty() && x.2 == seq![t]),
    ensures
        group_bag(gs.push(x)) =~= group_bag(gs).insert(t),
{
    broadcast use vstd::multiset::group_multiset_axioms;
    broadcast use vstd::seq_lib::group_to_multiset_ensures;

    assert(gs.push(x).drop_last() =~= gs);
    assert(seq![t] =~= Seq::<TraceExt>::empty().push(t));
    assert(Seq::<TraceExt>::empty().to_multiset() =~= Multiset::empty()) by {
        vstd::seq_lib::to_multiset_len(Seq::<TraceExt>::empty());
        vstd::multiset::lemma_multiset_empty_len(Seq::<TraceExt>::empty().to_multiset());
    }
}

/// Group the traces by their end-point key; in every group the complete traces come in
/// the first list and the incomplete ones in the second, both in the order of `traces`,
/// and the groups come in the order in which their keys first occur. Also returns the
/// number of incomplete traces.
pub fn group_by_endpoint(traces: Vec<TraceExt>) -> (r: (Vec<(String, Vec<TraceExt>, Vec<TraceExt>)>, usize))
    ensures
        group_bag(group_views(r.0@)) == traces@.to_multiset(),
        well_grouped(group_views(r.0@)),
        group_views(r.0@) == grouping(traces@),
        r.1 == num_incomplete(traces@),
        r.1 == traces_missing_spans(traces@).len(),
        r.1 == incomplete_total(group_views(r.0@)),
{
    let ghost all = traces@;
    let n = traces.len();
    let mut rest = traces;
    let mut groups: Vec<(String, Vec<TraceExt>, Vec<TraceExt>)> = Vec::new();
    let mut num_incomplete_traces: usize = 0;
    let mut k: usize = 0;
    proof {
        assert(all.take(0) =~= Seq::<TraceExt>::empty());
        assert(grouping(all.take(0)) =~= Seq::<(Seq<char>, Seq<TraceExt>, Seq<TraceExt>)>::empty());
        assert(all.skip(0) =~= all);
        assert(group_views(groups@) =~= Seq::<(Seq<char>, Seq<TraceExt>, Seq<TraceExt>)>::empty());
        vstd::seq_lib::to_multiset_len(all.take(0));
        vstd::multiset::lemma_multiset_empty_len(all.take(0).to_multiset());
    }
    while rest.len() > 0
        invariant
            k <= n,
            all.len() == n,
            rest@ == all.skip(k as int),
            group_bag(group_views(groups@)) == all.take(k as int).to_multiset(),
            well_grouped(group_views(groups@)),
            group_views(groups@) == grouping(all.take(k as int)),
            num_incomplete_traces == num_incomplete(all.take(k as int)),
            num_incomplete_traces <= k,
        decreases rest.len(),
    {
        let ghost before = rest@;
        let t = rest.remove(0);
        proof {
            assert(before[0] == all[k as int]);
            assert(rest@ =~= all.skip(k + 1));
            assert(all.take(k + 1).drop_last() =~= all.take(k as int));
            assert(all.take(k + 1) =~= all.take(k as int).push(t));
            vstd::seq_lib::to_multiset_build(all.take(k as int), t);
        }
        let key = t.get_endpoint_key();
        let complete = t.trace.missing_span_ids.len() == 0;
        let ghost gv = group_views(groups@);
        let mut g: usize = 0;
        while g < groups.len() && !str_eq(groups[g].0.as_str(), key.as_str())
            invariant
                g <= groups@.len(),
                gv == group_views(groups@),
                forall|j: int| 0 <= j < g ==> (#[trigger] gv[j]).0 != key@,
            decreases groups.len() - g,
        {
            g = g + 1;
        }
        proof {
            lemma_group_index(gv, key@, g as int);
        }
        if g < groups.len() {
            let ghost old_group = gv[g as int];
            if complete {
                groups[g].1.push(t);
            } else {
                groups[g].2.push(t);
            }
            proof {
                let x = group_views(groups@)[g as int];
                assert(group_views(groups@) =~= gv.update(g as int, x));
                lemma_bag_add_to_group(gv, g as int, x, t);
                let nv = group_views(groups@);
                assert forall|g1: int, j: int|
                    0 <= g1 < nv.len() && 0 <= j < nv[g1].1.len() implies key_of(#[trigger] nv[g1].1[j]) == nv[g1].0
                        && is_complete(nv[g1].1[j]) by {
                    if g1 != g || j < gv[g1].1.len() {
                        assert(nv[g1].1[j] == gv[g1].1[j]);
                    }
                }
                assert forall|g1: int, j: int|
                    0 <= g1 < nv.len() && 0 <= j < nv[g1].2.len() implies key_of(#[trigger] nv[g1].2[j]) == nv[g1].0
                        && !is_complete(nv[g1].2[j]) by {
                    if g1 != g || j < gv[g1].2.len() {
                        assert(nv[g1].2[j] == gv[g1].2[j]);
                    }
                }
                assert forall|g1: int, g2: int| 0 <= g1 < g2 < nv.len() implies (#[trigger] nv[g1]).0
                    != (#[trigger] nv[g2]).0 by {
                    assert(nv[g1].0 == gv[g1].0 && nv[g2].0 == gv[g2].0);
                }
                assert forall|g1: int| 0 <= g1 < nv.len() implies (#[trigger] nv[g1]).1.len() + nv[g1].2.len() > 0 by {
                    assert(gv[g1].1.len() + gv[g1].2.len() > 0);
                }
                assert(nv =~= grouping(all.take(k + 1)));
            }
        } else {
            let mut complete_list: Vec<TraceExt> = Vec::new();
            let mut incomplete_list: Vec<TraceExt> = Vec::new();
            if complete {
                complete_list.push(t);
            } else {
                incomplete_list.push(t);
            }
            groups.push((key, complete_list, incomplete_list));
            proof {
                let x = group_views(groups@).last();
                assert(group_views(groups@) =~= gv.push(x));
                assert(x.1 =~= (if complete { seq![t] } else { Seq::<TraceExt>::empty() }));
                assert(x.2 =~= (if complete { Seq::<TraceExt>::empty() } else { seq![t] }));
                lemma_bag_new_group(gv, x, t);
                let nv = group_views(groups@);
                assert forall|g1: int, j: int|
                    0 <= g1 < nv.len() && 0 <= j < nv[g1].1.len() implies key_of(#[trigger] nv[g1].1[j]) == nv[g1].0
                        && is_complete(nv[g1].1[j]) by {
                    if g1 < gv.len() {
                        assert(nv[g1] == gv[g1]);
                    }
                }
                assert forall|g1: int, j: int|
                    0 <= g1 < nv.len() && 0 <= j < nv[g1].2.len() implies key_of(#[trigger] nv[g1].2[j]) == nv[g1].0
                        && !is_complete(nv[g1].2[j]) by {
                    if g1 < gv.len() {
                        assert(nv[g1] == gv[g1]);
                    }
                }
                assert forall|g1: int, g2: int| 0 <= g1 < g2 < nv.len() implies (#[trigger] nv[g1]).0
                    != (#[trigger] nv[g2]).0 by {
                    assert(nv[g1] == gv[g1]);
                    if g2 < gv.len() {
                        assert(nv[g2] == gv[g2]);
                    }
                }
                assert forall|g1: int| 0 <= g1 < nv.len() implies (#[trigger] nv[g1]).1.len() + nv[g1].2.len() > 0 by {
                    if g1 < gv.len() {
                        assert(nv[g1] == gv[g1]);
                    }
                }
                assert(nv =~= grouping(all.take(k + 1)));
            }
        }
        if !complete {
            num_incomplete_traces = num_incomplete_traces + 1;
        }
        proof {
            assert(all.take(k + 1).last() == t);
        }
        k = k + 1;
    }
    proof {
        assert(all.take(k as int) =~= all);
        law_num_incomplete_counts_missing(all);
        law_grouping_incomplete_total(all);
    }
    (groups, num_incomplete_traces)
}

} // verus!
