//! Selecting columns of a stitched dataset.
use super::super::call_chain_data::{chain_pick, law_pick_keeps_chain, CallChainData};
use super::super::stitch_list::StitchSources;
use super::super::stitched::{Stitched, Version};
use super::super::stitched_set::StitchedSet;
use super::types::{Label, Selection};
use super::{column_descriptions, dates_ok, get_label_list, label_list, try_get_label_list};
use vstd::prelude::*;

verus! {

impl Label {
    /// A selected label.
    pub fn new(idx: i64, label: String) -> (r: Self)
        ensures
            r.idx == idx,
            r.label == label,
            r.selected,
    {
        Self { idx, label, selected: true }
    }
}

/// The selection that numbers the labels 0, 1, ... and selects every column.
pub open spec fn full_selection_of(labels: Seq<Seq<char>>, sel: Seq<Label>) -> bool {
    &&& sel.len() == labels.len()
    &&& forall|i: int|
        0 <= i < sel.len() ==> (#[trigger] sel[i]).idx == i as i64 && sel[i].label@ == labels[i]
            && sel[i].selected
}

/// A numbered and labeled selection with all columns selected (the default).
pub fn get_full_selection(data: &Stitched) -> (r: Selection)
    requires
        dates_ok(column_descriptions(data.sources.view_items())),
    ensures
        full_selection_of(label_list(column_descriptions(data.sources.view_items())), r@),
{
    let labels = get_label_list(data);
    labels_to_selection(labels)
}

/// Number the labels in order and select all of them.
fn labels_to_selection(labels: Vec<String>) -> (r: Selection)
    ensures
        full_selection_of(crate::text::views(labels@), r@),
{
    let mut r: Selection = Vec::new();
    let mut i: usize = 0;
    while i < labels.len()
        invariant
            i <= labels@.len(),
            r@.len() == i,
            forall|k: int|
                0 <= k < i ==> (#[trigger] r@[k]).idx == k as i64 && r@[k].label@ == labels@[k]@
                    && r@[k].selected,
        decreases labels.len() - i,
    {
        r.push(Label::new(i as i64, labels[i].clone()));
        i = i + 1;
    }
    r
}

/// The full selection, or `None` when a source description holds a date with an invalid month.
pub fn try_get_full_selection(data: &Stitched) -> (r: Option<Selection>)
    ensures
        r is Some <==> dates_ok(column_descriptions(data.sources.view_items())),
        r matches Some(sel) ==> full_selection_of(
            label_list(column_descriptions(data.sources.view_items())),
            sel@,
        ),
{
    if try_get_label_list(data).is_some() {
        Some(get_full_selection(data))
    } else {
        None
    }
}

/// The kept (key, statistics) pairs: the key of entry `i` of `keys` with `picks[i]`, for
/// the entries whose pick holds statistics.
pub open spec fn kept_sets(keys: Seq<Seq<char>>, picks: Seq<Option<StitchedSet>>) -> Seq<(Seq<char>, StitchedSet)>
    decreases picks.len(),
{
    if picks.len() == 0 {
        seq![]
    } else {
        let prev = kept_sets(keys, picks.drop_last());
        match picks.last() {
            Some(s) => prev.push((keys[picks.len() - 1], s)),
            None => prev,
        }
    }
}

/// The keys of keyed entries.
pub open spec fn entry_keys<T>(entries: Seq<(String, T)>) -> Seq<Seq<char>> {
    entries.map_values(|e: (String, T)| e.0@)
}

/// Keyed statistics with their keys as character sequences.
pub open spec fn keyed_sets(r: Seq<(String, StitchedSet)>) -> Seq<(Seq<char>, StitchedSet)> {
    r.map_values(|e: (String, StitchedSet)| (e.0@, e.1))
}

/// `picks` holds, for every service/operation of `original`, what `select` made of its
/// statistics for the columns `selection`.
pub open spec fn set_picks<F: Fn(&StitchedSet, &Vec<bool>) -> Option<StitchedSet>>(
    select: F,
    selection: Vec<bool>,
    original: Seq<(String, StitchedSet)>,
    picks: Seq<Option<StitchedSet>>,
) -> bool {
    &&& picks.len() == original.len()
    &&& forall|i: int| 0 <= i < original.len() ==> select.ensures((&original[i].1, &selection), #[trigger] picks[i])
}

/// The call-chains that a selection kept.
pub open spec fn somes(picks: Seq<Option<CallChainData>>) -> Seq<CallChainData>
    decreases picks.len(),
{
    if picks.len() == 0 {
        seq![]
    } else {
        let prev = somes(picks.drop_last());
        match picks.last() {
            Some(c) => prev.push(c),
            None => prev,
        }
    }
}

/// The kept groups of call-chains: per key the chains that were kept, and only the keys
/// that kept any.
pub open spec fn kept_chains(keys: Seq<Seq<char>>, picks: Seq<Seq<Option<CallChainData>>>) -> Seq<(Seq<char>, Seq<CallChainData>)>
    decreases picks.len(),
{
    if picks.len() == 0 {
        seq![]
    } else {
        let prev = kept_chains(keys, picks.drop_last());
        let kept = somes(picks.last());
        if kept.len() > 0 {
            prev.push((keys[picks.len() - 1], kept))
        } else {
            prev
        }
    }
}

/// Keyed call-chain groups with their keys as character sequences.
pub open spec fn keyed_chains(r: Seq<(String, Vec<CallChainData>)>) -> Seq<(Seq<char>, Seq<CallChainData>)> {
    r.map_values(|e: (String, Vec<CallChainData>)| (e.0@, e.1@))
}

/// `picks` holds, for every call-chain of `original`, what selecting the columns
/// `selection` made of it.
pub open spec fn chain_picks<F: Fn(&StitchedSet, &Vec<bool>) -> Option<StitchedSet>>(
    select: F,
    selection: Vec<bool>,
    original: Seq<(String, Vec<CallChainData>)>,
    picks: Seq<Seq<Option<CallChainData>>>,
) -> bool {
    &&& picks.len() == original.len()
    &&& forall|i: int|
        0 <= i < original.len() ==> (#[trigger] picks[i]).len() == original[i].1@.len() && forall|j: int|
            0 <= j < original[i].1@.len() ==> chain_pick(select, selection, original[i].1@[j], #[trigger] picks[i][j])
}

/// The service/operation statistics of `original` restricted to the columns `selection`
/// (by `select`), leaving out those without any value left.
pub fn get_proc_oper_selection<F: Fn(&StitchedSet, &Vec<bool>) -> Option<StitchedSet>>(
    original: &Stitched,
    selection: &Vec<bool>,
    select: &F,
) -> (r: Vec<(String, StitchedSet)>)
    requires
        forall|x: &StitchedSet, y: &Vec<bool>| select.requires((x, y)),
    ensures
        exists|picks: Seq<Option<StitchedSet>>|
            set_picks(*select, *selection, original.service_operation@, picks) && keyed_sets(r@) == kept_sets(
                entry_keys(original.service_operation@),
                picks,
            ),
{
    let so = &original.service_operation;
    let mut r: Vec<(String, StitchedSet)> = Vec::new();
    let ghost mut picks: Seq<Option<StitchedSet>> = seq![];
    let mut i: usize = 0;
    while i < so.len()
        invariant
            i <= so@.len(),
            *so == original.service_operation,
            forall|x: &StitchedSet, y: &Vec<bool>| select.requires((x, y)),
            picks.len() == i,
            forall|k: int| 0 <= k < i ==> select.ensures((&so@[k].1, selection), #[trigger] picks[k]),
            keyed_sets(r@) == kept_sets(entry_keys(so@), picks),
        decreases so.len() - i,
    {
        let p = select(&so[i].1, selection);
        let ghost pg = p;
        let ghost before = keyed_sets(r@);
        match p {
            Some(set) => {
                r.push((so[i].0.clone(), set));
                assert(keyed_sets(r@) =~= before.push((entry_keys(so@)[i as int], set)));
            },
            None => {},
        }
        proof {
            let old_picks = picks;
            picks = picks.push(pg);
            assert(picks.drop_last() =~= old_picks);
        }
        i = i + 1;
    }
    r
}

/// The call-chains of `original` restricted to the columns `selection` (by `select`):
/// per service/operation the chains that keep any value, and only the service/operations
/// that keep any chain.
pub fn get_call_chain_selection<F: Fn(&StitchedSet, &Vec<bool>) -> Option<StitchedSet>>(
    original: &Stitched,
    selection: &Vec<bool>,
    select: &F,
) -> (r: Vec<(String, Vec<CallChainData>)>)
    requires
        forall|x: &StitchedSet, y: &Vec<bool>| select.requires((x, y)),
    ensures
        exists|picks: Seq<Seq<Option<CallChainData>>>|
            chain_picks(*select, *selection, original.call_chain@, picks) && keyed_chains(r@) == kept_chains(
                entry_keys(original.call_chain@),
                picks,
            ),
{
    let cc = &original.call_chain;
    let mut r: Vec<(String, Vec<CallChainData>)> = Vec::new();
    let ghost mut picks: Seq<Seq<Option<CallChainData>>> = seq![];
    let mut i: usize = 0;
    while i < cc.len()
        invariant
            i <= cc@.len(),
            *cc == original.call_chain,
            forall|x: &StitchedSet, y: &Vec<bool>| select.requires((x, y)),
            picks.len() == i,
            forall|k: int|
                0 <= k < i ==> (#[trigger] picks[k]).len() == cc@[k].1@.len() && forall|j: int|
                    0 <= j < cc@[k].1@.len() ==> chain_pick(*select, *selection, cc@[k].1@[j], #[trigger] picks[k][j]),
            keyed_chains(r@) == kept_chains(entry_keys(cc@), picks),
        decreases cc.len() - i,
    {
        let ccd_vec = &cc[i].1;
        let mut data: Vec<CallChainData> = Vec::new();
        let ghost mut row: Seq<Option<CallChainData>> = seq![];
        let mut j: usize = 0;
        while j < ccd_vec.len()
            invariant
                j <= ccd_vec@.len(),
                i < cc@.len(),
                *ccd_vec == cc@[i as int].1,
                forall|x: &StitchedSet, y: &Vec<bool>| select.requires((x, y)),
                row.len() == j,
                forall|m: int| 0 <= m < j ==> chain_pick(*select, *selection, ccd_vec@[m], #[trigger] row[m]),
                data@ == somes(row),
            decreases ccd_vec.len() - j,
        {
            let c = ccd_vec[j].get_selection(selection, select);
            let ghost cg = c;
            match c {
                Some(ccd) => data.push(ccd),
                None => {},
            }
            proof {
                let old_row = row;
                row = row.push(cg);
                assert(row.drop_last() =~= old_row);
            }
            j = j + 1;
        }
        let ghost before = keyed_chains(r@);
        let ghost kept = data@;
        if data.len() > 0 {
            r.push((cc[i].0.clone(), data));
            assert(keyed_chains(r@) =~= before.push((entry_keys(cc@)[i as int], kept)));
        }
        proof {
            let old_picks = picks;
            picks = picks.push(row);
            assert(picks.drop_last() =~= old_picks);
            assert(picks.last() == row);
        }
        i = i + 1;
    }
    r
}

/// `d` holds the columns `selection` of `original` (by `select`): its service/operation
/// and call-chain statistics, without sources or basic statistics.
pub open spec fn derived_from<F: Fn(&StitchedSet, &Vec<bool>) -> Option<StitchedSet>>(
    select: F,
    selection: Vec<bool>,
    original: Stitched,
    d: Stitched,
) -> bool {
    &&& d.version == (Version { major: 0, minor: 3 })
    &&& d.sources.0@.len() == 0
    &&& d.basic.0@.len() == 0
    &&& exists|picks: Seq<Option<StitchedSet>>|
        set_picks(select, selection, original.service_operation@, picks) && keyed_sets(d.service_operation@)
            == kept_sets(entry_keys(original.service_operation@), picks)
    &&& exists|picks: Seq<Seq<Option<CallChainData>>>|
        chain_picks(select, selection, original.call_chain@, picks) && keyed_chains(d.call_chain@)
            == kept_chains(entry_keys(original.call_chain@), picks)
}

/// A dataset holding only the columns `selection` of `original` (by `select`): its
/// service/operation and call-chain statistics; sources and basic statistics are left out.
pub fn get_derived_stitched<F: Fn(&StitchedSet, &Vec<bool>) -> Option<StitchedSet>>(
    original: &Stitched,
    selection: &Vec<bool>,
    select: &F,
) -> (r: Stitched)
    requires
        forall|x: &StitchedSet, y: &Vec<bool>| select.requires((x, y)),
    ensures
        derived_from(*select, *selection, *original, r),
{
    let service_operation = get_proc_oper_selection(original, selection, select);
    let call_chain = get_call_chain_selection(original, selection, select);
    Stitched::new(StitchSources(Vec::new()), StitchedSet(Vec::new()), service_operation, call_chain)
}

/// Every chain that `somes` keeps is one of the picks.
proof fn lemma_somes_from_picks(picks: Seq<Option<CallChainData>>, m: int)
    requires
        0 <= m < somes(picks).len(),
    ensures
        exists|j: int| 0 <= j < picks.len() && picks[j] == Some(#[trigger] somes(picks)[m]),
    decreases picks.len(),
{
    let prev = somes(picks.drop_last());
    if m < prev.len() {
        lemma_somes_from_picks(picks.drop_last(), m);
        let j = choose|j: int| 0 <= j < picks.drop_last().len() && picks.drop_last()[j] == Some(#[trigger] prev[m]);
        assert(picks[j] == picks.drop_last()[j]);
        match picks.last() {
            Some(c) => assert(somes(picks)[m] == prev[m]),
            None => {},
        }
    } else {
        match picks.last() {
            Some(c) => {
                assert(somes(picks)[m] == c);
                assert(picks[picks.len() - 1] == Some(c));
            },
            None => {},
        }
    }
}

/// Every kept group is the group of some key of the original, holding what was kept of it.
proof fn lemma_kept_chains_from(keys: Seq<Seq<char>>, picks: Seq<Seq<Option<CallChainData>>>, i: int)
    requires
        0 <= i < kept_chains(keys, picks).len(),
    ensures
        exists|i0: int|
            0 <= i0 < picks.len() && (#[trigger] kept_chains(keys, picks)[i]) == (keys[i0], somes(picks[i0])),
    decreases picks.len(),
{
    let prev = kept_chains(keys, picks.drop_last());
    if i < prev.len() {
        lemma_kept_chains_from(keys, picks.drop_last(), i);
        let i0 = choose|i0: int|
            0 <= i0 < picks.drop_last().len() && (#[trigger] prev[i]) == (keys[i0], somes(picks.drop_last()[i0]));
        assert(picks[i0] == picks.drop_last()[i0]);
        if somes(picks.last()).len() > 0 {
            assert(kept_chains(keys, picks)[i] == prev[i]);
        }
    } else {
        assert(kept_chains(keys, picks)[i] == (keys[picks.len() - 1], somes(picks[picks.len() - 1])));
    }
}

/// Deriving a dataset keeps what every call-chain is: each chain of the derived dataset is,
/// under the same key, a chain of the original with the same full key, inbound key and
/// rooted and leaf flags.
pub proof fn law_derived_chains_kept<F: Fn(&StitchedSet, &Vec<bool>) -> Option<StitchedSet>>(
    select: F,
    selection: Vec<bool>,
    original: Stitched,
    d: Stitched,
    i: int,
    j: int,
)
    requires
        derived_from(select, selection, original, d),
        0 <= i < d.call_chain@.len(),
        0 <= j < d.call_chain@[i].1@.len(),
    ensures
        exists|i0: int, j0: int|
            0 <= i0 < original.call_chain@.len() && 0 <= j0 < original.call_chain@[i0].1@.len() && {
                let c = d.call_chain@[i].1@[j];
                let o = #[trigger] original.call_chain@[i0].1@[j0];
                &&& original.call_chain@[i0].0@ == d.call_chain@[i].0@
                &&& c.full_key@ == o.full_key@
                &&& c.inbound_process_key@ == o.inbound_process_key@
                &&& c.rooted == o.rooted
                &&& c.is_leaf == o.is_leaf
            },
{
    let picks = choose|picks: Seq<Seq<Option<CallChainData>>>|
        chain_picks(select, selection, original.call_chain@, picks) && keyed_chains(d.call_chain@)
            == kept_chains(entry_keys(original.call_chain@), picks);
    let keys = entry_keys(original.call_chain@);
    assert(keyed_chains(d.call_chain@)[i] == (d.call_chain@[i].0@, d.call_chain@[i].1@));
    lemma_kept_chains_from(keys, picks, i);
    let i0 = choose|i0: int|
        0 <= i0 < picks.len() && (#[trigger] kept_chains(keys, picks)[i]) == (keys[i0], somes(picks[i0]));
    let c = d.call_chain@[i].1@[j];
    assert(somes(picks[i0])[j] == c);
    lemma_somes_from_picks(picks[i0], j);
    let j0 = choose|j0: int| 0 <= j0 < picks[i0].len() && picks[i0][j0] == Some(#[trigger] somes(picks[i0])[j]);
    assert(chain_pick(select, selection, original.call_chain@[i0].1@[j0], picks[i0][j0]));
    law_pick_keeps_chain(select, selection, original.call_chain@[i0].1@[j0], picks[i0][j0]);
    assert(keys[i0] == original.call_chain@[i0].0@);
}

} // verus!
