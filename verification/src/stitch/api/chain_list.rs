//! The lists of services and of call-chains that a front end shows: which entries, their
//! keys, texts and numbers. Their ranks and average counts are computed in floating
//! point by the caller.
use super::inbound_prefix_idx::{
    index_ready, is_first_section, lemma_get_idx_longest, longest_prefix_index, section_items, InboundPrefixIdx,
};
use super::ranking::{is_arrangement, lexicographic_order, stably_sorted};
use super::super::call_chain_data::{chain_type_of, CallChainData};
use super::super::stitched::Stitched;
use super::super::stitched_set::StitchedSet;
use crate::text::{str_eq, views};
use vstd::prelude::*;
use vstd::string::*;

verus! {

/// An entry of a list of services or call-chains: its number (from 1; 0 before it is
/// numbered), its key, the text shown for it, the type of the chain (empty for a
/// service), the index of its inbound chain (0 when none), and where its statistics
/// stand: the position of the service, or of the call-chain section and of the chain in it.
#[derive(Debug)]
pub struct ListItem {
    pub idx: i64,
    pub key: String,
    pub display: String,
    pub chain_type: String,
    pub inbound_idx: i64,
    pub section: usize,
    pub chain: usize,
}

/// `item` shows the call-chain `ccd`: its full key, its inbound process key as the text
/// shown, and its type.
pub open spec fn describes(ccd: CallChainData, item: ListItem) -> bool {
    &&& item.key@ == ccd.full_key@
    &&& item.display@ == ccd.inbound_process_key@
    &&& item.chain_type@ == chain_type_of(ccd.rooted, ccd.is_leaf)
}

/// The list entry of the call-chain `ccd`, with the given number, inbound index and place.
fn describe(ccd: &CallChainData, idx: i64, inbound_idx: i64, section: usize, chain: usize) -> (r: ListItem)
    ensures
        describes(*ccd, r),
        r.idx == idx,
        r.inbound_idx == inbound_idx,
        r.section == section,
        r.chain == chain,
{
    ListItem {
        idx,
        key: ccd.full_key.clone(),
        display: ccd.inbound_process_key.clone(),
        chain_type: ccd.chain_type().to_owned(),
        inbound_idx,
        section,
        chain,
    }
}

/// `items` lists the services of `so` in order: numbered from 1, with the service/operation
/// key as key and as text, no chain type and inbound index 0.
pub open spec fn process_items(so: Seq<(String, StitchedSet)>, items: Seq<ListItem>) -> bool {
    &&& items.len() == so.len()
    &&& forall|j: int|
        0 <= j < items.len() ==> {
            &&& (#[trigger] items[j]).idx == j + 1
            &&& items[j].key@ == so[j].0@
            &&& items[j].display@ == so[j].0@
            &&& items[j].chain_type@ == Seq::<char>::empty()
            &&& items[j].inbound_idx == 0
            &&& items[j].section == j
            &&& items[j].chain == 0
        }
}

/// The services of the stitched data, listed in order.
pub fn get_process_items(data: &Stitched) -> (r: Vec<ListItem>)
    requires
        data.service_operation@.len() < i64::MAX,
    ensures
        process_items(data.service_operation@, r@),
{
    let so = &data.service_operation;
    let mut items: Vec<ListItem> = Vec::new();
    let mut j: usize = 0;
    while j < so.len()
        invariant
            j <= so@.len(),
            so@.len() < i64::MAX,
            items@.len() == j,
            forall|k: int|
                0 <= k < j ==> {
                    &&& (#[trigger] items@[k]).idx == k + 1
                    &&& items@[k].key@ == so@[k].0@
                    &&& items@[k].display@ == so@[k].0@
                    &&& items@[k].chain_type@ == Seq::<char>::empty()
                    &&& items@[k].inbound_idx == 0
                    &&& items@[k].section == k
                    &&& items@[k].chain == 0
                },
        decreases so.len() - j,
    {
        let item = ListItem {
            idx: (j + 1) as i64,
            key: so[j].0.clone(),
            display: so[j].0.clone(),
            chain_type: String::new(),
            inbound_idx: 0,
            section: j,
            chain: 0,
        };
        items.push(item);
        j = j + 1;
    }
    items
}

/// `items` lists the chains `ccds` of section `s` in order: numbered from 1, each showing
/// its chain, with inbound index 0.
pub open spec fn chain_items(ccds: Seq<CallChainData>, s: int, items: Seq<ListItem>) -> bool {
    &&& items.len() == ccds.len()
    &&& forall|j: int|
        0 <= j < items.len() ==> {
            &&& (#[trigger] items[j]).idx == j + 1
            &&& describes(ccds[j], items[j])
            &&& items[j].inbound_idx == 0
            &&& items[j].section == s
            &&& items[j].chain == j
        }
}

/// The position of the first section of `data` keyed by `proc_oper`, if any.
fn first_section(data: &Stitched, proc_oper: &str) -> (r: Option<usize>)
    ensures
        r is None <==> forall|s: int| 0 <= s < data.call_chain@.len() ==> (#[trigger] data.call_chain@[s]).0@ != proc_oper@,
        r matches Some(s) ==> is_first_section(data.call_chain@, proc_oper@, s as int),
{
    let mut s: usize = 0;
    while s < data.call_chain.len() && !str_eq(data.call_chain[s].0.as_str(), proc_oper)
        invariant
            s <= data.call_chain@.len(),
            forall|t: int| 0 <= t < s ==> (#[trigger] data.call_chain@[t]).0@ != proc_oper@,
        decreases data.call_chain.len() - s,
    {
        s = s + 1;
    }
    if s == data.call_chain.len() {
        None
    } else {
        Some(s)
    }
}

/// The call-chains of the (first) section of `proc_oper`, listed in order; `None` when
/// there is no section for `proc_oper`.
pub fn get_call_chain_items_inbound(data: &Stitched, proc_oper: &str) -> (r: Option<Vec<ListItem>>)
    requires
        forall|s: int| 0 <= s < data.call_chain@.len() ==> (#[trigger] data.call_chain@[s]).1@.len() < i64::MAX,
    ensures
        r is None <==> forall|s: int| 0 <= s < data.call_chain@.len() ==> (#[trigger] data.call_chain@[s]).0@ != proc_oper@,
        r matches Some(items) ==> exists|s: int|
            #[trigger] is_first_section(data.call_chain@, proc_oper@, s) && chain_items(data.call_chain@[s].1@, s, items@)
                && forall|j: int|
                0 <= j < items@.len() ==> (#[trigger] items@[j]).key@ == data.call_chain@[s].1@[j].full_key@
                    && items@[j].display@ == data.call_chain@[s].1@[j].inbound_process_key@,
{
    let s = match first_section(data, proc_oper) {
        None => return None,
        Some(s) => s,
    };
    let ccds: &Vec<CallChainData> = &data.call_chain[s].1;
    let mut items: Vec<ListItem> = Vec::new();
    let mut j: usize = 0;
    while j < ccds.len()
        invariant
            j <= ccds@.len(),
            ccds@.len() < i64::MAX,
            items@.len() == j,
            forall|k: int|
                0 <= k < j ==> {
                    &&& (#[trigger] items@[k]).idx == k + 1
                    &&& describes(ccds@[k], items@[k])
                    &&& items@[k].inbound_idx == 0
                    &&& items@[k].section == s
                    &&& items@[k].chain == k
                },
        decreases ccds.len() - j,
    {
        let item = describe(&ccds[j], (j + 1) as i64, 0, s, j);
        items.push(item);
        j = j + 1;
    }
    assert(chain_items(ccds@, s as int, items@));
    Some(items)
}

/// Whether the regular expression `p` compiles.
pub uninterp spec fn regex_compiles(p: Seq<char>) -> bool;

/// Whether the regular expression `p` (which compiles) matches somewhere in `h`.
pub uninterp spec fn regex_finds(p: Seq<char>, h: Seq<char>) -> bool;

/// `regex::Regex::new(p)` and, when it compiles, `Regex::find(h)`: `None` when `p` does not
/// compile, else whether a match of `p` occurs in `h`. The contract names both results as
/// functions of `p` and `h`; the regular-expression semantics is left unsaid.
#[verifier::external_body]
fn regex_find(p: &str, h: &str) -> (r: Option<bool>)
    ensures
        r is Some <==> regex_compiles(p@),
        r matches Some(b) ==> b == regex_finds(p@, h@),
{
    match regex::Regex::new(p) {
        Ok(re) => Some(re.find(h).is_some()),
        Err(_) => None,
    }
}

/// The places (section `s`, chain) of the leaf chains among `ccds` whose full key the
/// pattern `po` matches, in order.
pub open spec fn section_matches(ccds: Seq<CallChainData>, po: Seq<char>, s: int) -> Seq<(int, int)>
    decreases ccds.len(),
{
    if ccds.len() == 0 {
        seq![]
    } else {
        let prev = section_matches(ccds.drop_last(), po, s);
        if ccds.last().is_leaf && regex_finds(po, ccds.last().full_key@) {
            prev.push((s, ccds.len() - 1))
        } else {
            prev
        }
    }
}

/// The places of the end-to-end chains for `po`: the leaf chains whose full key the
/// pattern `po` matches, in the sections not keyed `po`, section by section.
pub open spec fn end2end_places(cc: Seq<(String, Vec<CallChainData>)>, po: Seq<char>) -> Seq<(int, int)>
    decreases cc.len(),
{
    if cc.len() == 0 {
        seq![]
    } else {
        let prev = end2end_places(cc.drop_last(), po);
        if cc.last().0@ == po {
            prev
        } else {
            prev + section_matches(cc.last().1@, po, cc.len() - 1)
        }
    }
}

/// `item` is the (not yet numbered) entry of the chain at `place`: it shows that chain, and
/// its inbound index is the one recorded for the longest prefix of its key among the
/// chains of the first section of `po`.
pub open spec fn end2end_item(cc: Seq<(String, Vec<CallChainData>)>, po: Seq<char>, place: (int, int), item: ListItem) -> bool {
    &&& 0 <= place.0 < cc.len()
    &&& 0 <= place.1 < cc[place.0].1@.len()
    &&& item.section == place.0
    &&& item.chain == place.1
    &&& describes(cc[place.0].1@[place.1], item)
    &&& item.idx == 0
    &&& forall|s: int|
        #[trigger] is_first_section(cc, po, s) ==> item.inbound_idx == longest_prefix_index(
            section_items(cc[s].1@),
            item.key@,
        )
}

/// `items` holds the entries of the end-to-end chains for `po`, in the order of their places.
pub open spec fn end2end_items(cc: Seq<(String, Vec<CallChainData>)>, po: Seq<char>, items: Seq<ListItem>) -> bool {
    &&& items.len() == end2end_places(cc, po).len()
    &&& forall|i: int| 0 <= i < items.len() ==> end2end_item(cc, po, end2end_places(cc, po)[i], #[trigger] items[i])
}

/// A key has only one first section.
proof fn lemma_first_section_unique(cc: Seq<(String, Vec<CallChainData>)>, po: Seq<char>, a: int, b: int)
    requires
        is_first_section(cc, po, a),
        is_first_section(cc, po, b),
    ensures
        a == b,
{
    if a < b {
        assert(cc[a].0@ != po);
    } else if b < a {
        assert(cc[b].0@ != po);
    }
}

/// The end-to-end call-chains for the pattern `proc_oper`: the leaf chains whose full key
/// the pattern matches, in all sections but those keyed `proc_oper` (which hold the
/// inbound chains), section by section, not yet numbered. Each carries the index of its
/// inbound chain: that of the longest prefix of its key recorded for `proc_oper`. `None`
/// when `proc_oper` is not a valid regular expression.
pub fn get_call_chain_items_end2end(data: &Stitched, proc_oper: &str) -> (r: Option<Vec<ListItem>>)
    requires
        index_ready(data.call_chain@, proc_oper@),
    ensures
        r is Some <==> regex_compiles(proc_oper@),
        r matches Some(items) ==> end2end_items(data.call_chain@, proc_oper@, items@),
        r matches Some(items) ==> forall|i: int|
            0 <= i < items@.len() ==> {
                let c = data.call_chain@[(#[trigger] items@[i]).section as int].1@[items@[i].chain as int];
                &&& items@[i].key@ == c.full_key@
                &&& items@[i].display@ == c.inbound_process_key@
                &&& c.is_leaf
                &&& regex_finds(proc_oper@, c.full_key@)
                &&& data.call_chain@[items@[i].section as int].0@ != proc_oper@
            },
{
    if regex_find(proc_oper, "").is_none() {
        return None;
    }
    let index = InboundPrefixIdx::new(data, proc_oper);
    let ghost cc = data.call_chain@;
    let ghost po = proc_oper@;
    let first = first_section(data, proc_oper);
    let ghost s0: int = match first {
        Some(f) => f as int,
        None => 0,
    };
    proof {
        if first is None {
            let t = choose|t: int| 0 <= t < cc.len() && (#[trigger] cc[t]).0@ == po;
            assert(cc[t].0@ != po);
        }
        assert(is_first_section(cc, po, s0));
        assert(cc.take(0) =~= Seq::<(String, Vec<CallChainData>)>::empty());
    }
    let ghost entries = section_items(cc[s0].1@);
    assert(crate::stitch::api::inbound_prefix_idx::represents(index.view(), |p: Seq<char>| crate::stitch::api::inbound_prefix_idx::prefix_index(entries, p)));
    let mut items: Vec<ListItem> = Vec::new();
    let mut s: usize = 0;
    while s < data.call_chain.len()
        invariant
            s <= cc.len(),
            cc == data.call_chain@,
            po == proc_oper@,
            regex_compiles(po),
            is_first_section(cc, po, s0),
            entries == section_items(cc[s0].1@),
            crate::stitch::api::inbound_prefix_idx::represents(index.view(), |p: Seq<char>| crate::stitch::api::inbound_prefix_idx::prefix_index(entries, p)),
            items@.len() == end2end_places(cc.take(s as int), po).len(),
            forall|i: int| 0 <= i < items@.len() ==> end2end_item(cc, po, end2end_places(cc.take(s as int), po)[i], #[trigger] items@[i]),
        decreases cc.len() - s,
    {
        let ghost before = items@;
        let ghost old_places = end2end_places(cc.take(s as int), po);
        proof {
            assert(cc.take(s + 1).drop_last() =~= cc.take(s as int));
            assert(cc.take(s + 1).last() == cc[s as int]);
        }
        if !str_eq(data.call_chain[s].0.as_str(), proc_oper) {
            let ccds = &data.call_chain[s].1;
            let mut j: usize = 0;
            assert(ccds@.take(0) =~= Seq::<CallChainData>::empty());
            while j < ccds.len()
                invariant
                    s < cc.len(),
                    j <= ccds@.len(),
                    ccds == &cc[s as int].1,
                    cc == data.call_chain@,
                    po == proc_oper@,
                    regex_compiles(po),
                    is_first_section(cc, po, s0),
                    entries == section_items(cc[s0].1@),
                    crate::stitch::api::inbound_prefix_idx::represents(index.view(), |p: Seq<char>| crate::stitch::api::inbound_prefix_idx::prefix_index(entries, p)),
                    items@.len() == before.len() + section_matches(ccds@.take(j as int), po, s as int).len(),
                    forall|i: int| 0 <= i < before.len() ==> items@[i] == before[i],
                    forall|i: int|
                        0 <= i < section_matches(ccds@.take(j as int), po, s as int).len() ==> end2end_item(
                            cc,
                            po,
                            section_matches(ccds@.take(j as int), po, s as int)[i],
                            #[trigger] items@[before.len() + i],
                        ),
                decreases ccds.len() - j,
            {
                let ghost sm = section_matches(ccds@.take(j as int), po, s as int);
                proof {
                    assert(ccds@.take(j + 1).drop_last() =~= ccds@.take(j as int));
                    assert(ccds@.take(j + 1).last() == ccds@[j as int]);
                }
                let matched = if ccds[j].is_leaf {
                    match regex_find(proc_oper, ccds[j].full_key.as_str()) {
                        Some(b) => b,
                        None => false,
                    }
                } else {
                    false
                };
                if matched {
                    let k = index.get_idx(ccds[j].full_key.as_str());
                    proof {
                        lemma_get_idx_longest(index.view(), entries, ccds@[j as int].full_key@, k);
                    }
                    let item = describe(&ccds[j], 0, k, s, j);
                    let ghost pre = items@;
                    items.push(item);
                    proof {
                        let nsm = section_matches(ccds@.take(j + 1), po, s as int);
                        assert(nsm == sm.push((s as int, j as int)));
                        assert forall|t: int| #[trigger] is_first_section(cc, po, t) implies item.inbound_idx
                            == longest_prefix_index(section_items(cc[t].1@), item.key@) by {
                            lemma_first_section_unique(cc, po, t, s0);
                        }
                        assert(end2end_item(cc, po, (s as int, j as int), item));
                        assert forall|i: int| 0 <= i < nsm.len() implies end2end_item(
                            cc,
                            po,
                            nsm[i],
                            #[trigger] items@[before.len() + i],
                        ) by {
                            if i < sm.len() {
                                assert(items@[before.len() + i] == pre[before.len() + i]);
                            }
                        }
                    }
                } else {
                    proof {
                        assert(section_matches(ccds@.take(j + 1), po, s as int) == sm);
                    }
                }
                j = j + 1;
            }
            proof {
                assert(ccds@.take(ccds@.len() as int) =~= ccds@);
                let sm = section_matches(ccds@, po, s as int);
                let np = end2end_places(cc.take(s + 1), po);
                assert(np == old_places + sm);
                assert forall|i: int| 0 <= i < items@.len() implies end2end_item(cc, po, np[i], #[trigger] items@[i]) by {
                    if i < before.len() {
                        assert(items@[i] == before[i]);
                        assert(np[i] == old_places[i]);
                    } else {
                        let t = i - before.len();
                        assert(np[i] == sm[t]);
                        assert(items@[before.len() + t] == items@[i]);
                    }
                }
            }
        } else {
            proof {
                assert(end2end_places(cc.take(s + 1), po) == old_places);
            }
        }
        s = s + 1;
    }
    proof {
        assert(cc.take(cc.len() as int) =~= cc);
        law_end2end_items_show_matching_leaves(cc, po, items@);
    }
    Some(items)
}

/// The keys of the entries.
pub open spec fn item_keys(items: Seq<ListItem>) -> Seq<Seq<char>> {
    Seq::new(items.len(), |i: int| items[i].key@)
}

/// `b` is the entry `a`, but for its number.
pub open spec fn same_but_idx(a: ListItem, b: ListItem) -> bool {
    &&& b.key@ == a.key@
    &&& b.display@ == a.display@
    &&& b.chain_type@ == a.chain_type@
    &&& b.inbound_idx == a.inbound_idx
    &&& b.section == a.section
    &&& b.chain == a.chain
}

/// `r` holds the entries `items` in lexicographic order of their keys (entries with equal
/// keys in their order in `items`), numbered from 1.
pub open spec fn numbered_by_key(items: Seq<ListItem>, r: Seq<ListItem>) -> bool {
    exists|order: Seq<usize>|
        {
            &&& is_arrangement(order, items.len())
            &&& stably_sorted(item_keys(items), order)
            &&& r.len() == items.len()
            &&& forall|p: int|
                0 <= p < r.len() ==> same_but_idx(items[order[p] as int], #[trigger] r[p]) && r[p].idx == p + 1
        }
}

/// The entries in lexicographic order of their keys, numbered from 1.
pub fn number_by_key(items: Vec<ListItem>) -> (r: Vec<ListItem>)
    requires
        items@.len() < i64::MAX,
    ensures
        numbered_by_key(items@, r@),
{
    let mut keys: Vec<String> = Vec::new();
    let mut i: usize = 0;
    while i < items.len()
        invariant
            i <= items@.len(),
            keys@.len() == i,
            forall|k: int| 0 <= k < i ==> (#[trigger] keys@[k])@ == items@[k].key@,
        decreases items.len() - i,
    {
        keys.push(items[i].key.clone());
        i = i + 1;
    }
    assert(views(keys@) =~= item_keys(items@));
    let order = lexicographic_order(&keys);
    let mut r: Vec<ListItem> = Vec::new();
    let mut p: usize = 0;
    while p < order.len()
        invariant
            p <= order@.len(),
            is_arrangement(order@, items@.len()),
            items@.len() < i64::MAX,
            r@.len() == p,
            forall|q: int| 0 <= q < p ==> same_but_idx(items@[order@[q] as int], #[trigger] r@[q]) && r@[q].idx == q + 1,
        decreases order.len() - p,
    {
        let it = &items[order[p]];
        let item = ListItem {
            idx: (p + 1) as i64,
            key: it.key.clone(),
            display: it.display.clone(),
            chain_type: it.chain_type.clone(),
            inbound_idx: it.inbound_idx,
            section: it.section,
            chain: it.chain,
        };
        r.push(item);
        p = p + 1;
    }
    assert(stably_sorted(item_keys(items@), order@));
    r
}

/// The number of call-chains over all sections.
pub open spec fn num_chains(cc: Seq<(String, Vec<CallChainData>)>) -> nat
    decreases cc.len(),
{
    if cc.len() == 0 {
        0
    } else {
        num_chains(cc.drop_last()) + cc.last().1@.len()
    }
}

/// No section holds more chains than all sections together.
proof fn lemma_section_le_total(cc: Seq<(String, Vec<CallChainData>)>, s: int)
    requires
        0 <= s < cc.len(),
    ensures
        cc[s].1@.len() <= num_chains(cc),
    decreases cc.len(),
{
    if s < cc.len() - 1 {
        lemma_section_le_total(cc.drop_last(), s);
    }
}

/// A section has no more matching chains than chains.
proof fn lemma_section_matches_len(ccds: Seq<CallChainData>, po: Seq<char>, s: int)
    ensures
        section_matches(ccds, po, s).len() <= ccds.len(),
    decreases ccds.len(),
{
    if ccds.len() > 0 {
        lemma_section_matches_len(ccds.drop_last(), po, s);
    }
}

/// There are no more end-to-end chains than chains.
proof fn lemma_end2end_len(cc: Seq<(String, Vec<CallChainData>)>, po: Seq<char>)
    ensures
        end2end_places(cc, po).len() <= num_chains(cc),
    decreases cc.len(),
{
    if cc.len() > 0 {
        lemma_end2end_len(cc.drop_last(), po);
        lemma_section_matches_len(cc.last().1@, po, cc.len() - 1);
    }
}

/// The call-chain list of `scope` for `proc_oper`, before its floating-point ranks:
/// - "inbound" or "": the chains of the first section of `proc_oper`, numbered in order
///   (none when there is no such section);
/// - "end2end": the end-to-end chains for the pattern `proc_oper`, in lexicographic order
///   of their keys and numbered when `metric` is empty, else in the order in which they
///   were found and not yet numbered; `None` when `proc_oper` is not a valid regular expression;
/// - any other scope: no chains.
pub fn get_call_chain_items(data: &Stitched, proc_oper: &str, metric: &str, scope: &str) -> (r: Option<Vec<ListItem>>)
    requires
        num_chains(data.call_chain@) < i64::MAX,
        scope@ == "end2end"@ ==> index_ready(data.call_chain@, proc_oper@),
    ensures
        scope@ == "inbound"@ || scope@ == ""@ ==> (r matches Some(items) && (if exists|s: int|
            0 <= s < data.call_chain@.len() && (#[trigger] data.call_chain@[s]).0@ == proc_oper@ {
            exists|s: int| #[trigger] is_first_section(data.call_chain@, proc_oper@, s) && chain_items(data.call_chain@[s].1@, s, items@)
        } else {
            items@.len() == 0
        })),
        scope@ == "end2end"@ ==> (r is Some <==> regex_compiles(proc_oper@)),
        scope@ == "end2end"@ ==> (r matches Some(items) ==> exists|found: Seq<ListItem>|
            end2end_items(data.call_chain@, proc_oper@, found) && if metric@.len() == 0 {
                numbered_by_key(found, items@)
            } else {
                items@ == found
            }),
        !(scope@ == "inbound"@ || scope@ == ""@ || scope@ == "end2end"@) ==> (r matches Some(items) && items@.len() == 0),
{
    proof {
        reveal_strlit("inbound");
        reveal_strlit("end2end");
        reveal_strlit("");
        assert("inbound"@[0] != "end2end"@[0]);
        assert("inbound"@ != "end2end"@);
        assert(""@.len() == 0);
        assert("end2end"@.len() == 7);
        assert(""@ != "end2end"@);
    }
    if str_eq(scope, "inbound") || str_eq(scope, "") {
        proof {
            assert forall|s: int| 0 <= s < data.call_chain@.len() implies (#[trigger] data.call_chain@[s]).1@.len() < i64::MAX by {
                lemma_section_le_total(data.call_chain@, s);
            }
        }
        match get_call_chain_items_inbound(data, proc_oper) {
            Some(items) => Some(items),
            None => Some(Vec::new()),
        }
    } else if str_eq(scope, "end2end") {
        match get_call_chain_items_end2end(data, proc_oper) {
            None => None,
            Some(found) => {
                proof {
                    lemma_end2end_len(data.call_chain@, proc_oper@);
                }
                let ghost f = found@;
                if str_eq(metric, "") {
                    let items = number_by_key(found);
                    assert(end2end_items(data.call_chain@, proc_oper@, f) && numbered_by_key(f, items@));
                    Some(items)
                } else {
                    assert(metric@.len() != 0) by {
                        if metric@.len() == 0 {
                            assert(metric@ =~= ""@);
                        }
                    }
                    assert(end2end_items(data.call_chain@, proc_oper@, f));
                    Some(found)
                }
            },
        }
    } else {
        Some(Vec::new())
    }
}

/// A listed chain shows its full key as key, its inbound process key as text, and its type:
/// "end2end" for a rooted leaf, "partial" for a rooted chain that is no leaf,
/// "unrooted-leaf" for a leaf that is not rooted and "floating" otherwise.
pub proof fn law_item_shows_chain(ccd: CallChainData, item: ListItem)
    requires
        describes(ccd, item),
    ensures
        item.key@ == ccd.full_key@,
        item.display@ == ccd.inbound_process_key@,
        ccd.rooted && ccd.is_leaf ==> item.chain_type@ == "end2end"@,
        ccd.rooted && !ccd.is_leaf ==> item.chain_type@ == "partial"@,
        !ccd.rooted && ccd.is_leaf ==> item.chain_type@ == "unrooted-leaf"@,
        !ccd.rooted && !ccd.is_leaf ==> item.chain_type@ == "floating"@,
{
}

/// Every place that `section_matches` lists is a leaf chain of the section whose key the
/// pattern matches.
proof fn lemma_section_matches_places(ccds: Seq<CallChainData>, po: Seq<char>, s: int, i: int)
    requires
        0 <= i < section_matches(ccds, po, s).len(),
    ensures
        ({
            let pl = section_matches(ccds, po, s)[i];
            &&& pl.0 == s
            &&& 0 <= pl.1 < ccds.len()
            &&& ccds[pl.1].is_leaf
            &&& regex_finds(po, ccds[pl.1].full_key@)
        }),
    decreases ccds.len(),
{
    let prev = section_matches(ccds.drop_last(), po, s);
    if i < prev.len() {
        lemma_section_matches_places(ccds.drop_last(), po, s, i);
        assert(section_matches(ccds, po, s)[i] == prev[i]);
        assert(ccds[prev[i].1] == ccds.drop_last()[prev[i].1]);
    }
}

/// Every place of an end-to-end chain lies in a section not keyed `po`, at a leaf chain whose
/// key the pattern `po` matches.
proof fn lemma_end2end_places(cc: Seq<(String, Vec<CallChainData>)>, po: Seq<char>, i: int)
    requires
        0 <= i < end2end_places(cc, po).len(),
    ensures
        ({
            let pl = end2end_places(cc, po)[i];
            &&& 0 <= pl.0 < cc.len()
            &&& cc[pl.0].0@ != po
            &&& 0 <= pl.1 < cc[pl.0].1@.len()
            &&& cc[pl.0].1@[pl.1].is_leaf
            &&& regex_finds(po, cc[pl.0].1@[pl.1].full_key@)
        }),
    decreases cc.len(),
{
    let prev = end2end_places(cc.drop_last(), po);
    if i < prev.len() {
        lemma_end2end_places(cc.drop_last(), po, i);
        assert(end2end_places(cc, po)[i] == prev[i]);
        assert(cc[prev[i].0] == cc.drop_last()[prev[i].0]);
    } else {
        let sm = section_matches(cc.last().1@, po, cc.len() - 1);
        lemma_section_matches_places(cc.last().1@, po, cc.len() - 1, i - prev.len());
        assert(end2end_places(cc, po)[i] == sm[i - prev.len()]);
    }
}

/// The end-to-end list holds only leaf chains whose key the pattern matches, from sections
/// not keyed by the pattern, each shown by its full key and its inbound process key.
pub proof fn law_end2end_items_show_matching_leaves(cc: Seq<(String, Vec<CallChainData>)>, po: Seq<char>, items: Seq<ListItem>)
    requires
        end2end_items(cc, po, items),
    ensures
        forall|i: int|
            0 <= i < items.len() ==> {
                &&& 0 <= (#[trigger] items[i]).section < cc.len()
                &&& 0 <= items[i].chain < cc[items[i].section as int].1@.len()
                &&& cc[items[i].section as int].0@ != po
                &&& cc[items[i].section as int].1@[items[i].chain as int].is_leaf
                &&& regex_finds(po, cc[items[i].section as int].1@[items[i].chain as int].full_key@)
                &&& items[i].key@ == cc[items[i].section as int].1@[items[i].chain as int].full_key@
                &&& items[i].display@ == cc[items[i].section as int].1@[items[i].chain as int].inbound_process_key@
            },
{
    assert forall|i: int| 0 <= i < items.len() implies {
        &&& 0 <= (#[trigger] items[i]).section < cc.len()
        &&& 0 <= items[i].chain < cc[items[i].section as int].1@.len()
        &&& cc[items[i].section as int].0@ != po
        &&& cc[items[i].section as int].1@[items[i].chain as int].is_leaf
        &&& regex_finds(po, cc[items[i].section as int].1@[items[i].chain as int].full_key@)
        &&& items[i].key@ == cc[items[i].section as int].1@[items[i].chain as int].full_key@
        &&& items[i].display@ == cc[items[i].section as int].1@[items[i].chain as int].inbound_process_key@
    } by {
        lemma_end2end_places(cc, po, i);
        assert(end2end_item(cc, po, end2end_places(cc, po)[i], items[i]));
    }
}

/// The inbound list shows each chain of its section in order: numbered from 1, by its full
/// key and its inbound process key, with inbound index 0.
pub proof fn law_chain_items_show_chains(ccds: Seq<CallChainData>, s: int, items: Seq<ListItem>)
    requires
        chain_items(ccds, s, items),
    ensures
        items.len() == ccds.len(),
        forall|j: int|
            0 <= j < items.len() ==> {
                &&& (#[trigger] items[j]).idx == j + 1
                &&& items[j].key@ == ccds[j].full_key@
                &&& items[j].display@ == ccds[j].inbound_process_key@
                &&& items[j].inbound_idx == 0
            },
{
    assert forall|j: int| 0 <= j < items.len() implies {
        &&& (#[trigger] items[j]).idx == j + 1
        &&& items[j].key@ == ccds[j].full_key@
        &&& items[j].display@ == ccds[j].inbound_process_key@
        &&& items[j].inbound_idx == 0
    } by {
        law_item_shows_chain(ccds[j], items[j]);
    }
}

} // verus!
