//! The statistics of one call-chain (path through the services).
use super::stitched_set::StitchedSet;
use vstd::prelude::*;
use vstd::string::*;

verus! {

/// One call-chain with its stitched statistics.
#[derive(Debug)]
pub struct CallChainData {
    /// unique key constructed by the concatenation of all steps of the trace.
    pub full_key: String,
    /// key constructed from the inbound calls only; likely, but not guaranteed, unique.
    pub inbound_process_key: String,
    /// the chain refers back to the (identified) root of the full trace.
    pub rooted: bool,
    /// the chain ends at a leaf.
    pub is_leaf: bool,
    /// the statistics of the chain.
    pub data: StitchedSet,
}

/// The type of a chain: "end2end", "partial", "unrooted-leaf" or "floating".
pub open spec fn chain_type_of(rooted: bool, is_leaf: bool) -> Seq<char> {
    if rooted && is_leaf {
        "end2end"@
    } else if rooted {
        "partial"@
    } else if is_leaf {
        "unrooted-leaf"@
    } else {
        "floating"@
    }
}

/// `r` is what selecting columns makes of the call-chain `ccd`, when `p` is what the
/// selection made of its statistics: nothing when nothing was left, else the chain with
/// the selected statistics.
pub open spec fn chain_selected(ccd: CallChainData, p: Option<StitchedSet>, r: Option<CallChainData>) -> bool {
    match p {
        None => r is None,
        Some(d) => r matches Some(c) && c.full_key@ == ccd.full_key@ && c.inbound_process_key@
            == ccd.inbound_process_key@ && c.rooted == ccd.rooted && c.is_leaf == ccd.is_leaf && c.data == d,
    }
}

/// `r` is a possible result of selecting the columns `selection` of the call-chain `ccd`,
/// the statistics being selected by `select`.
pub open spec fn chain_pick<F: Fn(&StitchedSet, &Vec<bool>) -> Option<StitchedSet>>(
    select: F,
    selection: Vec<bool>,
    ccd: CallChainData,
    r: Option<CallChainData>,
) -> bool {
    exists|p: Option<StitchedSet>| select.ensures((&ccd.data, &selection), p) && chain_selected(ccd, p, r)
}

/// Selecting columns keeps what a chain is: a chain that is kept has the key, the inbound
/// key and the rooted and leaf flags of the chain it was selected from.
pub proof fn law_selection_keeps_chain(ccd: CallChainData, p: Option<StitchedSet>, r: Option<CallChainData>)
    requires
        chain_selected(ccd, p, r),
    ensures
        r matches Some(c) ==> c.full_key@ == ccd.full_key@ && c.inbound_process_key@ == ccd.inbound_process_key@
            && c.rooted == ccd.rooted && c.is_leaf == ccd.is_leaf,
        r is Some <==> p is Some,
{
}

/// A chain picked by a column selection keeps the key, the inbound key and the rooted and
/// leaf flags of the chain it was picked from.
pub proof fn law_pick_keeps_chain<F: Fn(&StitchedSet, &Vec<bool>) -> Option<StitchedSet>>(
    select: F,
    selection: Vec<bool>,
    ccd: CallChainData,
    r: Option<CallChainData>,
)
    requires
        chain_pick(select, selection, ccd, r),
    ensures
        r matches Some(c) ==> c.full_key@ == ccd.full_key@ && c.inbound_process_key@ == ccd.inbound_process_key@
            && c.rooted == ccd.rooted && c.is_leaf == ccd.is_leaf,
{
    let p = choose|p: Option<StitchedSet>| select.ensures((&ccd.data, &selection), p) && chain_selected(ccd, p, r);
    law_selection_keeps_chain(ccd, p, r);
}

impl CallChainData {
    pub fn new(
        full_key: String,
        inbound_process_key: String,
        rooted: bool,
        is_leaf: bool,
        data: StitchedSet,
    ) -> (r: Self)
        ensures
            r.full_key == full_key,
            r.inbound_process_key == inbound_process_key,
            r.rooted == rooted,
            r.is_leaf == is_leaf,
            r.data == data,
    {
        Self { full_key, inbound_process_key, rooted, is_leaf, data }
    }

    /// The type of this chain, determined by whether it is rooted and whether it ends at a leaf.
    pub fn chain_type(&self) -> (r: &'static str)
        ensures
            r@ == chain_type_of(self.rooted, self.is_leaf),
    {
        match (self.rooted, self.is_leaf) {
            (true, true) => "end2end",
            (true, false) => "partial",
            (false, true) => "unrooted-leaf",
            (false, false) => "floating",
        }
    }

    /// This call-chain restricted to the columns `selection`, where `select` restricts
    /// its statistics; `None` when no statistics are left.
    pub fn get_selection<F: Fn(&StitchedSet, &Vec<bool>) -> Option<StitchedSet>>(
        &self,
        selection: &Vec<bool>,
        select: &F,
    ) -> (r: Option<CallChainData>)
        requires
            forall|x: &StitchedSet, y: &Vec<bool>| select.requires((x, y)),
        ensures
            chain_pick(*select, *selection, *self, r),
            r matches Some(c) ==> c.full_key@ == self.full_key@ && c.inbound_process_key@ == self.inbound_process_key@
                && c.rooted == self.rooted && c.is_leaf == self.is_leaf,
    {
        let p = select(&self.data, selection);
        let ghost pg = p;
        let r = match p {
            Some(data) => Some(CallChainData {
                full_key: self.full_key.clone(),
                inbound_process_key: self.inbound_process_key.clone(),
                rooted: self.rooted,
                is_leaf: self.is_leaf,
                data,
            }),
            None => None,
        };
        assert(chain_selected(*self, pg, r));
        r
    }
}

} // verus!
