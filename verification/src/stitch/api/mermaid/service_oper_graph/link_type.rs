//! The kind of a link in a diagram.
use vstd::prelude::*;

verus! {

/// The kind of a link; a more prominent kind dominates in a merge.
#[derive(Clone, Copy, Debug, PartialEq, Eq, Structural)]
pub enum LinkType {
    Default,
    Reachable,
    Emphasized,
}

/// The prominence of a link type: Default < Reachable < Emphasized.
pub open spec fn rank(l: LinkType) -> nat {
    match l {
        LinkType::Default => 0,
        LinkType::Reachable => 1,
        LinkType::Emphasized => 2,
    }
}

impl LinkType {
    /// The more prominent of two link types.
    pub fn merge(self, other: LinkType) -> (r: LinkType)
        ensures
            r == merged(self, other),
    {
        match (self, other) {
            (LinkType::Default, LinkType::Default) => LinkType::Default,
            (LinkType::Reachable, LinkType::Default) => LinkType::Reachable,
            (LinkType::Default, LinkType::Reachable) => LinkType::Reachable,
            (LinkType::Reachable, LinkType::Reachable) => LinkType::Reachable,
            (LinkType::Emphasized, _) => LinkType::Emphasized,
            (_, LinkType::Emphasized) => LinkType::Emphasized,
        }
    }
}

/// The merge of two link types, as a function on plain values.
pub open spec fn merged(a: LinkType, b: LinkType) -> LinkType {
    if rank(a) >= rank(b) { a } else { b }
}

/// Merging is commutative: the order of the two link types does not matter.
pub proof fn lemma_merge_commutative(a: LinkType, b: LinkType)
    ensures
        merged(a, b) == merged(b, a),
{
}

/// Merging is associative.
pub proof fn lemma_merge_associative(a: LinkType, b: LinkType, c: LinkType)
    ensures
        merged(merged(a, b), c) == merged(a, merged(b, c)),
{
}

/// Merging a link type with itself gives that link type.
pub proof fn lemma_merge_idempotent(a: LinkType)
    ensures
        merged(a, a) == a,
{
}

/// Default is neutral and Emphasized is absorbing.
pub proof fn lemma_merge_default_and_emphasized(a: LinkType)
    ensures
        merged(LinkType::Default, a) == a,
        merged(a, LinkType::Default) == a,
        merged(LinkType::Emphasized, a) == LinkType::Emphasized,
        merged(a, LinkType::Emphasized) == LinkType::Emphasized,
{
}

} // verus!
