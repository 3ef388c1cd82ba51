//! Ranking a list of services or call-chains by their keys.
use crate::order::{lemma_lex_asymmetric, lemma_lex_irreflexive, lemma_lex_total, lemma_lex_transitive, lex_lt, str_lt};
use crate::text::views;
use vstd::prelude::*;

verus! {

/// `order` holds each position below `n` exactly once.
pub open spec fn is_arrangement(order: Seq<usize>, n: nat) -> bool {
    &&& order.len() == n
    &&& forall|a: int| 0 <= a < order.len() ==> (#[trigger] order[a]) < n
    &&& forall|a: int, b: int| 0 <= a < b < order.len() ==> (#[trigger] order[a]) != (#[trigger] order[b])
}

/// `order` lists positions of `keys` in lexicographic order of their keys, positions with
/// equal keys in increasing order (the result of a stable sort).
pub open spec fn stably_sorted(keys: Seq<Seq<char>>, order: Seq<usize>) -> bool {
    &&& forall|a: int, b: int|
        0 <= a < b < order.len() ==> !lex_lt(keys[(#[trigger] order[b]) as int], keys[(#[trigger] order[a]) as int])
    &&& forall|a: int, b: int|
        0 <= a < b < order.len() && keys[(#[trigger] order[a]) as int] == keys[(#[trigger] order[b]) as int]
            ==> order[a] < order[b]
}

/// The positions of `keys` sorted (stably) by their keys.
pub fn lexicographic_order(keys: &Vec<String>) -> (r: Vec<usize>)
    ensures
        is_arrangement(r@, keys@.len()),
        stably_sorted(views(keys@), r@),
{
    let ghost ks = views(keys@);
    let mut order: Vec<usize> = Vec::new();
    let mut i: usize = 0;
    while i < keys.len()
        invariant
            i <= keys@.len(),
            ks == views(keys@),
            is_arrangement(order@, i as nat),
            stably_sorted(ks, order@),
        decreases keys.len() - i,
    {
        let mut pos: usize = 0;
        while pos < order.len() && !str_lt(keys[i].as_str(), keys[order[pos]].as_str())
            invariant
                pos <= order@.len(),
                i < keys@.len(),
                ks == views(keys@),
                is_arrangement(order@, i as nat),
                forall|a: int| 0 <= a < pos ==> !lex_lt(ks[i as int], ks[(#[trigger] order@[a]) as int]),
            decreases order.len() - pos,
        {
            pos = pos + 1;
        }
        let ghost old_o = order@;
        let ghost ki = ks[i as int];
        proof {
            assert forall|b: int| pos <= b < old_o.len() implies lex_lt(ki, ks[(#[trigger] old_o[b]) as int]) by {
                let kp = ks[old_o[pos as int] as int];
                let kb = ks[old_o[b] as int];
                assert(lex_lt(ki, kp));
                if b > pos {
                    assert(!lex_lt(kb, kp));
                    lemma_lex_total(kp, kb);
                    if kp != kb {
                        lemma_lex_transitive(ki, kp, kb);
                    }
                }
            }
        }
        order.insert(pos, i);
        proof {
            let no = order@;
            assert(no =~= old_o.insert(pos as int, i));
            assert forall|a: int| 0 <= a < no.len() implies (#[trigger] no[a]) < i + 1 by {
                if a < pos {
                    assert(no[a] == old_o[a]);
                } else if a > pos {
                    assert(no[a] == old_o[a - 1]);
                }
            }
            assert forall|a: int, b: int| 0 <= a < b < no.len() implies (#[trigger] no[a]) != (#[trigger] no[b]) by {
                if a < pos && b < pos {
                    assert(no[a] == old_o[a] && no[b] == old_o[b]);
                } else if a < pos && b == pos {
                    assert(no[a] == old_o[a]);
                } else if a < pos {
                    assert(no[a] == old_o[a] && no[b] == old_o[b - 1]);
                } else if a == pos {
                    assert(no[b] == old_o[b - 1]);
                } else {
                    assert(no[a] == old_o[a - 1] && no[b] == old_o[b - 1]);
                }
            }
            assert forall|a: int, b: int| 0 <= a < b < no.len() implies !lex_lt(
                ks[(#[trigger] no[b]) as int],
                ks[(#[trigger] no[a]) as int],
            ) by {
                if a < pos && b < pos {
                    assert(no[a] == old_o[a] && no[b] == old_o[b]);
                } else if a < pos && b == pos {
                    assert(no[a] == old_o[a]);
                } else if a < pos {
                    assert(no[a] == old_o[a] && no[b] == old_o[b - 1]);
                } else if a == pos {
                    assert(no[b] == old_o[b - 1]);
                    lemma_lex_asymmetric(ki, ks[old_o[b - 1] as int]);
                } else {
                    assert(no[a] == old_o[a - 1] && no[b] == old_o[b - 1]);
                }
            }
            assert forall|a: int, b: int|
                0 <= a < b < no.len() && ks[(#[trigger] no[a]) as int] == ks[(#[trigger] no[b]) as int]
                    implies no[a] < no[b] by {
                if a < pos && b < pos {
                    assert(no[a] == old_o[a] && no[b] == old_o[b]);
                } else if a < pos && b == pos {
                    assert(no[a] == old_o[a]);
                } else if a < pos {
                    assert(no[a] == old_o[a] && no[b] == old_o[b - 1]);
                } else if a == pos {
                    assert(no[b] == old_o[b - 1]);
                    lemma_lex_irreflexive(ki);
                } else {
                    assert(no[a] == old_o[a - 1] && no[b] == old_o[b - 1]);
                }
            }
        }
        i = i + 1;
    }
    order
}

/// An entry of a list ranked by key: the position of the item in the original list, its
/// number in the ranked list (from 1) and its rank (the length of the list for the first
/// entry, down to 1 for the last).
#[derive(Debug)]
pub struct KeyRank {
    pub item: usize,
    pub idx: i64,
    pub rank: usize,
}

/// The original positions of the ranked entries, in ranked order.
pub open spec fn items_of(r: Seq<KeyRank>) -> Seq<usize> {
    Seq::new(r.len(), |p: int| r[p].item)
}

/// Rank a list by its keys: the entries in lexicographic order of their keys (equal keys in
/// their original order), numbered from 1 and ranked from the length of the list down to 1.
pub fn rank_lexicographic(keys: &Vec<String>) -> (r: Vec<KeyRank>)
    requires
        keys@.len() < i64::MAX,
    ensures
        r@.len() == keys@.len(),
        is_arrangement(items_of(r@), keys@.len()),
        stably_sorted(views(keys@), items_of(r@)),
        forall|p: int| 0 <= p < r@.len() ==> (#[trigger] r@[p]).idx == p + 1 && r@[p].rank == keys@.len() - p,
{
    let order = lexicographic_order(keys);
    let n = keys.len();
    let mut r: Vec<KeyRank> = Vec::new();
    let mut p: usize = 0;
    while p < order.len()
        invariant
            p <= order@.len(),
            order@.len() == n,
            n == keys@.len(),
            n < i64::MAX,
            r@.len() == p,
            forall|q: int| 0 <= q < p ==> (#[trigger] r@[q]).item == order@[q] && r@[q].idx == q + 1 && r@[q].rank == n - q,
        decreases order.len() - p,
    {
        r.push(KeyRank { item: order[p], idx: (p + 1) as i64, rank: n - p });
        p = p + 1;
    }
    assert(items_of(r@) =~= order@);
    r
}

} // verus!
