//! Index of the inbound prefixes of the call-chains that end in one service/operation.
use super::super::call_chain_data::CallChainData;
use super::super::stitched::Stitched;
use crate::text::{byte_len, is_prefix, lemma_prefix_byte_len, split_exec, split_on, starts_with, str_eq, trim_str, trimmed};
use vstd::prelude::*;
use vstd::string::*;

verus! {

pub struct InboundPrefixIdxItem {
    pub prefix: String,
    pub idx: i64,
}

/// Maps inbound prefixes to the (1-based) index of a call-chain, longest prefixes first.
pub struct InboundPrefixIdx(Vec<InboundPrefixIdxItem>);


/// The index recorded for prefix `p` among the entries with leaf-flag `leaf`: that of the last such entry.
pub open spec fn last_idx(items: Seq<(bool, Seq<char>, i64)>, p: Seq<char>, leaf: bool) -> Option<i64>
    decreases items.len(),
{
    if items.len() == 0 {
        None
    } else if items.last().0 == leaf && items.last().1 == p {
        Some(items.last().2)
    } else {
        last_idx(items.drop_last(), p, leaf)
    }
}

/// The index of prefix `p`: the last non-leaf chain with that prefix wins; if there is none, the last leaf chain.
pub open spec fn prefix_index(items: Seq<(bool, Seq<char>, i64)>, p: Seq<char>) -> Option<i64> {
    match last_idx(items, p, false) {
        Some(i) => Some(i),
        None => last_idx(items, p, true),
    }
}

/// The prefixes of a list of entries.
pub open spec fn keys_of(v: Seq<(Seq<char>, i64)>) -> Seq<Seq<char>> {
    Seq::new(v.len(), |k: int| v[k].0)
}

/// `v` holds each prefix at most once, and holds exactly the prefixes on which `f` is defined, with their values.
pub open spec fn represents(v: Seq<(Seq<char>, i64)>, f: spec_fn(Seq<char>) -> Option<i64>) -> bool {
    &&& forall|a: int, b: int| 0 <= a < b < v.len() ==> (#[trigger] v[a]).0 != (#[trigger] v[b]).0
    &&& forall|k: int| 0 <= k < v.len() ==> f((#[trigger] v[k]).0) == Some(v[k].1)
    &&& forall|p: Seq<char>| (#[trigger] f(p)) is Some ==> keys_of(v).contains(p)
}

/// The entries are ordered on non-increasing prefix length, counted in UTF-8 bytes.
pub open spec fn longest_first(v: Seq<(Seq<char>, i64)>) -> bool {
    forall|a: int, b: int| 0 <= a < b < v.len() ==> byte_len((#[trigger] v[a]).0) >= byte_len((#[trigger] v[b]).0)
}

fn item_view(it: &InboundPrefixIdxItem) -> (r: (Ghost<Seq<char>>, i64))
    ensures
        r.0@ == it.prefix@,
        r.1 == it.idx,
{
    (Ghost(it.prefix@), it.idx)
}

impl InboundPrefixIdx {
    /// The entries as (prefix, index) pairs.
    pub closed spec fn view(&self) -> Seq<(Seq<char>, i64)> {
        Seq::new(self.0@.len(), |k: int| (self.0@[k].prefix@, self.0@[k].idx))
    }

    /// Build the index from (is_leaf, prefix, index) entries: each prefix gets the index of the last
    /// non-leaf entry with that prefix, or else that of the last leaf entry; longest prefixes first.
    pub fn from_items(items: Vec<(bool, String, i64)>) -> (r: Self)
        ensures
            represents(r.view(), |p: Seq<char>| prefix_index(item_views(items@), p)),
            longest_first(r.view()),
    {
        let ghost iv = item_views(items@);
        // the map as an unordered list: leaf entries first, then non-leaf entries overwrite.
        let mut map: Vec<(String, i64)> = Vec::new();
        let mut i: usize = 0;
        while i < items.len()
            invariant
                i <= items.len(),
                iv == item_views(items@),
                represents(pair_views(map@), |p: Seq<char>| last_idx(iv.take(i as int), p, true)),
            decreases items.len() - i,
        {
            let ghost f_old = |p: Seq<char>| last_idx(iv.take(i as int), p, true);
            assert(iv.take(i + 1).drop_last() =~= iv.take(i as int));
            if items[i].0 {
                upsert(&mut map, &items[i].1, items[i].2, Ghost(f_old));
                assert(represents(pair_views(map@), |p: Seq<char>| last_idx(iv.take(i + 1), p, true))) by {
                    lemma_represents_ext(pair_views(map@), |p: Seq<char>| if p == items@[i as int].1@ { Some(items@[i as int].2) } else { f_old(p) }, |p: Seq<char>| last_idx(iv.take(i + 1), p, true));
                }
            } else {
                assert(represents(pair_views(map@), |p: Seq<char>| last_idx(iv.take(i + 1), p, true))) by {
                    lemma_represents_ext(pair_views(map@), f_old, |p: Seq<char>| last_idx(iv.take(i + 1), p, true));
                }
            }
            i = i + 1;
        }
        assert(iv.take(items.len() as int) =~= iv);
        assert(represents(pair_views(map@), |p: Seq<char>| match last_idx(iv.take(0), p, false) {
            Some(x) => Some(x),
            None => last_idx(iv, p, true),
        })) by {
            lemma_represents_ext(pair_views(map@), |p: Seq<char>| last_idx(iv.take(items.len() as int), p, true), |p: Seq<char>| match last_idx(iv.take(0), p, false) {
                Some(x) => Some(x),
                None => last_idx(iv, p, true),
            });
        }
        let mut j: usize = 0;
        while j < items.len()
            invariant
                j <= items.len(),
                iv == item_views(items@),
                represents(pair_views(map@), |p: Seq<char>| match last_idx(iv.take(j as int), p, false) {
                    Some(x) => Some(x),
                    None => last_idx(iv, p, true),
                }),
            decreases items.len() - j,
        {
            let ghost f_old = |p: Seq<char>| match last_idx(iv.take(j as int), p, false) {
                Some(x) => Some(x),
                None => last_idx(iv, p, true),
            };
            let ghost f_new = |p: Seq<char>| match last_idx(iv.take(j + 1), p, false) {
                Some(x) => Some(x),
                None => last_idx(iv, p, true),
            };
            assert(iv.take(j + 1).drop_last() =~= iv.take(j as int));
            if !items[j].0 {
                upsert(&mut map, &items[j].1, items[j].2, Ghost(f_old));
                assert(represents(pair_views(map@), f_new)) by {
                    lemma_represents_ext(pair_views(map@), |p: Seq<char>| if p == items@[j as int].1@ { Some(items@[j as int].2) } else { f_old(p) }, f_new);
                }
            } else {
                assert(represents(pair_views(map@), f_new)) by {
                    lemma_represents_ext(pair_views(map@), f_old, f_new);
                }
            }
            j = j + 1;
        }
        assert(iv.take(items.len() as int) =~= iv);
        let ghost f = |p: Seq<char>| prefix_index(iv, p);
        assert(represents(pair_views(map@), f)) by {
            lemma_represents_ext(pair_views(map@), |p: Seq<char>| match last_idx(iv.take(items.len() as int), p, false) {
                Some(x) => Some(x),
                None => last_idx(iv, p, true),
            }, f);
        }
        // order the entries on non-increasing prefix length (stable insertion).
        let mut sorted: Vec<InboundPrefixIdxItem> = Vec::new();
        let mut lens: Vec<usize> = Vec::new();
        let ghost mv = pair_views(map@);
        let mut k: usize = 0;
        while k < map.len()
            invariant
                k <= map.len(),
                mv == pair_views(map@),
                represents(mv, f),
                lens@.len() == sorted@.len(),
                forall|a: int| 0 <= a < lens@.len() ==> lens@[a] == byte_len((#[trigger] sorted@[a]).prefix@),
                longest_first(item_seq(sorted@)),
                forall|a: int, b: int| 0 <= a < b < sorted@.len() ==> (#[trigger] item_seq(sorted@)[a]).0 != (#[trigger] item_seq(sorted@)[b]).0,
                forall|e: (Seq<char>, i64)| item_seq(sorted@).contains(e) <==> mv.take(k as int).contains(e),
            decreases map.len() - k,
        {
            let plen = map[k].0.as_str().as_bytes().len();
            let mut pos: usize = 0;
            while pos < lens.len() && lens[pos] >= plen
                invariant
                    pos <= lens@.len(),
                    forall|a: int| 0 <= a < pos ==> lens@[a] >= plen,
                decreases lens.len() - pos,
            {
                pos = pos + 1;
            }
            let ghost old_s = item_seq(sorted@);
            let ghost old_lens = lens@;
            assert(pos == old_lens.len() || old_lens[pos as int] < plen);
            let ghost e = mv[k as int];
            let item = InboundPrefixIdxItem { prefix: map[k].0.clone(), idx: map[k].1 };
            sorted.insert(pos, item);
            lens.insert(pos, plen);
            proof {
                assert(item_seq(sorted@) =~= old_s.insert(pos as int, e));
                assert(mv.take(k + 1) =~= mv.take(k as int).push(e));
                lemma_insert_contains(old_s, pos as int, e);
                lemma_push_contains(mv.take(k as int), e);
                assert(plen == byte_len(e.0));
                // the new prefix differs from all earlier ones, which come from other entries of mv.
                assert forall|b: int| 0 <= b < old_s.len() implies old_s[b].0 != e.0 by {
                    assert(old_s.contains(old_s[b]));
                    assert(mv.take(k as int).contains(old_s[b]));
                    let t = choose|t: int| 0 <= t < k && mv.take(k as int)[t] == old_s[b];
                    assert(mv[t] == old_s[b]);
                }
                assert forall|x: (Seq<char>, i64)| item_seq(sorted@).contains(x) <==> mv.take(k + 1).contains(x) by {
                    assert(old_s.contains(x) <==> mv.take(k as int).contains(x));
                    assert(item_seq(sorted@).contains(x) <==> (old_s.contains(x) || x == e));
                    assert(mv.take(k + 1).contains(x) <==> (mv.take(k as int).contains(x) || x == e));
                }
                let ns = item_seq(sorted@);
                assert forall|a: int, b: int| 0 <= a < b < ns.len() implies (#[trigger] ns[a]).0 != (#[trigger] ns[b]).0 by {
                    if a < pos && b < pos {
                        assert(ns[a] == old_s[a] && ns[b] == old_s[b]);
                    } else if a < pos && b == pos {
                        assert(ns[a] == old_s[a]);
                    } else if a < pos {
                        assert(ns[a] == old_s[a] && ns[b] == old_s[b - 1]);
                    } else if a == pos {
                        assert(ns[b] == old_s[b - 1]);
                    } else {
                        assert(ns[a] == old_s[a - 1] && ns[b] == old_s[b - 1]);
                    }
                }
                assert forall|a: int, b: int| 0 <= a < b < ns.len() implies byte_len((#[trigger] ns[a]).0) >= byte_len((#[trigger] ns[b]).0) by {
                    if a < pos && b < pos {
                        assert(ns[a] == old_s[a] && ns[b] == old_s[b]);
                    } else if a < pos && b == pos {
                        assert(ns[a] == old_s[a]);
                        assert(old_lens[a] >= plen);
                    } else if a < pos {
                        assert(ns[a] == old_s[a] && ns[b] == old_s[b - 1]);
                    } else if a == pos {
                        assert(ns[b] == old_s[b - 1]);
                        assert(old_lens[pos as int] < plen);
                        assert(byte_len(old_s[pos as int].0) >= byte_len(old_s[b - 1].0));
                    } else {
                        assert(ns[a] == old_s[a - 1] && ns[b] == old_s[b - 1]);
                    }
                }
            }
            k = k + 1;
        }
        assert(mv.take(map.len() as int) =~= mv);
        let r = InboundPrefixIdx(sorted);
        proof {
            assert(r.view() =~= item_seq(r.0@));
            lemma_represents_same_elements(mv, r.view(), f);
        }
        r
    }

    /// Build the index of the inbound prefixes for the call-chains that end in `proc_oper`: the prefix of
    /// a chain is the trimmed part of its full key before the first '&', and its index is its 1-based
    /// position in the (first) section of `proc_oper`.
    pub fn new(data: &Stitched, proc_oper: &str) -> (r: Self)
        requires
            index_ready(data.call_chain@, proc_oper@),
        ensures
            forall|s: int|
                #[trigger] is_first_section(data.call_chain@, proc_oper@, s) ==> represents(
                    r.view(),
                    |p: Seq<char>| prefix_index(section_items(data.call_chain@[s].1@), p),
                ),
            longest_first(r.view()),
    {
        let mut s: usize = 0;
        while s < data.call_chain.len() && !str_eq(data.call_chain[s].0.as_str(), proc_oper)
            invariant
                s <= data.call_chain@.len(),
                forall|t: int| 0 <= t < s ==> (#[trigger] data.call_chain@[t]).0@ != proc_oper@,
            decreases data.call_chain.len() - s,
        {
            s = s + 1;
        }
        if s == data.call_chain.len() {
            proof {
                let t = choose|t: int| 0 <= t < data.call_chain@.len() && (#[trigger] data.call_chain@[t]).0@ == proc_oper@;
                assert(data.call_chain@[t].0@ != proc_oper@);
            }
        }
        assert(is_first_section(data.call_chain@, proc_oper@, s as int));
        let ccds: &Vec<CallChainData> = &data.call_chain[s].1;
        let mut items: Vec<(bool, String, i64)> = Vec::new();
        let mut k: usize = 0;
        while k < ccds.len()
            invariant
                k <= ccds@.len(),
                ccds == &data.call_chain@[s as int].1,
                forall|j: int| 0 <= j < ccds@.len() ==> split_on((#[trigger] ccds@[j]).full_key@, '&').len() == 3,
                item_views(items@) == section_items(ccds@).take(k as int),
            decreases ccds.len() - k,
        {
            let parts = split_exec(ccds[k].full_key.as_str(), '&');
            assert(crate::text::views(parts@)[0] == parts@[0]@);
            let prefix = trim_str(parts[0].as_str());
            let ghost old_items = items@;
            items.push((ccds[k].is_leaf, prefix, (k + 1) as i64));
            assert(item_views(items@) =~= item_views(old_items).push(section_items(ccds@)[k as int]));
            assert(section_items(ccds@).take(k + 1) =~= section_items(ccds@).take(k as int).push(section_items(ccds@)[k as int]));
            k = k + 1;
        }
        assert(section_items(ccds@).take(ccds.len() as int) =~= section_items(ccds@));
        let r = Self::from_items(items);
        proof {
            assert forall|t: int| #[trigger] is_first_section(data.call_chain@, proc_oper@, t) implies t == s by {
                if t < s {
                } else if t > s {
                    assert(data.call_chain@[s as int].0@ == proc_oper@);
                }
            }
        }
        r
    }

    /// The entries are ordered longest prefix first and hold each prefix once.
    #[verifier::type_invariant]
    closed spec fn inv(self) -> bool {
        &&& longest_first(item_seq(self.0@))
        &&& forall|a: int, b: int|
            0 <= a < b < self.0@.len() ==> (#[trigger] item_seq(self.0@)[a]).0 != (#[trigger] item_seq(
                self.0@,
            )[b]).0
    }

    /// The index of the longest recorded prefix of `full_key`, or 0 when no recorded prefix matches.
    pub fn get_idx(&self, full_key: &str) -> (r: i64)
        ensures
            (forall|k: int| 0 <= k < self.view().len() ==> !is_prefix(#[trigger] self.view()[k].0, full_key@))
                ==> r == 0,
            (exists|k: int| 0 <= k < self.view().len() && is_prefix(#[trigger] self.view()[k].0, full_key@))
                ==> exists|k: int|
                0 <= k < self.view().len() && is_prefix(#[trigger] self.view()[k].0, full_key@)
                    && r == self.view()[k].1 && forall|k2: int|
                    0 <= k2 < self.view().len() && is_prefix(#[trigger] self.view()[k2].0, full_key@)
                        ==> self.view()[k2].0.len() <= self.view()[k].0.len(),
    {
        proof {
            use_type_invariant(self);
        }
        let ghost v = self.view();
        assert(v =~= item_seq(self.0@));
        let mut i: usize = 0;
        while i < self.0.len()
            invariant
                i <= self.0@.len(),
                v == self.view(),
                v.len() == self.0@.len(),
                forall|k: int| 0 <= k < v.len() ==> (#[trigger] v[k]) == (self.0@[k].prefix@, self.0@[k].idx),
                longest_first(v),
                forall|k: int| 0 <= k < i ==> !is_prefix(#[trigger] v[k].0, full_key@),
            decreases self.0.len() - i,
        {
            if starts_with(full_key, self.0[i].prefix.as_str()) {
                proof {
                    assert forall|k2: int|
                        0 <= k2 < v.len() && is_prefix(#[trigger] v[k2].0, full_key@) implies v[k2].0.len()
                        <= v[i as int].0.len() by {
                        if k2 < i {
                        } else if k2 > i {
                            assert(byte_len(v[i as int].0) >= byte_len(v[k2].0));
                            if v[k2].0.len() > v[i as int].0.len() {
                                assert(is_prefix(v[i as int].0, v[k2].0)) by {
                                    assert(v[k2].0.subrange(0, v[i as int].0.len() as int) =~= full_key@.subrange(0, v[i as int].0.len() as int));
                                }
                                lemma_prefix_byte_len(v[i as int].0, v[k2].0);
                            }
                        }
                    }
                }
                return self.0[i].idx;
            }
            i = i + 1;
        }
        0
    }
}

/// Some section of `cc` is keyed by `po`, and every full key in the first such section
/// has exactly three parts separated by '&'.
pub open spec fn index_ready(cc: Seq<(String, Vec<CallChainData>)>, po: Seq<char>) -> bool {
    &&& exists|s: int| 0 <= s < cc.len() && (#[trigger] cc[s]).0@ == po
    &&& forall|s: int|
        #[trigger] is_first_section(cc, po, s) ==> forall|k: int|
            0 <= k < cc[s].1@.len() ==> split_on((#[trigger] cc[s].1@[k]).full_key@, '&').len() == 3
}

/// The index recorded for the longest prefix of `key` among the (is_leaf, prefix, index)
/// entries `items`, as `prefix_index` records them; 0 when no recorded prefix matches.
pub open spec fn longest_prefix_index(items: Seq<(bool, Seq<char>, i64)>, key: Seq<char>) -> i64 {
    if exists|p: Seq<char>| #[trigger] is_prefix(p, key) && prefix_index(items, p) is Some {
        let p = choose|p: Seq<char>|
            #[trigger] is_prefix(p, key) && prefix_index(items, p) is Some && forall|q: Seq<char>|
                #[trigger] is_prefix(q, key) && prefix_index(items, q) is Some ==> q.len() <= p.len();
        prefix_index(items, p)->0
    } else {
        0
    }
}

/// What `get_idx` returns on an index that represents the entries `items` is the index of
/// the longest recorded prefix.
pub proof fn lemma_get_idx_longest(v: Seq<(Seq<char>, i64)>, items: Seq<(bool, Seq<char>, i64)>, key: Seq<char>, r: i64)
    requires
        represents(v, |p: Seq<char>| prefix_index(items, p)),
        (forall|k: int| 0 <= k < v.len() ==> !is_prefix(#[trigger] v[k].0, key)) ==> r == 0,
        (exists|k: int| 0 <= k < v.len() && is_prefix(#[trigger] v[k].0, key)) ==> exists|k: int|
            0 <= k < v.len() && is_prefix(#[trigger] v[k].0, key) && r == v[k].1 && forall|k2: int|
                0 <= k2 < v.len() && is_prefix(#[trigger] v[k2].0, key) ==> v[k2].0.len() <= v[k].0.len(),
    ensures
        r == longest_prefix_index(items, key),
{
    let f = |p: Seq<char>| prefix_index(items, p);
    if exists|k: int| 0 <= k < v.len() && is_prefix(#[trigger] v[k].0, key) {
        let k = choose|k: int|
            0 <= k < v.len() && is_prefix(#[trigger] v[k].0, key) && r == v[k].1 && forall|k2: int|
                0 <= k2 < v.len() && is_prefix(#[trigger] v[k2].0, key) ==> v[k2].0.len() <= v[k].0.len();
        let pk = v[k].0;
        assert(f(pk) == Some(v[k].1));
        assert forall|q: Seq<char>| #[trigger] is_prefix(q, key) && prefix_index(items, q) is Some implies q.len() <= pk.len() by {
            assert(f(q) is Some);
            assert(keys_of(v).contains(q));
            let k2 = choose|k2: int| 0 <= k2 < keys_of(v).len() && keys_of(v)[k2] == q;
            assert(v[k2].0 == q);
        }
        assert(is_prefix(pk, key) && prefix_index(items, pk) is Some);
        let p = choose|p: Seq<char>|
            #[trigger] is_prefix(p, key) && prefix_index(items, p) is Some && forall|q: Seq<char>|
                #[trigger] is_prefix(q, key) && prefix_index(items, q) is Some ==> q.len() <= p.len();
        assert(p.len() <= pk.len());
        assert(pk.len() <= p.len());
        assert(p =~= pk) by {
            assert(p == key.subrange(0, p.len() as int));
            assert(pk == key.subrange(0, pk.len() as int));
        }
    } else {
        assert forall|p: Seq<char>| #[trigger] is_prefix(p, key) implies prefix_index(items, p) is None by {
            if prefix_index(items, p) is Some {
                assert(f(p) is Some);
                assert(keys_of(v).contains(p));
                let k2 = choose|k2: int| 0 <= k2 < keys_of(v).len() && keys_of(v)[k2] == p;
                assert(v[k2].0 == p);
            }
        }
    }
}

/// `s` is the first section of `cc` keyed by `po`.
pub open spec fn is_first_section(cc: Seq<(String, Vec<CallChainData>)>, po: Seq<char>, s: int) -> bool {
    &&& 0 <= s < cc.len()
    &&& cc[s].0@ == po
    &&& forall|t: int| 0 <= t < s ==> (#[trigger] cc[t]).0@ != po
}

/// The (is_leaf, prefix, 1-based index) entries of the call-chains of one section.
pub open spec fn section_items(ccds: Seq<CallChainData>) -> Seq<(bool, Seq<char>, i64)> {
    Seq::new(
        ccds.len(),
        |k: int| (ccds[k].is_leaf, trimmed(split_on(ccds[k].full_key@, '&')[0]), (k + 1) as i64),
    )
}

/// The (is_leaf, prefix, index) entries as plain values.
pub open spec fn item_views(v: Seq<(bool, String, i64)>) -> Seq<(bool, Seq<char>, i64)> {
    Seq::new(v.len(), |k: int| (v[k].0, v[k].1@, v[k].2))
}

/// The (prefix, index) pairs as plain values.
pub open spec fn pair_views(v: Seq<(String, i64)>) -> Seq<(Seq<char>, i64)> {
    Seq::new(v.len(), |k: int| (v[k].0@, v[k].1))
}

/// The items as (prefix, index) pairs.
pub open spec fn item_seq(v: Seq<InboundPrefixIdxItem>) -> Seq<(Seq<char>, i64)> {
    Seq::new(v.len(), |k: int| (v[k].prefix@, v[k].idx))
}

/// Insert `p -> x` into the list `map`, overwriting the entry of `p` if it exists.
fn upsert(map: &mut Vec<(String, i64)>, p: &String, x: i64, Ghost(f): Ghost<spec_fn(Seq<char>) -> Option<i64>>)
    requires
        represents(pair_views(old(map)@), f),
    ensures
        represents(pair_views(final(map)@), |q: Seq<char>| if q == p@ { Some(x) } else { f(q) }),
{
    let ghost g = |q: Seq<char>| if q == p@ { Some(x) } else { f(q) };
    let mut k: usize = 0;
    while k < map.len()
        invariant
            k <= map.len(),
            map@ == old(map)@,
            represents(pair_views(map@), f),
            forall|a: int| 0 <= a < k ==> (#[trigger] map@[a]).0@ != p@,
        decreases map.len() - k,
    {
        if map[k].0 == *p {
            let ghost g = |q: Seq<char>| if q == p@ { Some(x) } else { f(q) };
            let ghost old_v = pair_views(map@);
            map.set(k, (p.clone(), x));
            proof {
                let nv = pair_views(map@);
                assert(nv =~= old_v.update(k as int, (p@, x)));
                assert forall|q: Seq<char>| (#[trigger] g(q)) is Some implies keys_of(nv).contains(q) by {
                    if q == p@ {
                        assert(keys_of(nv)[k as int] == q);
                    } else {
                        assert(f(q) is Some);
                        assert(keys_of(old_v).contains(q));
                        let t = choose|t: int| 0 <= t < keys_of(old_v).len() && keys_of(old_v)[t] == q;
                        assert(keys_of(nv)[t] == q);
                    }
                }
                assert forall|a: int, b: int| 0 <= a < b < nv.len() implies (#[trigger] nv[a]).0 != (#[trigger] nv[b]).0 by {
                    if a != k && b != k {
                        assert(nv[a] == old_v[a] && nv[b] == old_v[b]);
                    } else if a == k {
                        assert(nv[b] == old_v[b]);
                        assert(old_v[a].0 == p@);
                    } else {
                        assert(nv[a] == old_v[a]);
                        assert(old_v[b].0 == p@);
                    }
                }
                assert forall|c: int| 0 <= c < nv.len() implies g((#[trigger] nv[c]).0) == Some(nv[c].1) by {
                    if c != k {
                        assert(nv[c] == old_v[c]);
                        assert(old_v[c].0 != old_v[k as int].0);
                    }
                }
            }
            return;
        }
        k = k + 1;
    }
    let ghost old_v = pair_views(map@);
    map.push((p.clone(), x));
    proof {
        let nv = pair_views(map@);
        assert(nv =~= old_v.push((p@, x)));
        assert forall|q: Seq<char>| (#[trigger] g(q)) is Some implies keys_of(nv).contains(q) by {
            if q == p@ {
                assert(keys_of(nv)[old_v.len() as int] == q);
            } else {
                let t = choose|t: int| 0 <= t < keys_of(old_v).len() && keys_of(old_v)[t] == q;
                assert(keys_of(nv)[t] == q);
            }
        }
        assert forall|a: int, b: int| 0 <= a < b < nv.len() implies (#[trigger] nv[a]).0 != (#[trigger] nv[b]).0 by {
            if b < old_v.len() {
                assert(nv[a] == old_v[a] && nv[b] == old_v[b]);
            } else {
                assert(nv[a] == old_v[a]);
                assert(map@[a].0@ != p@);
            }
        }
        assert forall|c: int| 0 <= c < nv.len() implies g((#[trigger] nv[c]).0) == Some(nv[c].1) by {
            if c < old_v.len() {
                assert(nv[c] == old_v[c]);
                assert(map@[c].0@ != p@);
            }
        }
    }
}

/// `represents` only depends on the values of the function.
pub proof fn lemma_represents_ext(
    v: Seq<(Seq<char>, i64)>,
    f: spec_fn(Seq<char>) -> Option<i64>,
    g: spec_fn(Seq<char>) -> Option<i64>,
)
    requires
        represents(v, f),
        forall|p: Seq<char>| #[trigger] f(p) == g(p),
    ensures
        represents(v, g),
{
    assert forall|p: Seq<char>| (#[trigger] g(p)) is Some implies keys_of(v).contains(p) by {
        assert(f(p) is Some);
    }
}

/// Pushing onto a sequence adds exactly the pushed element.
pub proof fn lemma_push_contains<A>(s: Seq<A>, e: A)
    ensures
        forall|x: A| s.push(e).contains(x) <==> (s.contains(x) || x == e),
{
    let t = s.push(e);
    assert forall|x: A| t.contains(x) <==> (s.contains(x) || x == e) by {
        if t.contains(x) {
            let i = choose|i: int| 0 <= i < t.len() && t[i] == x;
            if i < s.len() {
                assert(s[i] == x);
            }
        }
        if s.contains(x) {
            let i = choose|i: int| 0 <= i < s.len() && s[i] == x;
            assert(t[i] == x);
        }
        if x == e {
            assert(t[s.len() as int] == x);
        }
    }
}

/// Inserting into a sequence adds exactly the inserted element.
pub proof fn lemma_insert_contains<A>(s: Seq<A>, pos: int, e: A)
    requires
        0 <= pos <= s.len(),
    ensures
        forall|x: A| s.insert(pos, e).contains(x) <==> (s.contains(x) || x == e),
{
    let t = s.insert(pos, e);
    assert forall|x: A| t.contains(x) <==> (s.contains(x) || x == e) by {
        if t.contains(x) {
            let i = choose|i: int| 0 <= i < t.len() && t[i] == x;
            if i < pos {
                assert(s[i] == x);
            } else if i > pos {
                assert(s[i - 1] == x);
            }
        }
        if s.contains(x) {
            let i = choose|i: int| 0 <= i < s.len() && s[i] == x;
            if i < pos {
                assert(t[i] == x);
            } else {
                assert(t[i + 1] == x);
            }
        }
        if x == e {
            assert(t[pos] == x);
        }
    }
}

/// A list with distinct prefixes and the same elements as a list representing `f` also represents `f`.
pub proof fn lemma_represents_same_elements(
    v: Seq<(Seq<char>, i64)>,
    w: Seq<(Seq<char>, i64)>,
    f: spec_fn(Seq<char>) -> Option<i64>,
)
    requires
        represents(v, f),
        forall|a: int, b: int| 0 <= a < b < w.len() ==> (#[trigger] w[a]).0 != (#[trigger] w[b]).0,
        forall|e: (Seq<char>, i64)| w.contains(e) <==> v.contains(e),
    ensures
        represents(w, f),
{
    assert forall|k: int| 0 <= k < w.len() implies f((#[trigger] w[k]).0) == Some(w[k].1) by {
        assert(w.contains(w[k]));
        let t = choose|t: int| 0 <= t < v.len() && v[t] == w[k];
        assert(f(v[t].0) == Some(v[t].1));
    }
    assert forall|p: Seq<char>| (#[trigger] f(p)) is Some implies keys_of(w).contains(p) by {
        let t = choose|t: int| 0 <= t < keys_of(v).len() && keys_of(v)[t] == p;
        assert(v.contains(v[t]));
        let u = choose|u: int| 0 <= u < w.len() && w[u] == v[t];
        assert(keys_of(w)[u] == p);
    }
}

} // verus!
