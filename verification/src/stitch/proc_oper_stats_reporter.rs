//! The keys of the service/operation report: every (service, operation) pair that occurs
//! in any of the stitched analyses, once, in order.
use super::key::Key;
use crate::order::{lemma_lex_total, lemma_lex_transitive, lex_lt, str_lt};
use crate::stats::StatsRec;
use crate::text::str_eq;
use vstd::prelude::*;

verus! {

/// A key as a pair of character sequences: (process, operation).
pub open spec fn key_view(k: Key) -> (Seq<char>, Seq<char>) {
    (k.process@, k.operation@)
}

pub open spec fn key_views(keys: Seq<Key>) -> Seq<(Seq<char>, Seq<char>)> {
    keys.map_values(|k: Key| key_view(k))
}

/// `a` comes strictly before `b`: by process name, then by operation name (the order of
/// the derived `Ord` of `Key`).
pub open spec fn key_lt(a: (Seq<char>, Seq<char>), b: (Seq<char>, Seq<char>)) -> bool {
    lex_lt(a.0, b.0) || (a.0 == b.0 && lex_lt(a.1, b.1))
}

/// The keys are in strictly ascending order, so no key occurs twice.
pub open spec fn strictly_ascending(ks: Seq<(Seq<char>, Seq<char>)>) -> bool {
    forall|i: int, j: int| 0 <= i < j < ks.len() ==> key_lt(#[trigger] ks[i], #[trigger] ks[j])
}

/// Column `c` of `data` holds, for its service entry `e`, the operation number `k`, and
/// these are named `p` and `o`.
pub open spec fn entry_at(data: Seq<Option<StatsRec>>, c: int, e: int, k: int, p: Seq<char>, o: Seq<char>) -> bool {
    &&& 0 <= c < data.len()
    &&& data[c] is Some
    &&& 0 <= e < data[c]->0.stats@.len()
    &&& 0 <= k < data[c]->0.stats@[e].1.operation@.len()
    &&& data[c]->0.stats@[e].0@ == p
    &&& data[c]->0.stats@[e].1.operation@[k]@ == o
}

/// The pair (`p`, `o`) occurs as a service and one of its operations in `data`.
pub open spec fn occurs(data: Seq<Option<StatsRec>>, p: Seq<char>, o: Seq<char>) -> bool {
    exists|c: int, e: int, k: int| #[trigger] entry_at(data, c, e, k, p, o)
}

proof fn lemma_key_lt_transitive(a: (Seq<char>, Seq<char>), b: (Seq<char>, Seq<char>), c: (Seq<char>, Seq<char>))
    requires
        key_lt(a, b),
        key_lt(b, c),
    ensures
        key_lt(a, c),
{
    if lex_lt(a.0, b.0) && lex_lt(b.0, c.0) {
        lemma_lex_transitive(a.0, b.0, c.0);
    } else if a.0 == b.0 && b.0 == c.0 {
        lemma_lex_transitive(a.1, b.1, c.1);
    }
}

proof fn lemma_key_lt_total(a: (Seq<char>, Seq<char>), b: (Seq<char>, Seq<char>))
    ensures
        a == b || key_lt(a, b) || key_lt(b, a),
{
    lemma_lex_total(a.0, b.0);
    lemma_lex_total(a.1, b.1);
}

/// `keys` are the report keys of `data`: strictly ascending, each occurring in `data`,
/// and every (service, operation) pair of `data` among them.
pub open spec fn report_keys(data: Seq<Option<StatsRec>>, keys: Seq<Key>) -> bool {
    &&& strictly_ascending(key_views(keys))
    &&& forall|i: int| 0 <= i < keys.len() ==> occurs(data, #[trigger] keys[i].process@, keys[i].operation@)
    &&& forall|c: int, e: int, k: int, p: Seq<char>, o: Seq<char>|
        #[trigger] entry_at(data, c, e, k, p, o) ==> key_views(keys).contains((p, o))
}

/// Whether key `a` comes strictly before key `b`.
fn key_less(a: &Key, b: &Key) -> (r: bool)
    ensures
        r == key_lt(key_view(*a), key_view(*b)),
{
    if str_lt(a.process.as_str(), b.process.as_str()) {
        true
    } else if str_eq(a.process.as_str(), b.process.as_str()) {
        str_lt(a.operation.as_str(), b.operation.as_str())
    } else {
        false
    }
}

/// Add `key` to the strictly ascending `keys`, unless it is there already.
fn insert_key(keys: &mut Vec<Key>, key: Key)
    requires
        strictly_ascending(key_views(old(keys)@)),
    ensures
        strictly_ascending(key_views(final(keys)@)),
        key_views(final(keys)@).contains(key_view(key)),
        forall|x: (Seq<char>, Seq<char>)|
            key_views(final(keys)@).contains(x) <==> (key_views(old(keys)@).contains(x) || x == key_view(key)),
{
    let ghost old_view = key_views(keys@);
    let ghost kv = key_view(key);
    let mut pos: usize = 0;
    while pos < keys.len() && key_less(&keys[pos], &key)
        invariant
            pos <= keys.len(),
            keys@ == old(keys)@,
            old_view == key_views(keys@),
            kv == key_view(key),
            forall|i: int| 0 <= i < pos ==> key_lt(#[trigger] old_view[i], kv),
        decreases keys.len() - pos,
    {
        pos = pos + 1;
    }
    if pos < keys.len() && str_eq(keys[pos].process.as_str(), key.process.as_str())
        && str_eq(keys[pos].operation.as_str(), key.operation.as_str()) {
        assert(old_view[pos as int] == kv);
        return;
    }
    proof {
        if pos < old_view.len() {
            lemma_key_lt_total(old_view[pos as int], kv);
        }
    }
    keys.insert(pos, key);
    let ghost new_view = key_views(keys@);
    assert(new_view =~= old_view.insert(pos as int, kv));
    proof {
        assert forall|i: int, j: int| 0 <= i < j < new_view.len() implies key_lt(
            #[trigger] new_view[i],
            #[trigger] new_view[j],
        ) by {
            if j == pos {
                assert(new_view[i] == old_view[i]);
            } else if i == pos {
                assert(new_view[j] == old_view[j - 1]);
                if j - 1 > pos {
                    assert(key_lt(old_view[pos as int], old_view[j - 1]));
                    lemma_key_lt_transitive(kv, old_view[pos as int], old_view[j - 1]);
                }
            } else if i < pos && j > pos {
                assert(new_view[i] == old_view[i]);
                assert(new_view[j] == old_view[j - 1]);
                if j - 1 > pos {
                    assert(key_lt(old_view[pos as int], old_view[j - 1]));
                    lemma_key_lt_transitive(kv, old_view[pos as int], old_view[j - 1]);
                }
                lemma_key_lt_transitive(old_view[i], kv, old_view[j - 1]);
            } else if i < pos {
                assert(new_view[i] == old_view[i]);
                assert(new_view[j] == old_view[j]);
            } else {
                assert(new_view[i] == old_view[i - 1]);
                assert(new_view[j] == old_view[j - 1]);
            }
        }
        assert(new_view[pos as int] == kv);
        assert forall|x: (Seq<char>, Seq<char>)|
            new_view.contains(x) <==> (old_view.contains(x) || x == kv) by {
            if new_view.contains(x) {
                let i = choose|i: int| 0 <= i < new_view.len() && new_view[i] == x;
                if i < pos {
                    assert(old_view[i] == x);
                } else if i > pos {
                    assert(old_view[i - 1] == x);
                }
            }
            if old_view.contains(x) {
                let i = choose|i: int| 0 <= i < old_view.len() && old_view[i] == x;
                if i < pos {
                    assert(new_view[i] == x);
                } else {
                    assert(new_view[i + 1] == x);
                }
            }
        }
    }
}

/// Every (service, operation) pair of all analyses in `data`, each once, sorted by
/// service name and then by operation name.
pub fn get_keys(data: &[Option<StatsRec>]) -> (r: Vec<Key>)
    ensures
        strictly_ascending(key_views(r@)),
        forall|i: int| 0 <= i < r@.len() ==> occurs(data@, #[trigger] r@[i].process@, r@[i].operation@),
        forall|c: int, e: int, k: int, p: Seq<char>, o: Seq<char>|
            #[trigger] entry_at(data@, c, e, k, p, o) ==> key_views(r@).contains((p, o)),
{
    let mut keys: Vec<Key> = Vec::new();
    let mut c: usize = 0;
    while c < data.len()
        invariant
            c <= data@.len(),
            strictly_ascending(key_views(keys@)),
            forall|i: int| 0 <= i < keys@.len() ==> occurs(data@, #[trigger] keys@[i].process@, keys@[i].operation@),
            forall|c2: int, e: int, k: int, p: Seq<char>, o: Seq<char>|
                #[trigger] entry_at(data@, c2, e, k, p, o) && c2 < c ==> key_views(keys@).contains((p, o)),
        decreases data.len() - c,
    {
        match &data[c] {
            None => {},
            Some(sr) => {
                let mut e: usize = 0;
                while e < sr.stats.len()
                    invariant
                        c < data@.len(),
                        data@[c as int] == Some(*sr),
                        e <= sr.stats@.len(),
                        strictly_ascending(key_views(keys@)),
                        forall|i: int| 0 <= i < keys@.len() ==> occurs(data@, #[trigger] keys@[i].process@, keys@[i].operation@),
                        forall|c2: int, e2: int, k: int, p: Seq<char>, o: Seq<char>|
                            #[trigger] entry_at(data@, c2, e2, k, p, o) && (c2 < c || (c2 == c && e2 < e))
                                ==> key_views(keys@).contains((p, o)),
                    decreases sr.stats.len() - e,
                {
                    let ops = &sr.stats[e].1.operation;
                    let mut k: usize = 0;
                    while k < ops.len()
                        invariant
                            c < data@.len(),
                            data@[c as int] == Some(*sr),
                            e < sr.stats@.len(),
                            *ops == sr.stats@[e as int].1.operation,
                            k <= ops@.len(),
                            strictly_ascending(key_views(keys@)),
                            forall|i: int| 0 <= i < keys@.len() ==> occurs(data@, #[trigger] keys@[i].process@, keys@[i].operation@),
                            forall|c2: int, e2: int, k2: int, p: Seq<char>, o: Seq<char>|
                                #[trigger] entry_at(data@, c2, e2, k2, p, o) && (c2 < c || (c2 == c && e2 < e) || (c2
                                    == c && e2 == e && k2 < k)) ==> key_views(keys@).contains((p, o)),
                        decreases ops.len() - k,
                    {
                        let key = Key { process: sr.stats[e].0.clone(), operation: ops[k].clone() };
                        let ghost kv = key_view(key);
                        let ghost old_keys = keys@;
                        proof {
                            assert(entry_at(data@, c as int, e as int, k as int, kv.0, kv.1));
                        }
                        insert_key(&mut keys, key);
                        proof {
                            assert forall|i: int| 0 <= i < keys@.len() implies occurs(
                                data@,
                                #[trigger] keys@[i].process@,
                                keys@[i].operation@,
                            ) by {
                                assert(key_views(keys@)[i] == (keys@[i].process@, keys@[i].operation@));
                                assert(key_views(keys@).contains(key_views(keys@)[i]));
                                if key_views(old_keys).contains(key_views(keys@)[i]) {
                                    let j = choose|j: int| 0 <= j < old_keys.len() && key_views(old_keys)[j] == key_views(keys@)[i];
                                    assert(occurs(data@, old_keys[j].process@, old_keys[j].operation@));
                                } else {
                                    assert(entry_at(data@, c as int, e as int, k as int, kv.0, kv.1));
                                }
                            }
                            assert forall|c2: int, e2: int, k2: int, p: Seq<char>, o: Seq<char>|
                                #[trigger] entry_at(data@, c2, e2, k2, p, o) && (c2 < c || (c2 == c && e2 < e) || (c2
                                    == c && e2 == e && k2 < k + 1)) implies key_views(keys@).contains((p, o)) by {
                                if c2 == c && e2 == e && k2 == k {
                                    assert((p, o) == kv);
                                } else {
                                    assert(key_views(old_keys).contains((p, o)));
                                }
                            }
                        }
                        k = k + 1;
                    }
                    proof {
                        assert forall|c2: int, e2: int, k2: int, p: Seq<char>, o: Seq<char>|
                            #[trigger] entry_at(data@, c2, e2, k2, p, o) && (c2 < c || (c2 == c && e2 < e + 1))
                                implies key_views(keys@).contains((p, o)) by {
                            if c2 == c && e2 == e {
                                assert(k2 < ops@.len());
                            }
                        }
                    }
                    e = e + 1;
                }
            },
        }
        proof {
            assert forall|c2: int, e2: int, k2: int, p: Seq<char>, o: Seq<char>|
                #[trigger] entry_at(data@, c2, e2, k2, p, o) && c2 < c + 1 implies key_views(keys@).contains((p, o)) by {
                if c2 == c {
                    assert(data@[c as int] is Some);
                }
            }
        }
        c = c + 1;
    }
    keys
}

} // verus!
