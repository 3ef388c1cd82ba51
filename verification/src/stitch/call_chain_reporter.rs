//! Ordering and grouping of the call-chain keys of a call-chain report: one group per
//! service/operation, the groups in name order, and inside a group the most frequent
//! call-chains first.
use crate::order::{lemma_lex_total, lemma_lex_transitive, lex_lt, str_lt};
use crate::text::str_eq;
use vstd::prelude::*;

verus! {

/// A key entry as the report reads it: the service/operation name, the call-chain key,
/// how often the call-chain occurred and whether it is rooted.
pub open spec fn entry_view<K>(e: (String, K, usize, bool)) -> (Seq<char>, K, usize, bool) {
    (e.0@, e.1, e.2, e.3)
}

pub open spec fn entry_views<K>(s: Seq<(String, K, usize, bool)>) -> Seq<(Seq<char>, K, usize, bool)> {
    s.map_values(|e: (String, K, usize, bool)| entry_view(e))
}

/// `x` may stand before `y` in a report: names ascending, and for one name the
/// counts descending.
pub open spec fn report_before<K>(x: (Seq<char>, K, usize, bool), y: (Seq<char>, K, usize, bool)) -> bool {
    lex_lt(x.0, y.0) || (x.0 == y.0 && x.2 >= y.2)
}

/// Every entry of `p` may stand before every later one.
pub open spec fn report_ordered<K>(p: Seq<(Seq<char>, K, usize, bool)>) -> bool {
    forall|i: int, j: int| 0 <= i < j < p.len() ==> report_before(#[trigger] p[i], #[trigger] p[j])
}

/// Add one entry to the groups built so far: to the last group when it carries the
/// same name, else as a new group of its own.
pub open spec fn group_step<K>(
    acc: Seq<(Seq<char>, Seq<(K, bool)>)>,
    e: (Seq<char>, K, usize, bool),
) -> Seq<(Seq<char>, Seq<(K, bool)>)> {
    if acc.len() > 0 && acc.last().0 == e.0 {
        acc.update(acc.len() - 1, (e.0, acc.last().1.push((e.1, e.3))))
    } else {
        acc.push((e.0, seq![(e.1, e.3)]))
    }
}

/// The entries of `p` grouped by runs of equal names, in the order of `p`.
pub open spec fn grouped<K>(p: Seq<(Seq<char>, K, usize, bool)>) -> Seq<(Seq<char>, Seq<(K, bool)>)>
    decreases p.len(),
{
    if p.len() == 0 {
        seq![]
    } else {
        group_step(grouped(p.drop_last()), p.last())
    }
}

pub open spec fn group_views<K>(r: Seq<(String, Vec<(K, bool)>)>) -> Seq<(Seq<char>, Seq<(K, bool)>)> {
    r.map_values(|g: (String, Vec<(K, bool)>)| (g.0@, g.1@))
}

proof fn lemma_report_before_transitive<K>(
    x: (Seq<char>, K, usize, bool),
    y: (Seq<char>, K, usize, bool),
    z: (Seq<char>, K, usize, bool),
)
    requires
        report_before(x, y),
        report_before(y, z),
    ensures
        report_before(x, z),
{
    if lex_lt(x.0, y.0) && lex_lt(y.0, z.0) {
        lemma_lex_transitive(x.0, y.0, z.0);
    }
}

proof fn lemma_report_before_total<K>(x: (Seq<char>, K, usize, bool), y: (Seq<char>, K, usize, bool))
    ensures
        report_before(x, y) || report_before(y, x),
{
    lemma_lex_total(x.0, y.0);
}

/// The last group carries the name of the last entry.
proof fn lemma_grouped_last_name<K>(p: Seq<(Seq<char>, K, usize, bool)>)
    requires
        p.len() > 0,
    ensures
        grouped(p).len() > 0,
        grouped(p).last().0 == p.last().0,
    decreases p.len(),
{
    if p.len() > 1 {
        lemma_grouped_last_name(p.drop_last());
    }
}

/// Grouping report-ordered entries gives one group per name, the groups in strictly
/// ascending name order: no name is split over two groups.
pub proof fn lemma_grouped_names_ascending<K>(p: Seq<(Seq<char>, K, usize, bool)>)
    requires
        report_ordered(p),
    ensures
        forall|i: int, j: int|
            0 <= i < j < grouped(p).len() ==> lex_lt(#[trigger] grouped(p)[i].0, #[trigger] grouped(p)[j].0),
    decreases p.len(),
{
    if p.len() > 0 {
        let q = p.drop_last();
        assert(report_ordered(q)) by {
            assert forall|i: int, j: int| 0 <= i < j < q.len() implies report_before(#[trigger] q[i], #[trigger] q[j]) by {
                assert(q[i] == p[i] && q[j] == p[j]);
            }
        }
        lemma_grouped_names_ascending(q);
        let g = grouped(q);
        let r = grouped(p);
        if g.len() > 0 && g.last().0 == p.last().0 {
            assert forall|i: int, j: int| 0 <= i < j < r.len() implies lex_lt(#[trigger] r[i].0, #[trigger] r[j].0) by {
                assert(r[i].0 == g[i].0 && r[j].0 == g[j].0);
            }
        } else if g.len() > 0 {
            lemma_grouped_last_name(q);
            assert(report_before(p[p.len() - 2], p[p.len() - 1]));
            assert(q.last() == p[p.len() - 2]);
            assert(lex_lt(g.last().0, p.last().0));
            assert forall|i: int, j: int| 0 <= i < j < r.len() implies lex_lt(#[trigger] r[i].0, #[trigger] r[j].0) by {
                if j == g.len() {
                    if i < g.len() - 1 {
                        lemma_lex_transitive(g[i].0, g.last().0, p.last().0);
                    }
                } else {
                    assert(r[i] == g[i] && r[j] == g[j]);
                }
            }
        }
    }
}

/// Whether `x` may stand before `y` in a report.
fn may_precede<K>(x: &(String, K, usize, bool), y: &(String, K, usize, bool)) -> (r: bool)
    ensures
        r == report_before(entry_view(*x), entry_view(*y)),
{
    if str_lt(x.0.as_str(), y.0.as_str()) {
        true
    } else if str_eq(x.0.as_str(), y.0.as_str()) {
        x.2 >= y.2
    } else {
        false
    }
}

/// Insert `e` into the report-ordered `sorted`, keeping it report-ordered.
fn insert_in_report_order<K>(sorted: &mut Vec<(String, K, usize, bool)>, e: (String, K, usize, bool))
    requires
        report_ordered(entry_views(old(sorted)@)),
    ensures
        report_ordered(entry_views(final(sorted)@)),
        entry_views(final(sorted)@).to_multiset() == entry_views(old(sorted)@).to_multiset().insert(
            entry_view(e),
        ),
{
    let ghost old_view = entry_views(sorted@);
    let ghost ev = entry_view(e);
    let mut pos: usize = 0;
    while pos < sorted.len() && may_precede(&sorted[pos], &e)
        invariant
            pos <= sorted.len(),
            sorted@ == old(sorted)@,
            old_view == entry_views(sorted@),
            ev == entry_view(e),
            forall|i: int| 0 <= i < pos ==> report_before(#[trigger] old_view[i], ev),
        decreases sorted.len() - pos,
    {
        pos = pos + 1;
    }
    proof {
        if pos < old_view.len() {
            lemma_report_before_total(old_view[pos as int], ev);
        }
    }
    sorted.insert(pos, e);
    let ghost new_view = entry_views(sorted@);
    assert(new_view =~= old_view.insert(pos as int, ev));
    proof {
        vstd::seq_lib::to_multiset_insert(old_view, pos as int, ev);
        assert forall|i: int, j: int| 0 <= i < j < new_view.len() implies report_before(
            #[trigger] new_view[i],
            #[trigger] new_view[j],
        ) by {
            if j == pos {
                assert(new_view[i] == old_view[i]);
            } else if i == pos {
                assert(new_view[j] == old_view[j - 1]);
                if j - 1 > pos {
                    assert(report_before(old_view[pos as int], old_view[j - 1]));
                    lemma_report_before_transitive(ev, old_view[pos as int], old_view[j - 1]);
                }
            } else if i < pos && j > pos {
                assert(new_view[i] == old_view[i]);
                assert(new_view[j] == old_view[j - 1]);
                assert(report_before(old_view[i], ev));
                if pos < old_view.len() {
                    if j - 1 > pos {
                        assert(report_before(old_view[pos as int], old_view[j - 1]));
                        lemma_report_before_transitive(ev, old_view[pos as int], old_view[j - 1]);
                    }
                    lemma_report_before_transitive(old_view[i], ev, old_view[j - 1]);
                }
            } else if i < pos {
                assert(new_view[i] == old_view[i]);
                assert(new_view[j] == old_view[j]);
            } else {
                assert(new_view[i] == old_view[i - 1]);
                assert(new_view[j] == old_view[j - 1]);
            }
        }
    }
}

/// Order the key entries by name ascending and, for one name, by count descending,
/// and group them per name; each group holds the call-chain keys with their rooted
/// flag in that order. Entries with the same name and count may come in either order.
pub fn repartition_keys<K>(keys: Vec<(String, K, usize, bool)>) -> (r: Vec<(String, Vec<(K, bool)>)>)
    requires
        forall|i: int| 0 <= i < keys.len() ==> (#[trigger] keys@[i]).0@.len() > 0,
    ensures
        exists|p: Seq<(Seq<char>, K, usize, bool)>|
            #![trigger grouped(p)]
            p.to_multiset() == entry_views(keys@).to_multiset() && report_ordered(p) && group_views(r@)
                == grouped(p),
{
    let ghost all = entry_views(keys@);
    let mut keys = keys;
    let mut sorted: Vec<(String, K, usize, bool)> = Vec::new();
    proof {
        broadcast use vstd::multiset::group_multiset_axioms;
        assert(entry_views(sorted@) =~= Seq::<(Seq<char>, K, usize, bool)>::empty());
        vstd::seq_lib::to_multiset_len(entry_views(sorted@));
        vstd::multiset::lemma_multiset_empty_len(entry_views(sorted@).to_multiset());
        assert(entry_views(sorted@).to_multiset().add(all.to_multiset()) =~= all.to_multiset());
    }
    while keys.len() > 0
        invariant
            report_ordered(entry_views(sorted@)),
            entry_views(sorted@).to_multiset().add(entry_views(keys@).to_multiset())
                == all.to_multiset(),
        decreases keys.len(),
    {
        let ghost before = entry_views(keys@);
        let e = keys.pop().unwrap();
        proof {
            assert(before =~= entry_views(keys@).push(entry_view(e)));
            vstd::seq_lib::to_multiset_build(entry_views(keys@), entry_view(e));
        }
        insert_in_report_order(&mut sorted, e);
    }
    let ghost p = entry_views(sorted@);
    proof {
        broadcast use vstd::multiset::group_multiset_axioms;
        vstd::seq_lib::to_multiset_len(entry_views(keys@));
        vstd::multiset::lemma_multiset_empty_len(entry_views(keys@).to_multiset());
        assert(p.to_multiset() =~= all.to_multiset());
    }
    let mut r: Vec<(String, Vec<(K, bool)>)> = Vec::new();
    let ghost mut k: int = 0;
    assert(p.take(0) =~= Seq::<(Seq<char>, K, usize, bool)>::empty());
    assert(p.skip(0) =~= p);
    while sorted.len() > 0
        invariant
            0 <= k <= p.len(),
            entry_views(sorted@) == p.skip(k),
            group_views(r@) == grouped(p.take(k)),
        decreases sorted.len(),
    {
        let ghost groups = group_views(r@);
        let ghost old_sorted = sorted@;
        assert(entry_views(old_sorted).len() == old_sorted.len());
        assert(p.skip(k)[0] == p[k]);
        assert(entry_views(old_sorted)[0] == entry_view(old_sorted[0]));
        let e = sorted.remove(0);
        proof {
            assert(entry_view(e) == p[k]);
            assert forall|i: int| 0 <= i < sorted@.len() implies entry_views(sorted@)[i] == p.skip(
                k + 1,
            )[i] by {
                assert(sorted@[i] == old_sorted[i + 1]);
                assert(entry_views(old_sorted)[i + 1] == p.skip(k)[i + 1]);
            }
            assert(entry_views(sorted@) =~= p.skip(k + 1));
            assert(p.take(k + 1).drop_last() =~= p.take(k));
            assert(p.take(k + 1).last() == p[k]);
            k = k + 1;
        }
        let (name, key, _count, rooted) = e;
        let n = r.len();
        if n > 0 && str_eq(r[n - 1].0.as_str(), name.as_str()) {
            let mut last = r.pop().unwrap();
            last.1.push((key, rooted));
            r.push(last);
            assert(group_views(r@) =~= groups.update(
                groups.len() - 1,
                (name@, groups.last().1.push((key, rooted))),
            ));
        } else {
            let mut items: Vec<(K, bool)> = Vec::new();
            items.push((key, rooted));
            r.push((name, items));
            assert(group_views(r@) =~= groups.push((name@, seq![(key, rooted)])));
        }
    }
    assert(p.take(k) =~= p);
    r
}

} // verus!
