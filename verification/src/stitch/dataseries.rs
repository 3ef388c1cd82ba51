//! A time-series of analysis results.
use crate::stats::{Stats, StatsRec};
use vstd::prelude::*;
use vstd::string::*;

verus! {

/// A time-series of analysis results, one per column; `None` is a column without data.
pub struct DataSeries(pub Vec<Option<StatsRec>>);

/// The weight of a service entry: its received calls plus its unknown calls (the latter may be inbound calls).
pub open spec fn weight(s: Stats) -> int {
    s.num_received_calls + s.num_unknown_calls
}

/// The summed weight of the entries of `es` keyed `k`.
pub open spec fn entries_total(es: Seq<(String, Stats)>, k: Seq<char>) -> int
    decreases es.len(),
{
    if es.len() == 0 {
        0
    } else {
        entries_total(es.drop_last(), k) + if es.last().0@ == k { weight(es.last().1) } else { 0 }
    }
}

/// The summed weight of service `k` over all columns.
pub open spec fn key_total(data: Seq<Option<StatsRec>>, k: Seq<char>) -> int
    decreases data.len(),
{
    if data.len() == 0 {
        0
    } else {
        key_total(data.drop_last(), k) + match data.last() {
            Some(sr) => entries_total(sr.stats@, k),
            None => 0,
        }
    }
}

/// Every service's total weight over all columns fits in a `usize`.
pub open spec fn totals_fit(data: Seq<Option<StatsRec>>) -> bool {
    forall|k: Seq<char>| #[trigger] key_total(data, k) <= usize::MAX
}

/// The entries of `es` whose service has a total weight above `drop_count` in `data`.
pub open spec fn kept(es: Seq<(String, Stats)>, data: Seq<Option<StatsRec>>, drop_count: usize) -> Seq<(String, Stats)> {
    es.filter(keep_pred(data, drop_count))
}

/// Whether an entry's service has a total weight above `drop_count` in `data`.
pub open spec fn keep_pred(data: Seq<Option<StatsRec>>, drop_count: usize) -> spec_fn((String, Stats)) -> bool {
    |e: (String, Stats)| key_total(data, e.0@) > drop_count
}

/// The number of entries over the first `n` columns whose service does not exceed `drop_count`.
pub open spec fn num_low(data: Seq<Option<StatsRec>>, n: int, drop_count: usize) -> int
    decreases n,
{
    if n <= 0 || n > data.len() {
        0
    } else {
        num_low(data, n - 1, drop_count) + match data[n - 1] {
            Some(sr) => sr.stats@.len() - kept(sr.stats@, data, drop_count).len(),
            None => 0,
        }
    }
}

/// Weights are never negative.
pub proof fn lemma_entries_total_nonneg(es: Seq<(String, Stats)>, k: Seq<char>)
    ensures
        entries_total(es, k) >= 0,
    decreases es.len(),
{
    if es.len() > 0 {
        lemma_entries_total_nonneg(es.drop_last(), k);
    }
}

/// The weight keyed `k` of a prefix of entries is at most that of all entries.
pub proof fn lemma_entries_total_prefix(es: Seq<(String, Stats)>, i: int, k: Seq<char>)
    requires
        0 <= i <= es.len(),
    ensures
        0 <= entries_total(es.take(i), k) <= entries_total(es, k),
    decreases es.len() - i,
{
    if i < es.len() {
        lemma_entries_total_prefix(es, i + 1, k);
        assert(es.take(i + 1).drop_last() =~= es.take(i));
    } else {
        assert(es.take(i) =~= es);
    }
    lemma_entries_total_nonneg(es.take(i), k);
}

/// Service totals are never negative.
pub proof fn lemma_key_total_nonneg(data: Seq<Option<StatsRec>>, k: Seq<char>)
    ensures
        key_total(data, k) >= 0,
    decreases data.len(),
{
    if data.len() > 0 {
        lemma_key_total_nonneg(data.drop_last(), k);
        match data.last() {
            Some(sr) => lemma_entries_total_nonneg(sr.stats@, k),
            None => {},
        }
    }
}

/// The total of service `k` over a prefix of the columns is at most its total.
pub proof fn lemma_key_total_prefix(data: Seq<Option<StatsRec>>, i: int, k: Seq<char>)
    requires
        0 <= i <= data.len(),
    ensures
        0 <= key_total(data.take(i), k) <= key_total(data, k),
    decreases data.len() - i,
{
    if i < data.len() {
        lemma_key_total_prefix(data, i + 1, k);
        assert(data.take(i + 1).drop_last() =~= data.take(i));
        match data[i] {
            Some(sr) => lemma_entries_total_nonneg(sr.stats@, k),
            None => {},
        }
    } else {
        assert(data.take(i) =~= data);
    }
    lemma_key_total_nonneg(data.take(i), k);
}

/// The summed weight of the entries keyed `k`.
fn entries_weight(es: &Vec<(String, Stats)>, k: &str) -> (r: usize)
    requires
        entries_total(es@, k@) <= usize::MAX,
    ensures
        r == entries_total(es@, k@),
{
    let mut acc: usize = 0;
    let mut i: usize = 0;
    while i < es.len()
        invariant
            i <= es@.len(),
            entries_total(es@, k@) <= usize::MAX,
            acc == entries_total(es@.take(i as int), k@),
        decreases es.len() - i,
    {
        assert(es@.take(i + 1).drop_last() =~= es@.take(i as int));
        proof {
            lemma_entries_total_prefix(es@, i + 1, k@);
        }
        if crate::text::str_eq(es[i].0.as_str(), k) {
            acc = acc + es[i].1.num_received_calls + es[i].1.num_unknown_calls;
        }
        i = i + 1;
    }
    assert(es@.take(es.len() as int) =~= es@);
    acc
}

/// The summed weight of service `k` over all columns.
fn total_for(data: &Vec<Option<StatsRec>>, k: &str) -> (r: usize)
    requires
        key_total(data@, k@) <= usize::MAX,
    ensures
        r == key_total(data@, k@),
{
    let mut acc: usize = 0;
    let mut i: usize = 0;
    while i < data.len()
        invariant
            i <= data@.len(),
            key_total(data@, k@) <= usize::MAX,
            acc == key_total(data@.take(i as int), k@),
        decreases data.len() - i,
    {
        assert(data@.take(i + 1).drop_last() =~= data@.take(i as int));
        proof {
            lemma_key_total_prefix(data@, i + 1, k@);
            lemma_key_total_nonneg(data@.take(i as int), k@);
        }
        match &data[i] {
            Some(sr) => {
                let w = entries_weight(&sr.stats, k);
                acc = acc + w;
            },
            None => {},
        }
        i = i + 1;
    }
    assert(data@.take(data.len() as int) =~= data@);
    acc
}

/// The number of dropped entries is never negative.
pub proof fn lemma_num_low_nonneg(data: Seq<Option<StatsRec>>, n: int, drop_count: usize)
    ensures
        num_low(data, n, drop_count) >= 0,
    decreases n,
{
    if n > 0 && n <= data.len() {
        lemma_num_low_nonneg(data, n - 1, drop_count);
        match data[n - 1] {
            Some(sr) => sr.stats@.lemma_filter_len(keep_pred(data, drop_count)),
            None => {},
        }
    }
}

/// Fewer columns never drop more entries.
pub proof fn lemma_num_low_monotone(data: Seq<Option<StatsRec>>, n: int, m: int, drop_count: usize)
    requires
        0 <= n <= m <= data.len(),
    ensures
        0 <= num_low(data, n, drop_count) <= num_low(data, m, drop_count),
    decreases m,
{
    lemma_num_low_nonneg(data, n, drop_count);
    if m > n {
        lemma_num_low_monotone(data, n, m - 1, drop_count);
        match data[m - 1] {
            Some(sr) => sr.stats@.lemma_filter_len(keep_pred(data, drop_count)),
            None => {},
        }
    }
}

/// Filtering the rest of a sequence after a prefix keeps at most the rest.
pub proof fn lemma_filter_rest<A>(s: Seq<A>, p: spec_fn(A) -> bool, i: int)
    requires
        0 <= i <= s.len(),
    ensures
        s.filter(p).len() <= s.take(i).filter(p).len() + (s.len() - i),
    decreases s.len() - i,
{
    if i < s.len() {
        lemma_filter_rest(s, p, i + 1);
        assert(s.take(i + 1) =~= s.take(i).push(s[i]));
        s.take(i).lemma_filter_len_push(p, s[i]);
    } else {
        assert(s.take(i) =~= s);
    }
}

/// Filtering with a predicate that keeps every entry keyed `k` keeps their total weight.
proof fn lemma_filter_keeps_total(es: Seq<(String, Stats)>, p: spec_fn((String, Stats)) -> bool, k: Seq<char>)
    requires
        forall|i: int| 0 <= i < es.len() && (#[trigger] es[i]).0@ == k ==> p(es[i]),
    ensures
        entries_total(es.filter(p), k) == entries_total(es, k),
    decreases es.len(),
{
    reveal(Seq::filter);
    if es.len() > 0 {
        let prev = es.drop_last();
        assert forall|i: int| 0 <= i < prev.len() && (#[trigger] prev[i]).0@ == k implies p(prev[i]) by {
            assert(prev[i] == es[i]);
        }
        lemma_filter_keeps_total(prev, p, k);
        if p(es.last()) {
            assert(prev.filter(p).push(es.last()).drop_last() =~= prev.filter(p));
        } else {
            assert(es[es.len() - 1] == es.last());
        }
    }
}

/// Filtering with a predicate that holds of every entry keeps them all.
proof fn lemma_filter_keeps_all<A>(s: Seq<A>, p: spec_fn(A) -> bool)
    requires
        forall|i: int| 0 <= i < s.len() ==> p(#[trigger] s[i]),
    ensures
        s.filter(p) == s,
    decreases s.len(),
{
    reveal(Seq::filter);
    if s.len() > 0 {
        let prev = s.drop_last();
        assert forall|i: int| 0 <= i < prev.len() implies p(#[trigger] prev[i]) by {
            assert(prev[i] == s[i]);
        }
        lemma_filter_keeps_all(prev, p);
        assert(s[s.len() - 1] == s.last());
        assert(prev.push(s.last()) =~= s);
    }
}

/// `d2` is `d` after dropping, with `drop_count`, the entries of services of low weight.
pub open spec fn dropped_from(d: Seq<Option<StatsRec>>, d2: Seq<Option<StatsRec>>, drop_count: usize) -> bool {
    &&& d2.len() == d.len()
    &&& forall|i: int|
        0 <= i < d.len() ==> match #[trigger] d[i] {
            None => d2[i] is None,
            Some(sr) => d2[i] matches Some(nsr) && nsr.stats@ == kept(sr.stats@, d, drop_count),
        }
}

/// A service that stays keeps its total weight: all of its entries stay.
proof fn lemma_kept_key_total(d: Seq<Option<StatsRec>>, d2: Seq<Option<StatsRec>>, drop_count: usize, k: Seq<char>, n: int)
    requires
        dropped_from(d, d2, drop_count),
        key_total(d, k) > drop_count,
        0 <= n <= d.len(),
    ensures
        key_total(d2.take(n), k) == key_total(d.take(n), k),
    decreases n,
{
    if n > 0 {
        lemma_kept_key_total(d, d2, drop_count, k, n - 1);
        assert(d.take(n).drop_last() =~= d.take(n - 1));
        assert(d2.take(n).drop_last() =~= d2.take(n - 1));
        assert(d.take(n).last() == d[n - 1]);
        assert(d2.take(n).last() == d2[n - 1]);
        match d[n - 1] {
            Some(sr) => {
                let pred = keep_pred(d, drop_count);
                assert forall|i: int| 0 <= i < sr.stats@.len() && (#[trigger] sr.stats@[i]).0@ == k implies pred(
                    sr.stats@[i],
                ) by {}
                lemma_filter_keeps_total(sr.stats@, pred, k);
            },
            None => {},
        }
    }
}

/// Filtering never adds weight.
proof fn lemma_filter_total_le(es: Seq<(String, Stats)>, p: spec_fn((String, Stats)) -> bool, k: Seq<char>)
    ensures
        entries_total(es.filter(p), k) <= entries_total(es, k),
    decreases es.len(),
{
    reveal(Seq::filter);
    if es.len() > 0 {
        let prev = es.drop_last();
        lemma_filter_total_le(prev, p, k);
        if p(es.last()) {
            assert(prev.filter(p).push(es.last()).drop_last() =~= prev.filter(p));
        }
    }
}

/// Dropping never raises a service's total.
proof fn lemma_dropped_key_total_le(d: Seq<Option<StatsRec>>, d2: Seq<Option<StatsRec>>, drop_count: usize, k: Seq<char>, n: int)
    requires
        dropped_from(d, d2, drop_count),
        0 <= n <= d.len(),
    ensures
        key_total(d2.take(n), k) <= key_total(d.take(n), k),
    decreases n,
{
    if n > 0 {
        lemma_dropped_key_total_le(d, d2, drop_count, k, n - 1);
        assert(d.take(n).drop_last() =~= d.take(n - 1));
        assert(d2.take(n).drop_last() =~= d2.take(n - 1));
        assert(d.take(n).last() == d[n - 1]);
        assert(d2.take(n).last() == d2[n - 1]);
        match d[n - 1] {
            Some(sr) => lemma_filter_total_le(sr.stats@, keep_pred(d, drop_count), k),
            None => {},
        }
    }
}

/// Dropping is idempotent: after dropping the services whose total weight does not
/// exceed `drop_count`, every remaining entry keeps its service's total, so a second
/// drop with the same count keeps every entry and drops none. No service total grows, so
/// the data after a first drop also meets what a second drop requires.
pub proof fn lemma_drop_idempotent(d: Seq<Option<StatsRec>>, d2: Seq<Option<StatsRec>>, drop_count: usize)
    requires
        dropped_from(d, d2, drop_count),
    ensures
        dropped_from(d2, d2, drop_count),
        num_low(d2, d2.len() as int, drop_count) == 0,
        forall|k: Seq<char>| #[trigger] key_total(d2, k) <= key_total(d, k),
        totals_fit(d) ==> totals_fit(d2),
{
    assert forall|k: Seq<char>| #[trigger] key_total(d2, k) <= key_total(d, k) by {
        lemma_dropped_key_total_le(d, d2, drop_count, k, d.len() as int);
        assert(d.take(d.len() as int) =~= d);
        assert(d2.take(d.len() as int) =~= d2);
    }
    assert forall|i: int| 0 <= i < d2.len() implies match #[trigger] d2[i] {
        None => d2[i] is None,
        Some(sr) => d2[i] matches Some(nsr) && nsr.stats@ == kept(sr.stats@, d2, drop_count),
    } by {
        match d[i] {
            None => {},
            Some(sr0) => {
                let nsr = d2[i]->0;
                let pred = keep_pred(d, drop_count);
                assert forall|j: int| 0 <= j < nsr.stats@.len() implies keep_pred(d2, drop_count)(
                    #[trigger] nsr.stats@[j],
                ) by {
                    let e = nsr.stats@[j];
                    sr0.stats@.lemma_filter_pred(pred, j);
                    assert(pred(sr0.stats@.filter(pred)[j]));
                    lemma_kept_key_total(d, d2, drop_count, e.0@, d.len() as int);
                    assert(d.take(d.len() as int) =~= d);
                    assert(d2.take(d.len() as int) =~= d2);
                }
                lemma_filter_keeps_all(nsr.stats@, keep_pred(d2, drop_count));
            },
        }
    }
    lemma_no_low(d2, drop_count, d2.len() as int);
}

/// Where every column keeps all its entries, no entry is dropped.
proof fn lemma_no_low(d: Seq<Option<StatsRec>>, drop_count: usize, n: int)
    requires
        dropped_from(d, d, drop_count),
        0 <= n <= d.len(),
    ensures
        num_low(d, n, drop_count) == 0,
    decreases n,
{
    if n > 0 {
        lemma_no_low(d, drop_count, n - 1);
        match d[n - 1] {
            Some(sr) => {
                assert(d[n - 1] == Some(sr));
            },
            None => {},
        }
    }
}

impl DataSeries {
    /// Drop the service entries of services that occur seldom: those whose received plus unknown
    /// calls, summed over all columns, do not exceed `drop_count`. Returns the number of dropped entries.
    pub fn drop_low_volume_traces(&mut self, drop_count: usize) -> (r: usize)
        requires
            totals_fit(old(self).0@),
            num_low(old(self).0@, old(self).0@.len() as int, drop_count) <= usize::MAX,
        ensures
            dropped_from(old(self).0@, final(self).0@, drop_count),
            r == num_low(old(self).0@, old(self).0@.len() as int, drop_count),
    {
        let mut data: Vec<Option<StatsRec>> = Vec::new();
        std::mem::swap(&mut data, &mut self.0);
        let ghost d = data@;
        let ghost pred = keep_pred(d, drop_count);
        // First decide for every entry whether it stays, while all columns are at hand.
        let mut keep: Vec<Vec<bool>> = Vec::new();
        let mut i: usize = 0;
        while i < data.len()
            invariant
                i <= data@.len(),
                d == data@,
                pred == keep_pred(d, drop_count),
                totals_fit(d),
                keep@.len() == i,
                forall|k: int|
                    0 <= k < i ==> match #[trigger] d[k] {
                        None => keep@[k]@.len() == 0,
                        Some(sr) => keep@[k]@.len() == sr.stats@.len() && forall|j: int|
                            0 <= j < sr.stats@.len() ==> keep@[k]@[j] == pred(sr.stats@[j]),
                    },
            decreases data.len() - i,
        {
            let mut row: Vec<bool> = Vec::new();
            match &data[i] {
                None => {},
                Some(sr) => {
                    let mut j: usize = 0;
                    while j < sr.stats.len()
                        invariant
                            j <= sr.stats@.len(),
                            d == data@,
                            pred == keep_pred(d, drop_count),
                            totals_fit(d),
                            row@.len() == j,
                            forall|m: int| 0 <= m < j ==> row@[m] == pred(sr.stats@[m]),
                        decreases sr.stats.len() - j,
                    {
                        let total = total_for(&data, sr.stats[j].0.as_str());
                        row.push(total > drop_count);
                        j = j + 1;
                    }
                },
            }
            keep.push(row);
            i = i + 1;
        }
        // Then move the entries that stay into the new columns.
        let mut new_data: Vec<Option<StatsRec>> = Vec::new();
        let mut num_dropped: usize = 0;
        let n_cols = data.len();
        let mut rest = data;
        let mut i: usize = 0;
        assert(d.skip(0) =~= d);
        while rest.len() > 0
            invariant
                i <= d.len(),
                d.len() == n_cols,
                rest@ == d.skip(i as int),
                keep@.len() == d.len(),
                pred == keep_pred(d, drop_count),
                num_low(d, d.len() as int, drop_count) <= usize::MAX,
                new_data@.len() == i,
                num_dropped == num_low(d, i as int, drop_count),
                forall|k: int|
                    0 <= k < d.len() ==> match #[trigger] d[k] {
                        None => keep@[k]@.len() == 0,
                        Some(sr) => keep@[k]@.len() == sr.stats@.len() && forall|j: int|
                            0 <= j < sr.stats@.len() ==> keep@[k]@[j] == pred(sr.stats@[j]),
                    },
                forall|k: int|
                    0 <= k < i ==> match #[trigger] d[k] {
                        None => new_data@[k] is None,
                        Some(sr) => new_data@[k] matches Some(nsr) && nsr.stats@ == kept(
                            sr.stats@,
                            d,
                            drop_count,
                        ),
                    },
            decreases rest.len(),
        {
            let ghost before = rest@;
            let col = rest.remove(0);
            proof {
                assert(before[0] == d[i as int]);
                assert(rest@ =~= d.skip(i + 1));
            }
            match col {
                None => {
                    new_data.push(None);
                },
                Some(sr) => {
                    let ghost orig = sr.stats@;
                    let n_entries = sr.stats.len();
                    let mut entries = sr.stats;
                    let mut stats: Vec<(String, Stats)> = Vec::new();
                    let mut j: usize = 0;
                    let ghost base = num_dropped;
                    assert(orig.skip(0) =~= orig);
                    assert(orig.take(0) =~= Seq::<(String, Stats)>::empty());
                    assert(orig.take(0).filter(pred) =~= Seq::<(String, Stats)>::empty()) by {
                        reveal(Seq::filter);
                    }
                    while entries.len() > 0
                        invariant
                            j <= orig.len(),
                            orig.len() == n_entries,
                            i < d.len(),
                            d[i as int] == Some(StatsRec { stats: sr.stats }),
                            orig == sr.stats@,
                            entries@ == orig.skip(j as int),
                            keep@.len() == d.len(),
                            keep@[i as int]@.len() == orig.len(),
                            forall|m: int| 0 <= m < orig.len() ==> keep@[i as int]@[m] == pred(orig[m]),
                            pred == keep_pred(d, drop_count),
                            num_low(d, d.len() as int, drop_count) <= usize::MAX,
                            base == num_low(d, i as int, drop_count),
                            stats@ == orig.take(j as int).filter(pred),
                            num_dropped == base + (j - stats@.len()),
                        decreases entries.len(),
                    {
                        let ghost before_entries = entries@;
                        let e = entries.remove(0);
                        proof {
                            assert(before_entries[0] == orig[j as int]);
                            assert(entries@ =~= orig.skip(j + 1));
                            orig.take(j as int).lemma_filter_push(orig[j as int], pred);
                            assert(orig.take(j + 1) =~= orig.take(j as int).push(orig[j as int]));
                            orig.take(j + 1).lemma_filter_len(pred);
                            lemma_filter_rest(orig, pred, j + 1);
                            lemma_num_low_monotone(d, i + 1, d.len() as int, drop_count);
                        }
                        if keep[i][j] {
                            stats.push(e);
                        } else {
                            num_dropped = num_dropped + 1;
                        }
                        j = j + 1;
                    }
                    assert(orig.take(j as int) =~= orig);
                    new_data.push(Some(StatsRec { stats }));
                },
            }
            i = i + 1;
        }
        assert(i == d.len());
        self.0 = new_data;
        num_dropped
    }
}

} // verus!
