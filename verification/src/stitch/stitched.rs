//! The stitched dataset: all statistics of a series of analyses side by side.
use super::call_chain_data::CallChainData;
use super::dataseries::{dropped_from, num_low, totals_fit, DataSeries};
use super::key::Key;
use super::proc_oper_stats_reporter::{get_keys, report_keys};
use super::stitch_list::StitchSources;
use crate::stats::StatsRec;
use super::stitched_line::{filled_count, line_fits, BestFit, StitchedLine};
use super::stitched_set::{summary_header_of, StitchedSet};
use crate::stats::Stats;
use crate::text::{join, join_strings, str_eq, views};
use vstd::prelude::*;
use vstd::string::*;

verus! {

/// The format version of a stitched dataset.
#[derive(Clone, Copy, Debug, PartialEq, Eq, Structural)]
pub struct Version {
    pub major: u16,
    pub minor: u16,
}

impl Version {
    pub fn new(major: u16, minor: u16) -> (r: Self)
        ensures
            r.major == major,
            r.minor == minor,
    {
        Version { major, minor }
    }
}

/// The stitched dataset.
#[derive(Debug)]
pub struct Stitched {
    pub version: Version,
    /// the list of input-files (one per analysis) that are used.
    pub sources: StitchSources,
    pub basic: StitchedSet,
    pub service_operation: Vec<(String, StitchedSet)>,
    /// keyed by Service/Operation; the values are all call-chains that end in that Service/Operation.
    pub call_chain: Vec<(String, Vec<CallChainData>)>,
}

/// The views of a slice of string slices.
pub open spec fn str_views(v: Seq<&str>) -> Seq<Seq<char>> {
    Seq::new(v.len(), |i: int| v[i]@)
}

/// Owned copies of the strings of `v`.
fn owned_strings(v: &[&str]) -> (r: Vec<String>)
    ensures
        views(r@) == str_views(v@),
{
    let mut r: Vec<String> = Vec::new();
    let mut i: usize = 0;
    while i < v.len()
        invariant
            i <= v@.len(),
            views(r@) == str_views(v@).take(i as int),
        decreases v@.len() - i,
    {
        let ghost old_r = r@;
        let s = v[i].to_owned();
        r.push(s);
        assert(views(r@) =~= views(old_r).push(v@[i as int]@));
        assert(str_views(v@).take(i + 1) =~= str_views(v@).take(i as int).push(v@[i as int]@));
        i = i + 1;
    }
    assert(str_views(v@).take(v@.len() as int) =~= str_views(v@));
    r
}

impl Stitched {
    pub fn new(
        sources: StitchSources,
        basic: StitchedSet,
        service_operation: Vec<(String, StitchedSet)>,
        call_chain: Vec<(String, Vec<CallChainData>)>,
    ) -> (r: Self)
        ensures
            r.version == (Version { major: 0, minor: 3 }),
            r.sources == sources,
            r.basic == basic,
            r.service_operation == service_operation,
            r.call_chain == call_chain,
    {
        Self { version: Version::new(0, 3), sources, basic, service_operation, call_chain }
    }

    /// The header of a summary line showing all metrics over one statistic, prefixed by the
    /// table-type columns; "NO DATA" when there is no service/operation.
    pub fn summary_header(&self, table_type: &[&str], extra_count: bool) -> (r: String)
        ensures
            r@ == join(str_views(table_type@), "; "@) + "; "@ + if self.service_operation@.len()
                == 0 {
                "NO DATA"@
            } else {
                join(summary_header_of(self.service_operation@[0].1.0@, extra_count), "; "@)
            },
    {
        let col_headers = if self.service_operation.len() == 0 {
            "NO DATA".to_owned()
        } else {
            let h = self.service_operation[0].1.summary_header(extra_count);
            join_strings(&h, "; ")
        };
        let tt = owned_strings(table_type);
        let mut r = join_strings(&tt, "; ");
        r.append("; ");
        r.append(col_headers.as_str());
        r
    }

    /// The header of a full data table: table-type columns followed by the headers of the first
    /// line of the first service/operation, or "NO DATA".
    pub fn full_data_header(&self, table_type: &[&str]) -> (r: String)
        ensures
            r@ == join(str_views(table_type@), "; "@) + "; "@ + if self.service_operation@.len()
                == 0 || self.service_operation@[0].1.0@.len() == 0 {
                "NO DATA"@
            } else {
                "label; NUM_FILLED; "@ + join(
                    super::stitched_line::column_headers(
                        self.service_operation@[0].1.0@[0].data@,
                    ),
                    "; "@,
                )
                    + "; ; ; best_fit; slope; y_intercept; r2; L1_norm; scaled_slope; last_deviation; periodic_growth; exp_a, exp_b; exp_r2; exp_last_dev;"@
            },
    {
        let tt = owned_strings(table_type);
        let mut r = join_strings(&tt, "; ");
        let col_headers = if self.service_operation.len() == 0
            || self.service_operation[0].1.0.len() == 0 {
            "NO DATA".to_owned()
        } else {
            self.service_operation[0].1.0[0].headers()
        };
        r.append("; ");
        r.append(col_headers.as_str());
        r
    }
}

/// The statistics of service `p` in `stats`: those of the first entry with that name.
pub open spec fn service_entry(stats: Seq<(String, Stats)>, p: Seq<char>) -> Option<Stats>
    decreases stats.len(),
{
    if stats.len() == 0 {
        None
    } else if stats[0].0@ == p {
        Some(stats[0].1)
    } else {
        service_entry(stats.drop_first(), p)
    }
}

/// The service statistics `st` name the operation `o`.
pub open spec fn has_operation(st: Stats, o: Seq<char>) -> bool {
    exists|j: int| 0 <= j < st.operation@.len() && (#[trigger] st.operation@[j])@ == o
}

/// The analysis `col` holds statistics of the operation of `key` in its service.
pub open spec fn serves(col: Option<StatsRec>, key: Key) -> bool {
    match col {
        Some(sr) => match service_entry(sr.stats@, key.process@) {
            Some(st) => has_operation(st, key.operation@),
            None => false,
        },
        None => false,
    }
}

/// `v` is the value of basic report item `m` in the column `col`: none for a column
/// without data, else what `value` gives for the analysis.
pub open spec fn basic_cell<B: Fn(&StatsRec, usize) -> Option<u64>>(value: B, col: Option<StatsRec>, m: int, v: Option<u64>) -> bool {
    match col {
        Some(sr) => value.ensures((&sr, m as usize), v),
        None => v is None,
    }
}

/// `v` is the value of service/operation report item `m` for `key` in the column `col`:
/// none where the column holds no statistics of that operation, else what `value` gives.
pub open spec fn po_cell<P: Fn(&StatsRec, &Key, usize) -> Option<u64>>(
    value: P,
    col: Option<StatsRec>,
    key: Key,
    m: int,
    v: Option<u64>,
) -> bool {
    match col {
        Some(sr) => if serves(col, key) {
            value.ensures((&sr, &key, m as usize), v)
        } else {
            v is None
        },
        None => v is None,
    }
}

/// `set` holds one line per label of `labels`, in order: the line of item `m` has that
/// label, one value per column of `data` (as `basic_cell` gives it) and their statistics.
pub open spec fn basic_set<B: Fn(&StatsRec, usize) -> Option<u64>, G: Fn(&Vec<Option<u64>>) -> (Option<u64>, BestFit)>(
    value: B,
    fit: G,
    data: Seq<Option<StatsRec>>,
    labels: Seq<String>,
    set: StitchedSet,
) -> bool {
    &&& set.0@.len() == labels.len()
    &&& forall|m: int|
        0 <= m < labels.len() ==> {
            &&& (#[trigger] set.0@[m]).label@ == labels[m]@
            &&& set.0@[m].data@.len() == data.len()
            &&& forall|c: int| 0 <= c < data.len() ==> basic_cell(value, data[c], m, #[trigger] set.0@[m].data@[c])
            &&& line_fits(fit, set.0@[m])
        }
}

/// `set` holds one line per label of `labels`, in order: the line of item `m` has that
/// label, one value per column of `data` for `key` (as `po_cell` gives it) and their statistics.
pub open spec fn po_set<P: Fn(&StatsRec, &Key, usize) -> Option<u64>, G: Fn(&Vec<Option<u64>>) -> (Option<u64>, BestFit)>(
    value: P,
    fit: G,
    data: Seq<Option<StatsRec>>,
    key: Key,
    labels: Seq<String>,
    set: StitchedSet,
) -> bool {
    &&& set.0@.len() == labels.len()
    &&& forall|m: int|
        0 <= m < labels.len() ==> {
            &&& (#[trigger] set.0@[m]).label@ == labels[m]@
            &&& set.0@[m].data@.len() == data.len()
            &&& forall|c: int| 0 <= c < data.len() ==> po_cell(value, data[c], key, m, #[trigger] set.0@[m].data@[c])
            &&& line_fits(fit, set.0@[m])
        }
}

/// `so` holds, for every key of `keys` in order, the key as "service/operation" and its
/// report lines over `data`.
pub open spec fn service_operation_sets<P: Fn(&StatsRec, &Key, usize) -> Option<u64>, G: Fn(&Vec<Option<u64>>) -> (Option<u64>, BestFit)>(
    value: P,
    fit: G,
    data: Seq<Option<StatsRec>>,
    labels: Seq<String>,
    keys: Seq<Key>,
    so: Seq<(String, StitchedSet)>,
) -> bool {
    &&& so.len() == keys.len()
    &&& forall|i: int|
        0 <= i < keys.len() ==> (#[trigger] so[i]).0@ == keys[i].process@ + seq!['/'] + keys[i].operation@
            && po_set(value, fit, data, keys[i], labels, so[i].1)
}

/// Every line of every call-chain set holds `n` values.
pub open spec fn chains_shaped(call_chain: Seq<(String, Vec<CallChainData>)>, n: nat) -> bool {
    forall|i: int, j: int, m: int|
        0 <= i < call_chain.len() && 0 <= j < call_chain[i].1@.len() && 0 <= m < call_chain[i].1@[j].data.0@.len()
            ==> (#[trigger] call_chain[i].1@[j].data.0@[m]).data@.len() == n
}

/// A sequence has at least as many elements as filled columns.
pub proof fn lemma_filled_count_le_len(data: Seq<Option<u64>>)
    ensures
        filled_count(data) <= data.len(),
    decreases data.len(),
{
    if data.len() > 0 {
        lemma_filled_count_le_len(data.drop_last());
    }
}

/// Whether the analysis `col` holds statistics of the operation of `key`.
fn serves_exec(col: &Option<StatsRec>, key: &Key) -> (b: bool)
    ensures
        b == serves(*col, *key),
{
    match col {
        None => false,
        Some(sr) => {
            let ghost p = key.process@;
            let mut e: usize = 0;
            assert(sr.stats@.skip(0) =~= sr.stats@);
            while e < sr.stats.len() && !str_eq(sr.stats[e].0.as_str(), key.process.as_str())
                invariant
                    e <= sr.stats@.len(),
                    p == key.process@,
                    service_entry(sr.stats@, p) == service_entry(sr.stats@.skip(e as int), p),
                decreases sr.stats.len() - e,
            {
                assert(sr.stats@.skip(e as int).drop_first() =~= sr.stats@.skip(e + 1));
                assert(sr.stats@.skip(e as int)[0] == sr.stats@[e as int]);
                assert(sr.stats@[e as int].0@ != p);
                assert(service_entry(sr.stats@.skip(e as int), p) == service_entry(sr.stats@.skip(e + 1), p));
                e = e + 1;
            }
            if e == sr.stats.len() {
                assert(sr.stats@.skip(e as int).len() == 0);
                return false;
            }
            let ops = &sr.stats[e].1.operation;
            assert(sr.stats@.skip(e as int)[0] == sr.stats@[e as int]);
            assert(service_entry(sr.stats@, p) == Some(sr.stats@[e as int].1));
            let mut j: usize = 0;
            while j < ops.len()
                invariant
                    j <= ops@.len(),
                    e < sr.stats@.len(),
                    *col == Some(*sr),
                    ops == &sr.stats@[e as int].1.operation,
                    service_entry(sr.stats@, key.process@) == Some(sr.stats@[e as int].1),
                    forall|t: int| 0 <= t < j ==> (#[trigger] ops@[t])@ != key.operation@,
                decreases ops.len() - j,
            {
                if str_eq(ops[j].as_str(), key.operation.as_str()) {
                    let ghost st = sr.stats@[e as int].1;
                    assert(st.operation@[j as int]@ == key.operation@);
                    assert(has_operation(st, key.operation@));
                    assert(serves(*col, *key));
                    return true;
                }
                j = j + 1;
            }
            false
        },
    }
}

/// The line of basic report item `m`, labelled `label`, over the columns of `data`.
fn basic_line<B: Fn(&StatsRec, usize) -> Option<u64>, G: Fn(&Vec<Option<u64>>) -> (Option<u64>, BestFit)>(
    data: &Vec<Option<StatsRec>>,
    m: usize,
    label: &String,
    value: &B,
    fit: &G,
) -> (r: StitchedLine)
    requires
        data@.len() <= u32::MAX,
        forall|sr: &StatsRec, k: usize| value.requires((sr, k)),
        forall|d: &Vec<Option<u64>>| fit.requires((d,)),
    ensures
        r.label@ == label@,
        r.data@.len() == data@.len(),
        forall|c: int| 0 <= c < data@.len() ==> basic_cell(*value, data@[c], m as int, #[trigger] r.data@[c]),
        line_fits(*fit, r),
{
    let mut vals: Vec<Option<u64>> = Vec::new();
    let mut c: usize = 0;
    while c < data.len()
        invariant
            c <= data@.len(),
            vals@.len() == c,
            forall|sr: &StatsRec, k: usize| value.requires((sr, k)),
            forall|t: int| 0 <= t < c ==> basic_cell(*value, data@[t], m as int, #[trigger] vals@[t]),
        decreases data.len() - c,
    {
        let v = match &data[c] {
            Some(sr) => value(sr, m),
            None => None,
        };
        vals.push(v);
        c = c + 1;
    }
    proof {
        lemma_filled_count_le_len(vals@);
    }
    StitchedLine::new(label.clone(), vals, fit)
}

/// The line of service/operation report item `m` for `key`, labelled `label`, over the columns of `data`.
fn po_line<P: Fn(&StatsRec, &Key, usize) -> Option<u64>, G: Fn(&Vec<Option<u64>>) -> (Option<u64>, BestFit)>(
    data: &Vec<Option<StatsRec>>,
    key: &Key,
    m: usize,
    label: &String,
    value: &P,
    fit: &G,
) -> (r: StitchedLine)
    requires
        data@.len() <= u32::MAX,
        forall|sr: &StatsRec, k: &Key, n: usize| value.requires((sr, k, n)),
        forall|d: &Vec<Option<u64>>| fit.requires((d,)),
    ensures
        r.label@ == label@,
        r.data@.len() == data@.len(),
        forall|c: int| 0 <= c < data@.len() ==> po_cell(*value, data@[c], *key, m as int, #[trigger] r.data@[c]),
        line_fits(*fit, r),
{
    let mut vals: Vec<Option<u64>> = Vec::new();
    let mut c: usize = 0;
    while c < data.len()
        invariant
            c <= data@.len(),
            vals@.len() == c,
            forall|sr: &StatsRec, k: &Key, n: usize| value.requires((sr, k, n)),
            forall|t: int| 0 <= t < c ==> po_cell(*value, data@[t], *key, m as int, #[trigger] vals@[t]),
        decreases data.len() - c,
    {
        let v = if serves_exec(&data[c], key) {
            match &data[c] {
                Some(sr) => value(sr, key, m),
                None => None,
            }
        } else {
            None
        };
        vals.push(v);
        c = c + 1;
    }
    proof {
        lemma_filled_count_le_len(vals@);
    }
    StitchedLine::new(label.clone(), vals, fit)
}

impl Stitched {
    /// Build a stitched dataset from the analysis results `data`, one per column of the
    /// stitch list `sources`. First the entries of services whose received plus unknown
    /// calls over all columns do not exceed `drop_count` are dropped. Then the basic set gets
    /// one line per label of `basic_labels`, and every (service, operation) pair of what
    /// remains, in order, one line per label of `po_labels`; each line holds one value per
    /// column, given by `basic_value` or `po_value` (none where a column has no data, or no
    /// statistics of that operation), and the statistics of those values (`fit` computes the
    /// floating-point ones). `call_chain` holds the statistics per call-chain, built by the
    /// caller. Also returns the number of dropped entries.
    pub fn build<
        B: Fn(&StatsRec, usize) -> Option<u64>,
        P: Fn(&StatsRec, &Key, usize) -> Option<u64>,
        G: Fn(&Vec<Option<u64>>) -> (Option<u64>, BestFit),
    >(
        sources: StitchSources,
        data: Vec<Option<StatsRec>>,
        drop_count: usize,
        basic_labels: &Vec<String>,
        basic_value: &B,
        po_labels: &Vec<String>,
        po_value: &P,
        fit: &G,
        call_chain: Vec<(String, Vec<CallChainData>)>,
    ) -> (r: (Stitched, usize))
        requires
            totals_fit(data@),
            num_low(data@, data@.len() as int, drop_count) <= usize::MAX,
            data@.len() <= u32::MAX,
            chains_shaped(call_chain@, data@.len()),
            forall|sr: &StatsRec, k: usize| basic_value.requires((sr, k)),
            forall|sr: &StatsRec, k: &Key, n: usize| po_value.requires((sr, k, n)),
            forall|d: &Vec<Option<u64>>| fit.requires((d,)),
        ensures
            r.0.version == (Version { major: 0, minor: 3 }),
            r.0.sources == sources,
            r.0.call_chain == call_chain,
            chains_shaped(r.0.call_chain@, data@.len()),
            r.1 == num_low(data@, data@.len() as int, drop_count),
            exists|kept: Seq<Option<StatsRec>>, keys: Seq<Key>|
                {
                    &&& dropped_from(data@, kept, drop_count)
                    &&& kept.len() == data@.len()
                    &&& basic_set(*basic_value, *fit, kept, basic_labels@, r.0.basic)
                    &&& report_keys(kept, keys)
                    &&& service_operation_sets(*po_value, *fit, kept, po_labels@, keys, r.0.service_operation@)
                },
    {
        let ghost d = data@;
        let mut series = DataSeries(data);
        let num_dropped = series.drop_low_volume_traces(drop_count);
        let kept = series.0;
        let mut basic_lines: Vec<StitchedLine> = Vec::new();
        let mut m: usize = 0;
        while m < basic_labels.len()
            invariant
                m <= basic_labels@.len(),
                kept@.len() <= u32::MAX,
                forall|sr: &StatsRec, k: usize| basic_value.requires((sr, k)),
                forall|d: &Vec<Option<u64>>| fit.requires((d,)),
                basic_lines@.len() == m,
                forall|t: int| 0 <= t < m ==> {
                    &&& (#[trigger] basic_lines@[t]).label@ == basic_labels@[t]@
                    &&& basic_lines@[t].data@.len() == kept@.len()
                    &&& forall|c: int| 0 <= c < kept@.len() ==> basic_cell(*basic_value, kept@[c], t, #[trigger] basic_lines@[t].data@[c])
                    &&& line_fits(*fit, basic_lines@[t])
                },
            decreases basic_labels.len() - m,
        {
            let line = basic_line(&kept, m, &basic_labels[m], basic_value, fit);
            basic_lines.push(line);
            m = m + 1;
        }
        let basic = StitchedSet(basic_lines);
        let kept_slice = kept.as_slice();
        let keys = get_keys(kept_slice);
        assert(kept_slice@ == kept@);
        let mut service_operation: Vec<(String, StitchedSet)> = Vec::new();
        let mut i: usize = 0;
        while i < keys.len()
            invariant
                i <= keys@.len(),
                kept@.len() <= u32::MAX,
                forall|sr: &StatsRec, k: &Key, n: usize| po_value.requires((sr, k, n)),
                forall|d: &Vec<Option<u64>>| fit.requires((d,)),
                service_operation@.len() == i,
                forall|j: int|
                    0 <= j < i ==> (#[trigger] service_operation@[j]).0@ == keys@[j].process@ + seq!['/']
                        + keys@[j].operation@ && po_set(*po_value, *fit, kept@, keys@[j], po_labels@, service_operation@[j].1),
            decreases keys.len() - i,
        {
            let mut lines: Vec<StitchedLine> = Vec::new();
            let mut m: usize = 0;
            while m < po_labels.len()
                invariant
                    m <= po_labels@.len(),
                    i < keys@.len(),
                    kept@.len() <= u32::MAX,
                    forall|sr: &StatsRec, k: &Key, n: usize| po_value.requires((sr, k, n)),
                    forall|d: &Vec<Option<u64>>| fit.requires((d,)),
                    lines@.len() == m,
                    forall|t: int| 0 <= t < m ==> {
                        &&& (#[trigger] lines@[t]).label@ == po_labels@[t]@
                        &&& lines@[t].data@.len() == kept@.len()
                        &&& forall|c: int| 0 <= c < kept@.len() ==> po_cell(*po_value, kept@[c], keys@[i as int], t, #[trigger] lines@[t].data@[c])
                        &&& line_fits(*fit, lines@[t])
                    },
                decreases po_labels.len() - m,
            {
                let line = po_line(&kept, &keys[i], m, &po_labels[m], po_value, fit);
                lines.push(line);
                m = m + 1;
            }
            let set = StitchedSet(lines);
            assert(po_set(*po_value, *fit, kept@, keys@[i as int], po_labels@, set));
            let name = keys[i].to_string();
            service_operation.push((name, set));
            i = i + 1;
        }
        let ghost kv = kept@;
        let r = Stitched::new(sources, basic, service_operation, call_chain);
        assert(service_operation_sets(*po_value, *fit, kv, po_labels@, keys@, r.service_operation@));
        assert(basic_set(*basic_value, *fit, kv, basic_labels@, r.basic));
        assert(dropped_from(d, kv, drop_count));
        assert(report_keys(kv, keys@));
        (r, num_dropped)
    }
}

} // verus!
