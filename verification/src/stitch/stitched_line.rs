//! A time-series of one metric over the stitched columns.
use crate::text::{decimal, join, push_char, push_decimal};
use vstd::prelude::*;
use vstd::string::*;

verus! {

/// The regression model that fits a stitched line best.
#[derive(Clone, Copy, Debug, PartialEq, Eq, Structural)]
pub enum BestFit {
    LinRegr,
    ExprRegr,
    NoFit,
}

/// The name of a best-fit model as shown in csv output.
pub open spec fn best_fit_name(b: BestFit) -> Seq<char> {
    match b {
        BestFit::LinRegr => seq!['L', 'i', 'n', 'e', 'a', 'r'],
        BestFit::ExprRegr => seq!['E', 'x', 'p', 'o', 'n', 'e', 'n', 't', 'i', 'a', 'l'],
        BestFit::NoFit => seq![],
    }
}

impl BestFit {
    /// "Linear", "Exponential" or the empty string.
    pub fn to_string(&self) -> (r: String)
        ensures
            r@ == best_fit_name(*self),
    {
        let mut r = String::new();
        match self {
            BestFit::LinRegr => {
                r.append("Linear");
                proof { reveal_strlit("Linear"); }
            },
            BestFit::ExprRegr => {
                r.append("Exponential");
                proof { reveal_strlit("Exponential"); }
            },
            BestFit::NoFit => {},
        }
        assert(r@ =~= best_fit_name(*self));
        r
    }
}

/// A line of values for one metric (one value per stitched column).
/// Each value is the bit pattern (`f64::to_bits`) of the measured number, or `None` for a column without data.
#[derive(Debug)]
pub struct StitchedLine {
    pub label: String,
    pub data: Vec<Option<u64>>,
    pub num_filled_columns: u32,
    pub data_avg: Option<u64>,
    pub best_fit: BestFit,
}

/// The header name of one column: its index, prefixed by '_' when the column holds no value.
pub open spec fn column_header(idx: nat, filled: bool) -> Seq<char> {
    if filled {
        decimal(idx)
    } else {
        seq!['_'] + decimal(idx)
    }
}

/// The header names of all columns of `data`.
pub open spec fn column_headers(data: Seq<Option<u64>>) -> Seq<Seq<char>> {
    Seq::new(data.len(), |i: int| column_header(i as nat, data[i] is Some))
}

/// A short-term trend is fitted only to a line with at least this many times the number
/// of short-term points.
pub const MIN_POINTS_FOR_ST_MULTIPLIER: usize = 2;

/// The last `st_num_points` values of `data`, to which a short-term trend is fitted, when
/// `data` holds at least `MIN_POINTS_FOR_ST_MULTIPLIER` times as many; else `None`.
pub fn short_term_data(data: &Vec<Option<u64>>, st_num_points: usize) -> (r: Option<Vec<Option<u64>>>)
    requires
        MIN_POINTS_FOR_ST_MULTIPLIER * st_num_points <= usize::MAX,
    ensures
        r is Some <==> data@.len() >= MIN_POINTS_FOR_ST_MULTIPLIER * st_num_points,
        r matches Some(v) ==> v@ == data@.skip(data@.len() - st_num_points),
{
    if data.len() < MIN_POINTS_FOR_ST_MULTIPLIER * st_num_points {
        return None;
    }
    let start = data.len() - st_num_points;
    let mut v: Vec<Option<u64>> = Vec::new();
    let mut i: usize = start;
    while i < data.len()
        invariant
            start <= i <= data@.len(),
            v@ == data@.subrange(start as int, i as int),
        decreases data.len() - i,
    {
        v.push(data[i]);
        assert(data@.subrange(start as int, i + 1) =~= data@.subrange(start as int, i as int).push(data@[i as int]));
        i = i + 1;
    }
    assert(data@.subrange(start as int, data@.len() as int) =~= data@.skip(start as int));
    Some(v)
}

/// The number of columns of `data` that hold a value.
pub open spec fn filled_count(data: Seq<Option<u64>>) -> nat
    decreases data.len(),
{
    if data.len() == 0 {
        0
    } else {
        filled_count(data.drop_last()) + if data.last() is Some { 1nat } else { 0nat }
    }
}

/// The filled columns are the columns that hold a value.
pub proof fn law_filled_count_counts_values(data: Seq<Option<u64>>)
    ensures
        filled_count(data) == data.filter(|v: Option<u64>| v is Some).len(),
    decreases data.len(),
{
    reveal_with_fuel(Seq::filter, 1);
    if data.len() > 0 {
        law_filled_count_counts_values(data.drop_last());
    }
}

/// A prefix of `data` has at most as many filled columns as `data`.
pub proof fn lemma_filled_count_prefix(data: Seq<Option<u64>>, n: int)
    requires
        0 <= n <= data.len(),
    ensures
        filled_count(data.take(n)) <= filled_count(data),
    decreases data.len() - n,
{
    if n < data.len() {
        lemma_filled_count_prefix(data, n + 1);
        assert(data.take(n + 1).drop_last() =~= data.take(n));
    } else {
        assert(data.take(n) =~= data);
    }
}

/// The statistics of `line` are those of its values: the number of filled columns is
/// counted, and the average and best-fitting model are what `fit` computes from the values.
pub open spec fn line_fits<G: Fn(&Vec<Option<u64>>) -> (Option<u64>, BestFit)>(fit: G, line: StitchedLine) -> bool {
    &&& line.num_filled_columns == filled_count(line.data@)
    &&& fit.ensures((&line.data,), (line.data_avg, line.best_fit))
}

impl StitchedLine {
    /// A line with `label` and the values `data`, one per column. The filled columns are
    /// counted here; the average and the best-fitting regression model are computed in
    /// floating point by `fit`.
    pub fn new<G: Fn(&Vec<Option<u64>>) -> (Option<u64>, BestFit)>(label: String, data: Vec<Option<u64>>, fit: &G) -> (r: Self)
        requires
            filled_count(data@) <= u32::MAX,
            fit.requires((&data,)),
        ensures
            r.label@ == label@,
            r.data@ == data@,
            line_fits(*fit, r),
    {
        let mut cnt: u32 = 0;
        let mut i: usize = 0;
        while i < data.len()
            invariant
                i <= data@.len(),
                cnt == filled_count(data@.take(i as int)),
                filled_count(data@) <= u32::MAX,
            decreases data.len() - i,
        {
            proof {
                assert(data@.take(i + 1).drop_last() =~= data@.take(i as int));
                lemma_filled_count_prefix(data@, i + 1);
            }
            if data[i].is_some() {
                cnt = cnt + 1;
            }
            i = i + 1;
        }
        assert(data@.take(data.len() as int) =~= data@);
        let (data_avg, best_fit) = fit(&data);
        StitchedLine { label, data, num_filled_columns: cnt, data_avg, best_fit }
    }

    /// The csv header that belongs to a data row of this line.
    pub fn headers(&self) -> (r: String)
        ensures
            r@ == "label; NUM_FILLED; "@ + join(column_headers(self.data@), "; "@)
                + "; ; ; best_fit; slope; y_intercept; r2; L1_norm; scaled_slope; last_deviation; periodic_growth; exp_a, exp_b; exp_r2; exp_last_dev;"@,
    {
        let mut cols: Vec<String> = Vec::new();
        let mut i: usize = 0;
        while i < self.data.len()
            invariant
                i <= self.data.len(),
                crate::text::views(cols@) == column_headers(self.data@).take(i as int),
            decreases self.data.len() - i,
        {
            let mut h = String::new();
            if self.data[i].is_none() {
                push_char(&mut h, '_');
            }
            push_decimal(&mut h, i);
            assert(h@ == column_header(i as nat, self.data@[i as int] is Some));
            let ghost old_cols = cols@;
            let ghost hv = h@;
            cols.push(h);
            assert(crate::text::views(cols@) =~= crate::text::views(old_cols).push(hv));
            assert(column_headers(self.data@).take(i + 1) =~= column_headers(self.data@).take(
                i as int,
            ).push(hv));
            i = i + 1;
        }
        assert(column_headers(self.data@).take(self.data.len() as int) =~= column_headers(
            self.data@,
        ));
        let columns = crate::text::join_strings(&cols, "; ");
        let mut r = String::new();
        r.append("label; NUM_FILLED; ");
        r.append(columns.as_str());
        r.append(
            "; ; ; best_fit; slope; y_intercept; r2; L1_norm; scaled_slope; last_deviation; periodic_growth; exp_a, exp_b; exp_r2; exp_last_dev;",
        );
        r
    }
}

} // verus!
