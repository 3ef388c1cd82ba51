//! A set of stitched lines, one per metric.
use super::stitched_line::{filled_count, line_fits, BestFit, StitchedLine};
use crate::text::{to_uppercase_str, uppercased, views};
use vstd::prelude::*;
use vstd::string::*;

verus! {

/// A StitchedSet holds one StitchedLine per metric, each labeled with the name of its metric.
#[derive(Debug)]
pub struct StitchedSet(pub Vec<StitchedLine>);

/// The labels of the lines.
pub open spec fn labels_of(lines: Seq<StitchedLine>) -> Seq<Seq<char>> {
    Seq::new(lines.len(), |i: int| lines[i].label@)
}

/// The header of a summary over all metrics of `lines`; with `extra_count` it is prefixed by
/// the upper-cased label of the first line (or "NO DATA") and "NUM_FILLED".
pub open spec fn summary_header_of(lines: Seq<StitchedLine>, extra_count: bool) -> Seq<Seq<char>> {
    if extra_count {
        let count_label = if lines.len() > 0 {
            uppercased(lines[0].label@)
        } else {
            "NO DATA"@
        };
        seq![count_label, "NUM_FILLED"@] + labels_of(lines)
    } else {
        labels_of(lines)
    }
}

/// The values of `data` in the columns marked in `selection` (as far as both reach), in order.
pub open spec fn masked(data: Seq<Option<u64>>, selection: Seq<bool>) -> Seq<Option<u64>>
    decreases data.len(),
{
    let n = if data.len() < selection.len() { data.len() } else { selection.len() };
    if n == 0 {
        seq![]
    } else {
        let prev = masked(data.take(n - 1), selection.take(n - 1));
        if selection[n - 1] {
            prev.push(data[n - 1])
        } else {
            prev
        }
    }
}

/// `made` keeps the label of `line` and holds its values in the columns marked in
/// `selection`, with the statistics of those values.
pub open spec fn line_selected<G: Fn(&Vec<Option<u64>>) -> (Option<u64>, BestFit)>(
    fit: G,
    line: StitchedLine,
    selection: Seq<bool>,
    made: StitchedLine,
) -> bool {
    &&& made.label@ == line.label@
    &&& made.data@ == masked(line.data@, selection)
    &&& line_fits(fit, made)
}

/// Some value of `data` is present.
pub open spec fn has_value(data: Seq<Option<u64>>) -> bool {
    exists|i: int| 0 <= i < data.len() && (#[trigger] data[i]) is Some
}

impl StitchedSet {
    /// The header names of a summary with one statistic per metric.
    pub fn summary_header(&self, extra_count: bool) -> (r: Vec<String>)
        ensures
            views(r@) == summary_header_of(self.0@, extra_count),
    {
        let mut r: Vec<String> = Vec::new();
        if extra_count {
            let count_label = if self.0.len() > 0 {
                to_uppercase_str(self.0[0].label.as_str())
            } else {
                "NO DATA".to_owned()
            };
            r.push(count_label);
            r.push("NUM_FILLED".to_owned());
        }
        let ghost prefix = views(r@);
        let mut i: usize = 0;
        while i < self.0.len()
            invariant
                i <= self.0.len(),
                r@.len() == prefix.len() + i,
                views(r@) == prefix + labels_of(self.0@).take(i as int),
            decreases self.0.len() - i,
        {
            let ghost old_r = r@;
            let l = self.0[i].label.clone();
            r.push(l);
            assert(views(r@) =~= views(old_r).push(self.0@[i as int].label@));
            assert(labels_of(self.0@).take(i + 1) =~= labels_of(self.0@).take(i as int).push(
                self.0@[i as int].label@,
            ));
            i = i + 1;
        }
        assert(labels_of(self.0@).take(self.0.len() as int) =~= labels_of(self.0@));
        assert(views(r@) =~= summary_header_of(self.0@, extra_count));
        r
    }

    /// The first line whose label equals `metric`, if any.
    pub fn get_metric_stitched_line(&self, metric: &str) -> (r: Option<&StitchedLine>)
        ensures
            match r {
                Some(line) => exists|i: int|
                    0 <= i < self.0@.len() && self.0@[i] == *line && line.label@ == metric@ && forall|
                        j: int,
                    | 0 <= j < i ==> #[trigger] self.0@[j].label@ != metric@,
                None => forall|j: int| 0 <= j < self.0@.len() ==> #[trigger] self.0@[j].label@ != metric@,
            },
    {
        let mut i: usize = 0;
        while i < self.0.len()
            invariant
                i <= self.0.len(),
                forall|j: int| 0 <= j < i ==> #[trigger] self.0@[j].label@ != metric@,
            decreases self.0.len() - i,
        {
            if crate::text::str_eq(self.0[i].label.as_str(), metric) {
                return Some(&self.0[i]);
            }
            i = i + 1;
        }
        None
    }
    /// This set restricted to the columns marked in `selection`: every line keeps its label
    /// and the values of the selected columns, and gets the statistics of those values
    /// (`fit` computes the floating-point ones). `None` when no line keeps any value.
    pub fn get_selection<G: Fn(&Vec<Option<u64>>) -> (Option<u64>, BestFit)>(
        &self,
        selection: &Vec<bool>,
        fit: &G,
    ) -> (r: Option<StitchedSet>)
        requires
            forall|d: &Vec<Option<u64>>| fit.requires((d,)),
            forall|i: int| 0 <= i < self.0@.len() ==> filled_count(masked((#[trigger] self.0@[i]).data@, selection@)) <= u32::MAX,
        ensures
            r is Some <==> exists|i: int|
                0 <= i < self.0@.len() && has_value(masked((#[trigger] self.0@[i]).data@, selection@)),
            r matches Some(set) ==> set.0@.len() == self.0@.len() && forall|i: int|
                0 <= i < self.0@.len() ==> line_selected(*fit, self.0@[i], selection@, #[trigger] set.0@[i]),
    {
        let mut labels: Vec<String> = Vec::new();
        let mut columns: Vec<Vec<Option<u64>>> = Vec::new();
        let mut any_value: bool = false;
        let mut i: usize = 0;
        while i < self.0.len()
            invariant
                i <= self.0@.len(),
                labels@.len() == i,
                columns@.len() == i,
                forall|k: int| 0 <= k < i ==> (#[trigger] labels@[k])@ == self.0@[k].label@,
                forall|k: int| 0 <= k < i ==> (#[trigger] columns@[k])@ == masked(self.0@[k].data@, selection@),
                any_value <==> exists|k: int| 0 <= k < i && has_value(masked((#[trigger] self.0@[k]).data@, selection@)),
            decreases self.0.len() - i,
        {
            let data = &self.0[i].data;
            let mut selected: Vec<Option<u64>> = Vec::new();
            let mut has: bool = false;
            let mut j: usize = 0;
            while j < data.len() && j < selection.len()
                invariant
                    j <= data@.len(),
                    j <= selection@.len(),
                    selected@ == masked(data@.take(j as int), selection@.take(j as int)),
                    has <==> has_value(selected@),
                decreases data.len() - j,
            {
                proof {
                    let dj = data@.take(j + 1);
                    let sj = selection@.take(j + 1);
                    assert(dj.take(j as int) =~= data@.take(j as int));
                    assert(sj.take(j as int) =~= selection@.take(j as int));
                }
                if selection[j] {
                    let ghost before = selected@;
                    selected.push(data[j]);
                    proof {
                        assert(selected@[before.len() as int] == data@[j as int]);
                        if has_value(before) {
                            let k = choose|k: int| 0 <= k < before.len() && (#[trigger] before[k]) is Some;
                            assert(selected@[k] == before[k]);
                        }
                        if has_value(selected@) {
                            let k = choose|k: int| 0 <= k < selected@.len() && (#[trigger] selected@[k]) is Some;
                            if k < before.len() {
                                assert(before[k] == selected@[k]);
                            }
                        }
                        assert(has_value(selected@) == (has_value(before) || data@[j as int] is Some));
                    }
                    if data[j].is_some() {
                        has = true;
                    }
                }
                j = j + 1;
            }
            proof {
                let n = if data@.len() < selection@.len() { data@.len() } else { selection@.len() };
                assert(j == n);
                assert(masked(data@, selection@) == masked(data@.take(n as int), selection@.take(n as int))) by {
                    if n > 0 {
                        assert(data@.take(n as int).take(n - 1) =~= data@.take(n - 1));
                        assert(selection@.take(n as int).take(n - 1) =~= selection@.take(n - 1));
                    } else {
                        assert(masked(data@, selection@) =~= Seq::<Option<u64>>::empty());
                        assert(masked(data@.take(0), selection@.take(0)) =~= Seq::<Option<u64>>::empty());
                    }
                }
            }
            labels.push(self.0[i].label.clone());
            columns.push(selected);
            if has {
                any_value = true;
            }
            i = i + 1;
        }
        if !any_value {
            return None;
        }
        let mut lines: Vec<StitchedLine> = Vec::new();
        let ghost all_columns = columns@;
        let ghost all_labels = labels@;
        let n = self.0.len();
        let mut k: usize = 0;
        assert(labels@ =~= all_labels.skip(0));
        assert(columns@ =~= all_columns.skip(0));
        while labels.len() > 0
            invariant
                k <= self.0@.len(),
                self.0@.len() == n,
                all_labels.len() == self.0@.len(),
                all_columns.len() == self.0@.len(),
                labels@ == all_labels.skip(k as int),
                columns@ == all_columns.skip(k as int),
                forall|m: int| 0 <= m < self.0@.len() ==> (#[trigger] all_labels[m])@ == self.0@[m].label@,
                forall|m: int| 0 <= m < self.0@.len() ==> (#[trigger] all_columns[m])@ == masked(self.0@[m].data@, selection@),
                forall|d: &Vec<Option<u64>>| fit.requires((d,)),
                forall|i: int| 0 <= i < self.0@.len() ==> filled_count(masked((#[trigger] self.0@[i]).data@, selection@)) <= u32::MAX,
                lines@.len() == k,
                forall|m: int| 0 <= m < k ==> line_selected(*fit, self.0@[m], selection@, #[trigger] lines@[m]),
            decreases labels.len(),
        {
            let ghost lb = labels@;
            let ghost cb = columns@;
            let label = labels.remove(0);
            let column = columns.remove(0);
            proof {
                assert(lb[0] == all_labels[k as int]);
                assert(cb[0] == all_columns[k as int]);
                assert(labels@ =~= all_labels.skip(k + 1));
                assert(columns@ =~= all_columns.skip(k + 1));
            }
            let ghost lg = label;
            let ghost cg = column;
            let ghost before_lines = lines@;
            assert(cg@ == masked(self.0@[k as int].data@, selection@));
            let line = StitchedLine::new(label, column, fit);
            lines.push(line);
            proof {
                assert(lg@ == self.0@[k as int].label@);
                assert(line_selected(*fit, self.0@[k as int], selection@, lines@[k as int]));
                assert forall|m: int| 0 <= m < k + 1 implies line_selected(*fit, self.0@[m], selection@, #[trigger] lines@[m]) by {
                    if m < k {
                        assert(lines@[m] == before_lines[m]);
                    }
                }
            }
            k = k + 1;
        }
        Some(StitchedSet(lines))
    }
}

} // verus!
