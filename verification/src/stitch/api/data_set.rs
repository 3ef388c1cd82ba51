//! A stitched dataset with a selection of its columns.
use super::super::stitched::Stitched;
use super::super::stitched_set::StitchedSet;
use super::selection::{derived_from, full_selection_of, get_derived_stitched, get_full_selection};
use super::types::{Label, Selection};
use super::types::Table;
use super::{basic_lines, chart_lines, column_descriptions, dates_ok, get_file_stats, label_list, try_get_label_list};
use vstd::prelude::*;

verus! {

/// Errors when loading a dataset or changing its selection.
#[allow(non_camel_case_types)]
#[derive(Debug)]
pub enum Error {
    /// loading a file failed: the file name and the error.
    load_failure(String, String),
    /// the file does not exist.
    does_not_exist(String),
    /// the selection has a different length (first) than the dataset has columns (second).
    selection_failure(usize, usize),
}

/// A stitched dataset, the columns selected from it, and the data of that selection.
pub struct StitchedDataSet {
    /// The data of the current selection; `None` while every column is selected, as the
    /// data is then the original itself.
    current: Option<Stitched>,
    /// The dataset as loaded.
    original: Stitched,
    data_selection: Selection,
}

/// The labels of the selected columns, in order.
pub open spec fn selected_labels(sel: Seq<Label>) -> Seq<Seq<char>>
    decreases sel.len(),
{
    if sel.len() == 0 {
        seq![]
    } else {
        let prev = selected_labels(sel.drop_last());
        if sel.last().selected {
            prev.push(sel.last().label@)
        } else {
            prev
        }
    }
}

impl StitchedDataSet {
    /// The dates in the source descriptions of the loaded dataset are valid.
    #[verifier::type_invariant]
    closed spec fn inv(self) -> bool {
        dates_ok(column_descriptions(self.original.sources.view_items()))
    }

    /// The dataset as loaded.
    pub closed spec fn original_data(&self) -> Stitched {
        self.original
    }

    /// The data of the current selection.
    pub closed spec fn current_data(&self) -> Stitched {
        match self.current {
            Some(d) => d,
            None => self.original,
        }
    }

    /// The columns and whether each is selected.
    pub closed spec fn selection(&self) -> Seq<Label> {
        self.data_selection@
    }

    /// A dataset with all of its columns selected.
    pub fn new(data: Stitched) -> (r: Self)
        requires
            dates_ok(column_descriptions(data.sources.view_items())),
        ensures
            r.original_data() == data,
            r.current_data() == data,
            full_selection_of(label_list(column_descriptions(data.sources.view_items())), r.selection()),
    {
        let data_selection = get_full_selection(&data);
        StitchedDataSet { current: None, original: data, data_selection }
    }

    /// A dataset with all of its columns selected, or `None` when a source description
    /// holds a date with an invalid month.
    pub fn try_new(data: Stitched) -> (r: Option<Self>)
        ensures
            r is Some <==> dates_ok(column_descriptions(data.sources.view_items())),
            r matches Some(ds) ==> ds.original_data() == data && ds.current_data() == data
                && full_selection_of(label_list(column_descriptions(data.sources.view_items())), ds.selection()),
    {
        if try_get_label_list(&data).is_some() {
            Some(Self::new(data))
        } else {
            None
        }
    }

    /// The labels of the selected columns.
    pub fn get_label_list(&self) -> (r: Vec<String>)
        ensures
            crate::text::views(r@) == selected_labels(self.selection()),
    {
        let mut r: Vec<String> = Vec::new();
        let mut i: usize = 0;
        while i < self.data_selection.len()
            invariant
                i <= self.data_selection@.len(),
                crate::text::views(r@) == selected_labels(self.data_selection@.take(i as int)),
            decreases self.data_selection.len() - i,
        {
            proof {
                assert(self.data_selection@.take(i + 1).drop_last() =~= self.data_selection@.take(i as int));
                assert(self.data_selection@.take(i + 1).last() == self.data_selection@[i as int]);
            }
            if self.data_selection[i].selected {
                let ghost before = crate::text::views(r@);
                r.push(self.data_selection[i].label.clone());
                assert(crate::text::views(r@) =~= before.push(self.data_selection@[i as int].label@));
            }
            i = i + 1;
        }
        assert(self.data_selection@.take(i as int) =~= self.data_selection@);
        r
    }

    /// The statistics per input file, always of the dataset as loaded.
    pub fn get_file_stats(&self) -> (r: Table)
        ensures
            crate::text::views(r.column_labels@) == label_list(
                column_descriptions(self.original_data().sources.view_items()),
            ),
            chart_lines(r.data@) == basic_lines(self.original_data().basic.0@),
    {
        proof {
            use_type_invariant(self);
        }
        get_file_stats(&self.original)
    }

    /// The columns and whether each is selected.
    pub fn get_selection(&self) -> (r: &Selection)
        ensures
            r@ == self.selection(),
    {
        &self.data_selection
    }

    /// Select the columns marked in `selected`, one flag per column: the current data
    /// becomes the original when all are selected, else the original restricted to them
    /// (each statistics set restricted by `select`). A flag list of another length than
    /// the number of columns is refused and changes nothing.
    pub fn set_selection<F: Fn(&StitchedSet, &Vec<bool>) -> Option<StitchedSet>>(
        &mut self,
        selected: Vec<bool>,
        select: &F,
    ) -> (r: Result<(), Error>)
        requires
            forall|x: &StitchedSet, y: &Vec<bool>| select.requires((x, y)),
        ensures
            final(self).original_data() == old(self).original_data(),
            selected@.len() != old(self).selection().len() ==> {
                &&& r == Err::<(), Error>(Error::selection_failure(selected@.len() as usize, old(self).selection().len() as usize))
                &&& final(self).current_data() == old(self).current_data()
                &&& final(self).selection() == old(self).selection()
            },
            selected@.len() == old(self).selection().len() ==> {
                &&& r is Ok
                &&& final(self).selection().len() == old(self).selection().len()
                &&& forall|i: int|
                    0 <= i < selected@.len() ==> (#[trigger] final(self).selection()[i]).idx == old(
                        self,
                    ).selection()[i].idx && final(self).selection()[i].label == old(self).selection()[i].label
                        && final(self).selection()[i].selected == selected@[i]
                &&& (forall|i: int| 0 <= i < selected@.len() ==> #[trigger] selected@[i]) ==> final(self).current_data()
                    == old(self).original_data()
                &&& !(forall|i: int| 0 <= i < selected@.len() ==> #[trigger] selected@[i]) ==> derived_from(
                    *select,
                    selected,
                    old(self).original_data(),
                    final(self).current_data(),
                )
            },
    {
        proof {
            use_type_invariant(&*self);
        }
        let orig_len = self.data_selection.len();
        let select_len = selected.len();
        if orig_len != select_len {
            return Err(Error::selection_failure(select_len, orig_len));
        }
        let mut all: bool = true;
        let mut k: usize = 0;
        while k < selected.len()
            invariant
                k <= selected@.len(),
                all <==> forall|j: int| 0 <= j < k ==> selected@[j],
            decreases selected.len() - k,
        {
            if !selected[k] {
                all = false;
            }
            k = k + 1;
        }
        if all {
            self.current = None;
        } else {
            let derived = get_derived_stitched(&self.original, &selected, select);
            self.current = Some(derived);
        }
        let ghost old_sel = self.data_selection@;
        let ghost cur = self.current;
        let mut idx: usize = 0;
        while idx < selected.len()
            invariant
                idx <= selected@.len(),
                self.original == old(self).original,
                dates_ok(column_descriptions(self.original.sources.view_items())),
                self.current == cur,
                selected@.len() == old_sel.len(),
                self.data_selection@.len() == old_sel.len(),
                forall|i: int|
                    0 <= i < old_sel.len() ==> (#[trigger] self.data_selection@[i]).idx == old_sel[i].idx
                        && self.data_selection@[i].label == old_sel[i].label,
                forall|i: int| 0 <= i < idx ==> (#[trigger] self.data_selection@[i]).selected == selected@[i],
                forall|i: int| idx <= i < old_sel.len() ==> (#[trigger] self.data_selection@[i]).selected == old_sel[i].selected,
            decreases selected.len() - idx,
        {
            self.data_selection[idx].selected = selected[idx];
            idx = idx + 1;
        }
        Ok(())
    }
}

} // verus!
