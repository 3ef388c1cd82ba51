//! Types exchanged with viewers of a dataset.
use vstd::prelude::*;

verus! {

/// A numbered label of a data column, with whether the column is selected.
#[derive(Clone, Debug)]
pub struct Label {
    pub idx: i64,
    pub label: String,
    pub selected: bool,
}

/// A selection of the data columns.
pub type Selection = Vec<Label>;

/// A labelled line of values, one per column; each value is the bit pattern of the
/// measured number (as `StitchedLine` holds it), or `None` for a column without data.
#[derive(Debug)]
pub struct ChartLine {
    pub label: String,
    pub data: Vec<Option<u64>>,
}

/// A table: the labels of its columns and its lines.
#[derive(Debug)]
pub struct Table {
    pub column_labels: Vec<String>,
    pub data: Vec<ChartLine>,
}

} // verus!
