//! A single trace-analysis result as a dataset.
use crate::stats::StatsRec;
use crate::text::{replace_chars, replace_chars_exec};
use vstd::prelude::*;
use vstd::string::*;

verus! {

/// The result of one trace analysis, viewed as a dataset.
pub struct TraceDataSet(pub StatsRec);

impl TraceDataSet {
    pub fn new(data: StatsRec) -> (r: Self)
        ensures
            r.0 == data,
    {
        Self(data)
    }
}

/// The name of the file that holds the diagram of `proc_oper`: the name with every '/'
/// and '\\' (not allowed in a file name) replaced by '_', and the extension ".mermaid".
pub fn diagram_file_name(proc_oper: &str) -> (r: String)
    ensures
        r@ == replace_chars(proc_oper@, seq!['/', '\\'], '_') + ".mermaid"@,
{
    let mut from: Vec<char> = Vec::new();
    from.push('/');
    from.push('\\');
    assert(from@ =~= seq!['/', '\\']);
    let mut name = replace_chars_exec(proc_oper, &from, '_');
    name.append(".mermaid");
    name
}

} // verus!
