//! The key of a process/operation combination.
use vstd::prelude::*;
use vstd::string::*;

verus! {

/// A process (service) together with one of its operations.
#[derive(Clone, Debug, PartialEq, Eq, Hash, PartialOrd, Ord)]
pub struct Key {
    pub process: String,
    pub operation: String,
}

impl Key {
    /// The textual form "process/operation".
    pub fn to_string(&self) -> (r: String)
        ensures
            r@ == self.process@ + seq!['/'] + self.operation@,
    {
        let mut r = self.process.clone();
        crate::text::push_char(&mut r, '/');
        r.append(self.operation.as_str());
        r
    }
}

} // verus!
