//! Turning a name into a Mermaid node identifier.
use crate::text::{replace_chars, replace_chars_exec};
use vstd::prelude::*;

verus! {

/// `name` with every space replaced by an underscore.
pub fn escape_name(name: &str) -> (r: String)
    ensures
        r@ == replace_chars(name@, seq![' '], '_'),
{
    let mut from: Vec<char> = Vec::new();
    from.push(' ');
    assert(from@ =~= seq![' ']);
    replace_chars_exec(name, &from, '_')
}

} // verus!
