//! The scope of the traces shown in a call-chain list.
use crate::text::{ascii_upper_char, str_eq, to_uppercase_str, uppercased};
use vstd::prelude::*;
use vstd::string::*;

verus! {

#[derive(Copy, Clone, Debug, PartialEq, Eq, Structural)]
pub enum TraceScope {
    All,
    End2end,
    Inbound,
}

/// The name of a scope.
pub open spec fn scope_name(s: TraceScope) -> Seq<char> {
    match s {
        TraceScope::All => "ALL"@,
        TraceScope::End2end => "END2END"@,
        TraceScope::Inbound => "INBOUND"@,
    }
}

/// The scope whose name is exactly `u`, if any.
pub open spec fn parse_scope(u: Seq<char>) -> Option<TraceScope> {
    if u == "ALL"@ {
        Some(TraceScope::All)
    } else if u == "END2END"@ {
        Some(TraceScope::End2end)
    } else if u == "INBOUND"@ {
        Some(TraceScope::Inbound)
    } else {
        None
    }
}

impl TraceScope {
    /// "ALL", "END2END" or "INBOUND".
    pub fn to_string(&self) -> (r: String)
        ensures
            r@ == scope_name(*self),
    {
        match self {
            TraceScope::All => "ALL".to_owned(),
            TraceScope::End2end => "END2END".to_owned(),
            TraceScope::Inbound => "INBOUND".to_owned(),
        }
    }

    /// The scope named by an upper-case name.
    pub fn from_uppercase(u: &str) -> (r: Option<TraceScope>)
        ensures
            r == parse_scope(u@),
    {
        if str_eq(u, "ALL") {
            Some(TraceScope::All)
        } else if str_eq(u, "END2END") {
            Some(TraceScope::End2end)
        } else if str_eq(u, "INBOUND") {
            Some(TraceScope::Inbound)
        } else {
            None
        }
    }

    /// The scope named by `s`, case-insensitively.
    pub fn from(s: &str) -> (r: TraceScope)
        requires
            parse_scope(uppercased(s@)) is Some,
        ensures
            Some(r) == parse_scope(uppercased(s@)),
    {
        let u = to_uppercase_str(s);
        match Self::from_uppercase(u.as_str()) {
            Some(scope) => scope,
            None => {
                assert(false);
                TraceScope::All
            },
        }
    }

    /// The scope named by `s`, case-insensitively, or `None` for an unknown name.
    pub fn try_from_str(s: &str) -> (r: Option<TraceScope>)
        ensures
            r == parse_scope(uppercased(s@)),
    {
        let u = to_uppercase_str(s);
        if Self::from_uppercase(u.as_str()).is_some() {
            Some(Self::from(s))
        } else {
            None
        }
    }
}

/// Reading back the name of a scope gives that scope, and the names are already upper case,
/// so `from(to_string(x)) == x`.
pub proof fn lemma_scope_round_trip(x: TraceScope)
    ensures
        parse_scope(scope_name(x)) == Some(x),
        Seq::new(scope_name(x).len(), |i: int| ascii_upper_char(scope_name(x)[i])) == scope_name(x),
        crate::text::all_ascii(scope_name(x)),
{
    reveal_strlit("ALL");
    reveal_strlit("END2END");
    reveal_strlit("INBOUND");
    assert("END2END"@.len() != "ALL"@.len());
    assert("INBOUND"@.len() != "ALL"@.len());
    assert("INBOUND"@[0] != "END2END"@[0]);
    assert(Seq::new(scope_name(x).len(), |i: int| ascii_upper_char(scope_name(x)[i])) =~= scope_name(x));
}

} // verus!
