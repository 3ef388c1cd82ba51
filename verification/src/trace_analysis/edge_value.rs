//! The statistic shown on the edges of a diagram.
use crate::text::{ascii_upper_char, str_eq, to_uppercase_str, uppercased};
use vstd::prelude::*;
use vstd::string::*;

verus! {

#[derive(Copy, Clone, Debug, PartialEq, Eq, PartialOrd, Ord, Structural)]
pub enum EdgeValue {
    Count,
    AvgMillis,
    MedianMillis,
    P75Millis,
    P90Millis,
    P95Millis,
    P99Millis,
    MaxMillis,
}

/// The name of an edge value.
pub open spec fn edge_value_name(e: EdgeValue) -> Seq<char> {
    match e {
        EdgeValue::Count => "COUNT"@,
        EdgeValue::AvgMillis => "AVGMILLIS"@,
        EdgeValue::MedianMillis => "MEDIANMILLIS"@,
        EdgeValue::P75Millis => "P75MILLIS"@,
        EdgeValue::P90Millis => "P90MILLIS"@,
        EdgeValue::P95Millis => "P95MILLIS"@,
        EdgeValue::P99Millis => "P99MILLIS"@,
        EdgeValue::MaxMillis => "MAXMILLIS"@,
    }
}

/// The edge value whose name is exactly `u`, if any.
pub open spec fn parse_edge_value(u: Seq<char>) -> Option<EdgeValue> {
    if u == "COUNT"@ {
        Some(EdgeValue::Count)
    } else if u == "AVGMILLIS"@ {
        Some(EdgeValue::AvgMillis)
    } else if u == "MEDIANMILLIS"@ {
        Some(EdgeValue::MedianMillis)
    } else if u == "P75MILLIS"@ {
        Some(EdgeValue::P75Millis)
    } else if u == "P90MILLIS"@ {
        Some(EdgeValue::P90Millis)
    } else if u == "P95MILLIS"@ {
        Some(EdgeValue::P95Millis)
    } else if u == "P99MILLIS"@ {
        Some(EdgeValue::P99Millis)
    } else if u == "MAXMILLIS"@ {
        Some(EdgeValue::MaxMillis)
    } else {
        None
    }
}

impl EdgeValue {
    /// The upper-case name of this edge value.
    pub fn to_string(&self) -> (r: String)
        ensures
            r@ == edge_value_name(*self),
    {
        match self {
            EdgeValue::Count => "COUNT".to_owned(),
            EdgeValue::AvgMillis => "AVGMILLIS".to_owned(),
            EdgeValue::MedianMillis => "MEDIANMILLIS".to_owned(),
            EdgeValue::P75Millis => "P75MILLIS".to_owned(),
            EdgeValue::P90Millis => "P90MILLIS".to_owned(),
            EdgeValue::P95Millis => "P95MILLIS".to_owned(),
            EdgeValue::P99Millis => "P99MILLIS".to_owned(),
            EdgeValue::MaxMillis => "MAXMILLIS".to_owned(),
        }
    }

    /// The edge value named by an upper-case name.
    pub fn from_uppercase(u: &str) -> (r: Option<EdgeValue>)
        ensures
            r == parse_edge_value(u@),
    {
        if str_eq(u, "COUNT") {
            Some(EdgeValue::Count)
        } else if str_eq(u, "AVGMILLIS") {
            Some(EdgeValue::AvgMillis)
        } else if str_eq(u, "MEDIANMILLIS") {
            Some(EdgeValue::MedianMillis)
        } else if str_eq(u, "P75MILLIS") {
            Some(EdgeValue::P75Millis)
        } else if str_eq(u, "P90MILLIS") {
            Some(EdgeValue::P90Millis)
        } else if str_eq(u, "P95MILLIS") {
            Some(EdgeValue::P95Millis)
        } else if str_eq(u, "P99MILLIS") {
            Some(EdgeValue::P99Millis)
        } else if str_eq(u, "MAXMILLIS") {
            Some(EdgeValue::MaxMillis)
        } else {
            None
        }
    }

    /// The edge value named by `s`, case-insensitively.
    pub fn from(s: &str) -> (r: EdgeValue)
        requires
            parse_edge_value(uppercased(s@)) is Some,
        ensures
            Some(r) == parse_edge_value(uppercased(s@)),
    {
        let u = to_uppercase_str(s);
        match Self::from_uppercase(u.as_str()) {
            Some(e) => e,
            None => {
                assert(false);
                EdgeValue::Count
            },
        }
    }

    /// The edge value named by `s`, case-insensitively, or `None` for an unknown name.
    pub fn try_from_str(s: &str) -> (r: Option<EdgeValue>)
        ensures
            r == parse_edge_value(uppercased(s@)),
    {
        let u = to_uppercase_str(s);
        if Self::from_uppercase(u.as_str()).is_some() {
            Some(Self::from(s))
        } else {
            None
        }
    }
}

/// Reading back the name of an edge value gives that edge value, and the names are already
/// upper case, so `from(to_string(x)) == x`.
pub proof fn lemma_edge_value_round_trip(x: EdgeValue)
    ensures
        parse_edge_value(edge_value_name(x)) == Some(x),
        Seq::new(edge_value_name(x).len(), |i: int| ascii_upper_char(edge_value_name(x)[i]))
            == edge_value_name(x),
        crate::text::all_ascii(edge_value_name(x)),
{
    reveal_strlit("COUNT");
    reveal_strlit("AVGMILLIS");
    reveal_strlit("MEDIANMILLIS");
    reveal_strlit("P75MILLIS");
    reveal_strlit("P90MILLIS");
    reveal_strlit("P95MILLIS");
    reveal_strlit("P99MILLIS");
    reveal_strlit("MAXMILLIS");
    let n = edge_value_name(x);
    assert(n != "COUNT"@ || x == EdgeValue::Count) by {
        if x != EdgeValue::Count {
            assert(n[0] != "COUNT"@[0] || n.len() != "COUNT"@.len());
        }
    }
    assert(n != "AVGMILLIS"@ || x == EdgeValue::AvgMillis) by {
        if x != EdgeValue::AvgMillis {
            assert(n[0] != 'A' || n.len() != 9);
        }
    }
    assert(n != "MEDIANMILLIS"@ || x == EdgeValue::MedianMillis) by {
        if x != EdgeValue::MedianMillis {
            assert(n.len() != 12);
        }
    }
    assert(n != "P75MILLIS"@ || x == EdgeValue::P75Millis) by {
        if x != EdgeValue::P75Millis {
            assert(n.len() != 9 || n[0] != 'P' || n[1] != '7');
        }
    }
    assert(n != "P90MILLIS"@ || x == EdgeValue::P90Millis) by {
        if x != EdgeValue::P90Millis {
            assert(n.len() != 9 || n[0] != 'P' || n[2] != '0');
        }
    }
    assert(n != "P95MILLIS"@ || x == EdgeValue::P95Millis) by {
        if x != EdgeValue::P95Millis {
            assert(n.len() != 9 || n[0] != 'P' || n[1] != '9' || n[2] != '5');
        }
    }
    assert(n != "P99MILLIS"@ || x == EdgeValue::P99Millis) by {
        if x != EdgeValue::P99Millis {
            assert(n.len() != 9 || n[0] != 'P' || n[2] != '9');
        }
    }
    assert(Seq::new(n.len(), |i: int| ascii_upper_char(n[i])) =~= n);
}

} // verus!
