//! A trace together with the statistics computed over it.
use crate::stats::StatsRec;
use crate::text::{chars_of, replace_chars, replace_chars_exec, string_of};
use crate::trace::Trace;
use vstd::prelude::*;

verus! {

/// A trace, the base name of the files written for it, and its statistics.
#[derive(Debug)]
pub struct TraceExt {
    pub base_name: String,
    pub trace: Trace,
    pub stats_rec: StatsRec,
}

/// The characters that cannot stand in the file name of an end-point.
pub open spec fn endpoint_separators() -> Seq<char> {
    seq!['/', '\\', ';', ':']
}

/// `s` without the separators at its end.
pub open spec fn without_trailing_separators(s: Seq<char>) -> Seq<char>
    decreases s.len(),
{
    if s.len() > 0 && endpoint_separators().contains(s.last()) {
        without_trailing_separators(s.drop_last())
    } else {
        s
    }
}

/// The end-point key of a root call: the separators at its end dropped, and every other
/// separator replaced by '_'.
pub open spec fn endpoint_key(root_call: Seq<char>) -> Seq<char> {
    replace_chars(without_trailing_separators(root_call), endpoint_separators(), '_')
}

/// `without_trailing_separators` keeps a prefix of `s`: all that follows it are separators,
/// and its own last character is none.
proof fn lemma_without_trailing(s: Seq<char>)
    ensures
        ({
            let n = without_trailing_separators(s).len();
            &&& n <= s.len()
            &&& without_trailing_separators(s) == s.take(n as int)
            &&& forall|i: int| n <= i < s.len() ==> endpoint_separators().contains(#[trigger] s[i])
            &&& n > 0 ==> !endpoint_separators().contains(s[n - 1])
        }),
    decreases s.len(),
{
    if s.len() > 0 && endpoint_separators().contains(s.last()) {
        lemma_without_trailing(s.drop_last());
        let n = without_trailing_separators(s).len();
        assert(s.drop_last().take(n as int) =~= s.take(n as int));
        assert forall|i: int| n <= i < s.len() implies endpoint_separators().contains(#[trigger] s[i]) by {
            if i < s.len() - 1 {
                assert(s.drop_last()[i] == s[i]);
            }
        }
    } else {
        assert(s.take(s.len() as int) =~= s);
    }
}

/// The end-point key of a root call: the root call up to its last character that is none
/// of '/', '\\', ';' and ':', with each of those characters before it written '_' and
/// every other character kept.
pub proof fn law_endpoint_key(root_call: Seq<char>)
    ensures
        ({
            let k = endpoint_key(root_call);
            let n = k.len() as int;
            &&& n <= root_call.len()
            &&& forall|i: int|
                n <= i < root_call.len() ==> {
                    let c = #[trigger] root_call[i];
                    c == '/' || c == '\\' || c == ';' || c == ':'
                }
            &&& n > 0 ==> {
                let c = root_call[n - 1];
                !(c == '/' || c == '\\' || c == ';' || c == ':')
            }
            &&& forall|i: int|
                0 <= i < n ==> {
                    let c = root_call[i];
                    &&& (c == '/' || c == '\\' || c == ';' || c == ':') ==> #[trigger] k[i] == '_'
                    &&& !(c == '/' || c == '\\' || c == ';' || c == ':') ==> k[i] == c
                }
        }),
{
    lemma_without_trailing(root_call);
    let w = without_trailing_separators(root_call);
    let n = w.len() as int;
    let seps = endpoint_separators();
    assert forall|c: char| seps.contains(c) <==> (c == '/' || c == '\\' || c == ';' || c == ':') by {
        if c == '/' {
            assert(seps[0] == c);
        } else if c == '\\' {
            assert(seps[1] == c);
        } else if c == ';' {
            assert(seps[2] == c);
        } else if c == ':' {
            assert(seps[3] == c);
        }
    }
    assert forall|i: int| 0 <= i < n implies w[i] == root_call[i] by {
        assert(w[i] == root_call.take(n)[i]);
    }
}

fn is_endpoint_separator(c: char) -> (r: bool)
    ensures
        r == endpoint_separators().contains(c),
{
    let r = c == '/' || c == '\\' || c == ';' || c == ':';
    proof {
        if r {
            if c == '/' {
                assert(endpoint_separators()[0] == c);
            } else if c == '\\' {
                assert(endpoint_separators()[1] == c);
            } else if c == ';' {
                assert(endpoint_separators()[2] == c);
            } else {
                assert(endpoint_separators()[3] == c);
            }
        }
    }
    r
}

impl TraceExt {
    /// The root call of the trace as a key for the end-point, usable in a file name:
    /// the separators '/', '\\', ';' and ':' at its end are dropped, and every other one
    /// becomes '_' (so "gateway/POST:/services/orders/update/" gives
    /// "gateway_POST__services_orders_update").
    pub fn get_endpoint_key(&self) -> (r: String)
        ensures
            r@ == endpoint_key(self.trace.root_call@),
    {
        let cs = chars_of(self.trace.root_call.as_str());
        let mut n: usize = cs.len();
        assert(cs@.take(n as int) =~= cs@);
        while n > 0 && is_endpoint_separator(cs[n - 1])
            invariant
                n <= cs@.len(),
                without_trailing_separators(cs@.take(n as int)) == without_trailing_separators(cs@),
            decreases n,
        {
            assert(cs@.take(n as int).drop_last() =~= cs@.take(n - 1));
            assert(cs@.take(n as int).last() == cs@[n - 1]);
            n = n - 1;
        }
        let mut prefix: Vec<char> = Vec::new();
        let mut i: usize = 0;
        while i < n
            invariant
                i <= n <= cs@.len(),
                prefix@ == cs@.take(i as int),
            decreases n - i,
        {
            prefix.push(cs[i]);
            i = i + 1;
            assert(prefix@ =~= cs@.take(i as int));
        }
        proof {
            if n > 0 {
                assert(cs@.take(n as int).last() == cs@[n - 1]);
            }
            assert(without_trailing_separators(cs@.take(n as int)) == cs@.take(n as int));
        }
        let kept = string_of(&prefix);
        let mut from: Vec<char> = Vec::new();
        from.push('/');
        from.push('\\');
        from.push(';');
        from.push(':');
        assert(from@ =~= endpoint_separators());
        replace_chars_exec(kept.as_str(), &from, '_')
    }
}

} // verus!
