//! Pieces of the service/operation diagram that stand on their own.
use crate::text::{chars_of, push_char};
use vstd::prelude::*;

verus! {

/// The characters of `s` before its first '/', or all of `s` when it holds none.
pub open spec fn service_part(s: Seq<char>) -> Seq<char>
    decreases s.len(),
{
    if s.len() == 0 {
        s
    } else if s[0] == '/' {
        seq![]
    } else {
        seq![s[0]] + service_part(s.drop_first())
    }
}

/// The service of a "service/operation" string: the part before the first '/', or the
/// whole string when there is no '/'.
pub fn split_service(service_oper: &str) -> (r: String)
    ensures
        r@ == service_part(service_oper@),
{
    let cs = chars_of(service_oper);
    let mut r = String::new();
    let mut i: usize = 0;
    assert(r@ + service_part(cs@.skip(0)) =~= service_part(cs@)) by {
        assert(cs@.skip(0) =~= cs@);
    }
    while i < cs.len() && cs[i] != '/'
        invariant
            i <= cs.len(),
            cs@ == service_oper@,
            r@ + service_part(cs@.skip(i as int)) == service_part(cs@),
        decreases cs.len() - i,
    {
        proof {
            assert(cs@.skip(i as int).drop_first() =~= cs@.skip(i + 1));
            assert(cs@.skip(i as int)[0] == cs@[i as int]);
        }
        push_char(&mut r, cs[i]);
        i = i + 1;
        assert(r@ + service_part(cs@.skip(i as int)) =~= service_part(cs@));
    }
    proof {
        if i < cs.len() {
            assert(cs@.skip(i as int)[0] == '/');
        }
        assert(service_part(cs@.skip(i as int)) =~= Seq::<char>::empty());
        assert(r@ + Seq::<char>::empty() =~= r@);
    }
    r
}

} // verus!
