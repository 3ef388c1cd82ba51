//! Converting the keyed tables of a legacy stitched data set.
use vstd::prelude::*;
use vstd::std_specs::convert::TryIntoSpec;

verus! {

/// Every value of `s` converts, and `r` holds the keys of `s` with the converted values.
pub open spec fn all_converted<K, A: TryInto<B, Error = &'static str>, B>(s: Seq<(K, A)>, r: Seq<(K, B)>) -> bool {
    &&& r.len() == s.len()
    &&& forall|i: int|
        0 <= i < s.len() ==> r[i].0 == s[i].0 && (#[trigger] s[i].1).try_into_spec() == Ok::<B, &'static str>(r[i].1)
}

/// The value at `i` is the first of `s` that fails to convert, with error `e`.
pub open spec fn first_failure<K, A: TryInto<B, Error = &'static str>, B>(s: Seq<(K, A)>, i: int, e: &'static str) -> bool {
    &&& 0 <= i < s.len()
    &&& s[i].1.try_into_spec() == Err::<B, &'static str>(e)
    &&& forall|j: int| 0 <= j < i ==> (#[trigger] s[j].1).try_into_spec() is Ok
}

/// Convert the value of each (key, value) pair with `try_into`, keeping the keys and the
/// order; the conversion stops at the first value that fails, and its error is returned.
/// What is stated of the conversions holds for value types whose `try_into` follows its
/// specification.
pub fn vec_try_into<K, A, B>(proc_oper: Vec<(K, A)>) -> (r: Result<Vec<(K, B)>, &'static str>) where
    A: TryInto<B, Error = &'static str>,

    ensures
        r matches Ok(v) ==> v@.len() == proc_oper@.len() && forall|i: int|
            0 <= i < proc_oper@.len() ==> (#[trigger] v@[i]).0 == proc_oper@[i].0,
        <A as TryIntoSpec<B>>::obeys_try_into_spec() ==> (r matches Ok(v) ==> all_converted(proc_oper@, v@)),
        <A as TryIntoSpec<B>>::obeys_try_into_spec() ==> (r matches Err(e) ==> exists|i: int|
            first_failure::<K, A, B>(proc_oper@, i, e)),
        <A as TryIntoSpec<B>>::obeys_try_into_spec() ==> (r is Ok <==> forall|i: int|
            0 <= i < proc_oper@.len() ==> (#[trigger] proc_oper@[i].1).try_into_spec() is Ok),
{
    let ghost s = proc_oper@;
    let n = proc_oper.len();
    let mut rest = proc_oper;
    let mut out: Vec<(K, B)> = Vec::new();
    let mut idx: usize = 0;
    while rest.len() > 0
        invariant
            idx == out@.len(),
            s.len() <= usize::MAX,
            s == proc_oper@,
            idx + rest@.len() == s.len(),
            rest@ == s.skip(idx as int),
            forall|i: int| 0 <= i < idx ==> (#[trigger] out@[i]).0 == s[i].0,
            <A as TryIntoSpec<B>>::obeys_try_into_spec() ==> all_converted(s.take(idx as int), out@),
        decreases rest.len(),
    {
        let ghost before = rest@;
        let (key, value) = rest.remove(0);
        proof {
            assert(before[0] == s[idx as int]);
            assert(rest@ =~= s.skip(idx + 1));
        }
        match value.try_into() {
            Ok(converted) => {
                out.push((key, converted));
                idx = idx + 1;
                proof {
                    if <A as TryIntoSpec<B>>::obeys_try_into_spec() {
                        assert forall|i: int| 0 <= i < idx implies out@[i].0 == s.take(idx as int)[i].0
                            && (#[trigger] s.take(idx as int)[i].1).try_into_spec() == Ok::<
                            B,
                            &'static str,
                        >(out@[i].1) by {
                            if i < idx - 1 {
                                assert(s.take(idx as int)[i] == s.take(idx - 1)[i]);
                            }
                        }
                    }
                }
            },
            Err(err) => {
                proof {
                    if <A as TryIntoSpec<B>>::obeys_try_into_spec() {
                        assert forall|j: int| 0 <= j < idx implies (#[trigger] s[j].1).try_into_spec() is Ok by {
                            assert(s.take(idx as int)[j] == s[j]);
                        }
                        assert(first_failure::<K, A, B>(s, idx as int, err));
                        assert(exists|i: int| first_failure::<K, A, B>(proc_oper@, i, err));
                    }
                }
                let failed: Result<Vec<(K, B)>, &'static str> = Err(err);
                assert(failed matches Err(e) && e == err);
                return failed;
            },
        }
    }
    proof {
        assert(s.take(idx as int) =~= s);
    }
    Ok(out)
}

} // verus!
