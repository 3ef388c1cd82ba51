//! Indentation strings for diagram lines.
use vstd::prelude::*;
use vstd::string::*;

verus! {

/// `n` tab characters.
pub open spec fn tabs(n: nat) -> Seq<char> {
    Seq::new(n, |i: int| '\t')
}

/// A string of `level` tab characters.
pub fn tab_string(level: usize) -> (r: String)
    ensures
        r@ == tabs(level as nat),
{
    let mut r = String::new();
    let mut i: usize = 0;
    while i < level
        invariant
            i <= level,
            r@ == tabs(i as nat),
        decreases level - i,
    {
        crate::text::push_char(&mut r, '\t');
        i = i + 1;
        assert(r@ =~= tabs(i as nat));
    }
    r
}

/// A cache of indentation strings: entry `i` holds `i` tabs.
pub struct IndentStr(Vec<String>);

impl IndentStr {
    /// Entry `i` of the cache holds `i` tabs, and the cache holds at least the empty indentation.
    #[verifier::type_invariant]
    closed spec fn inv(self) -> bool {
        &&& self.0@.len() >= 1
        &&& forall|i: int| 0 <= i < self.0@.len() ==> (#[trigger] self.0@[i])@ == tabs(i as nat)
    }

    /// The number of indentation levels held in the cache.
    pub closed spec fn cached_levels(&self) -> nat {
        self.0@.len()
    }

    /// A cache holding only the empty indentation.
    pub fn new() -> (r: Self)
        ensures
            r.cached_levels() == 1,
    {
        let mut v: Vec<String> = Vec::new();
        v.push(String::new());
        assert(v@[0]@ =~= tabs(0));
        IndentStr(v)
    }

    /// The indentation string for `level`; the cache is filled up to `level` when needed.
    pub fn get_indent_str(&mut self, level: usize) -> (r: String)
        ensures
            r@ == tabs(level as nat),
    {
        proof {
            use_type_invariant(&*self);
        }
        let mut cache: Vec<String> = Vec::new();
        cache.push(String::new());
        assert(cache@[0]@ =~= tabs(0));
        std::mem::swap(&mut cache, &mut self.0);
        if level >= cache.len() {
            let mut idx: usize = cache.len() - 1;
            while idx < level
                invariant
                    idx <= level,
                    cache@.len() == idx + 1,
                    forall|i: int| 0 <= i < cache@.len() ==> (#[trigger] cache@[i])@ == tabs(i as nat),
                decreases level - idx,
            {
                let mut next = String::new();
                crate::text::push_char(&mut next, '\t');
                next.append(cache[idx].as_str());
                assert(next@ =~= tabs((idx + 1) as nat));
                cache.push(next);
                idx = idx + 1;
            }
        }
        let r = cache[level].clone();
        std::mem::swap(&mut cache, &mut self.0);
        r
    }
}

} // verus!
