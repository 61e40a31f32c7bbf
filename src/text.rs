//! Character-level access to strings.

use vstd::prelude::*;
use vstd::string::*;
use vstd::std_specs::iter::IteratorSpec;

verus! {

broadcast use {axiom_spec_iter, next_postcondition};

/// The characters of `s`, in order.
pub fn chars_of(s: &str) -> (r: Vec<char>)
    ensures
        r@ == s@,
{
    let mut it = s.chars();
    let mut out: Vec<char> = Vec::new();
    loop
        invariant
            out@ + it.remaining() == s@,
        ensures
            out@ == s@,
        decreases s@.len() - out@.len(),
    {
        match it.next() {
            Some(c) => {
                out.push(c);
                assert(out@ + it.remaining() =~= s@);
            },
            None => {
                assert(out@ =~= s@);
                break;
            },
        }
    }
    out
}

/// Whether `n` occurs in `h` starting at `i`.
pub open spec fn occurs_at(h: Seq<char>, n: Seq<char>, i: int) -> bool {
    0 <= i && i + n.len() <= h.len() && h.subrange(i, i + n.len()) == n
}

/// Whether `n` occurs in `h` at position `i`, checked character by character.
pub fn matches_at(h: &Vec<char>, hn: usize, n: &Vec<char>, nn: usize, i: usize) -> (r: bool)
    requires
        hn == h@.len(),
        nn == n@.len(),
        i + nn <= hn,
    ensures
        r == occurs_at(h@, n@, i as int),
{
    let mut k: usize = 0;
    while k < nn
        invariant
            hn == h@.len(),
            nn == n@.len(),
            i + nn <= hn,
            k <= nn,
            forall|j: int| 0 <= j < k ==> h@[i + j] == n@[j],
        decreases nn - k,
    {
        if h[i + k] != n[k] {
            assert(h@.subrange(i as int, i + nn)[k as int] != n@[k as int]);
            return false;
        }
        k += 1;
    }
    assert(h@.subrange(i as int, i + nn) =~= n@);
    true
}

} // verus!
