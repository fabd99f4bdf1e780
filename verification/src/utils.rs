use vstd::prelude::*;
use crate::text::all_ascii_digits;

verus! {

broadcast use vstd::string::axiom_spec_iter;

/// Whether every character of `s` is an ASCII decimal digit (so the empty string is).
pub fn is_numeric(s: &str) -> (r: bool)
    ensures
        r == all_ascii_digits(s@),
{
    for c in it: s.chars()
        invariant
            it.seq() == s@,
            forall|j: int| 0 <= j < it.index() ==> '0' <= #[trigger] s@[j] <= '9',
    {
        if c < '0' || c > '9' {
            return false;
        }
    }
    true
}

} // verus!
