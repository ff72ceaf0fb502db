//! The precedence matcher: four fixed surface patterns checked before
//! generic affix processing.
//!
//! A word matching one of the patterns (be-X-lah, be-X-an, trailing "i",
//! trailing "is") is known to be ambiguous under the standard
//! suffix-then-prefix order; for such a word the driver tries the
//! prefix-first pipeline before falling back to the standard one.

use vstd::prelude::*;

use crate::rules::{ends2, ends2_spec, ends3, ends3_spec, starts2, starts2_spec};

verus! {

/// True when `w` matches one of the four precedence patterns.
pub open spec fn precedence_spec(w: Seq<char>) -> bool {
    (w.len() >= 5 && starts2_spec(w, 'b', 'e') && ends3_spec(w, 'l', 'a', 'h')) || (w.len() >= 4
        && starts2_spec(w, 'b', 'e') && ends2_spec(w, 'a', 'n')) || (w.len() >= 1 && w[w.len() - 1]
        == 'i') || ends2_spec(w, 'i', 's')
}

/// True when `w` matches one of the four precedence patterns.
pub fn precedence_matches(w: &Vec<char>) -> (r: bool)
    ensures
        r == precedence_spec(w@),
{
    (w.len() >= 5 && starts2(w, 'b', 'e') && ends3(w, 'l', 'a', 'h')) || (w.len() >= 4 && starts2(
        w,
        'b',
        'e',
    ) && ends2(w, 'a', 'n')) || (w.len() >= 1 && w[w.len() - 1] == 'i') || ends2(w, 'i', 's')
}

} // verus!
