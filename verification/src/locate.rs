//! The project locator's decision rule. The filesystem walk itself stays
//! outside the library: the caller lists, nearest first, whether each
//! ancestor directory contains the target, and the rule picks the first hit.

use vstd::prelude::*;

verus! {

/// The first index whose directory contains the target, searching outward
/// from the starting directory; nothing when no ancestor contains it.
pub fn first_match(found: &Vec<bool>) -> (r: Option<usize>)
    ensures
        match r {
            Option::Some(i) => i < found@.len() && found@[i as int] && forall|j: int|
                0 <= j < i ==> !found@[j],
            Option::None => forall|j: int| 0 <= j < found@.len() ==> !found@[j],
        },
{
    let n = found.len();
    let mut i: usize = 0;
    while i < n
        invariant
            0 <= i <= n,
            n == found@.len(),
            forall|j: int| 0 <= j < i ==> !found@[j],
        decreases n - i,
    {
        if found[i] {
            return Option::Some(i);
        }
        i = i + 1;
    }
    Option::None
}

} // verus!
