//! Counts of errors and warnings.

use vstd::prelude::*;

verus! {

/// A count held in a `usize`: it stops at the largest value.
pub open spec fn capped(n: int) -> usize {
    if n > usize::MAX {
        usize::MAX
    } else {
        n as usize
    }
}

/// Counts never go down. A count that more is added to is no smaller than
/// before, and adding in two steps gives what adding at once gives.
pub proof fn law_counts_never_decrease(count: usize, more: nat, still_more: nat)
    ensures
        capped(count + more) >= count,
        capped(capped(count + more) + still_more) == capped(count + more + still_more),
{
}

} // verus!
