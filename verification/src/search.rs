//! Searching in ordered tables.

use ordslice::Ext;
use vstd::prelude::*;

verus! {

/// Whether the entries of a table never decrease from left to right.
pub open spec fn sorted(table: Seq<u32>) -> bool {
    forall|i: int, j: int| 0 <= i <= j < table.len() ==> table[i] <= table[j]
}

/// `ordslice::Ext::upper_bound` on a table of `u32`. On an ordered table it
/// returns the index of the first entry greater than `x`, or the length of
/// the table when there is none: every entry before the index is at most
/// `x`, every entry from the index on is greater.
#[verifier::external_body]
pub(crate) fn upper_bound(table: &[u32], x: u32) -> (index: usize)
    requires
        sorted(table@),
    ensures
        index <= table@.len(),
        forall|k: int| 0 <= k < index ==> table@[k] <= x,
        forall|k: int| index <= k < table@.len() ==> table@[k] > x,
{
    table.upper_bound(&x)
}

} // verus!
