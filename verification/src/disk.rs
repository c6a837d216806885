//! The disk side of a snapshot: which mount of a filesystem listing
//! is the fullest.

use vstd::prelude::*;

use crate::samples::DiskSample;

verus! {

/// Picks the fullest mount of a listing: the first row whose usage no
/// later row exceeds, absence for an empty listing.
pub fn top_mount_index(rows: &Vec<DiskSample>) -> (r: Option<usize>)
    ensures
        r is Some <==> rows@.len() > 0,
        r matches Some(i) ==> i < rows@.len() && (forall|j: int|
            0 <= j < rows@.len() ==> (#[trigger] rows@[j]).used_percent <= rows@[
                i as int
            ].used_percent) && (forall|j: int|
            0 <= j < i ==> (#[trigger] rows@[j]).used_percent < rows@[i as int].used_percent),
{
    if rows.len() == 0 {
        return None;
    }
    let mut best: usize = 0;
    let mut i: usize = 1;
    while i < rows.len()
        invariant
            best < i <= rows@.len(),
            forall|j: int|
                0 <= j < i ==> (#[trigger] rows@[j]).used_percent <= rows@[
                    best as int
                ].used_percent,
            forall|j: int|
                0 <= j < best ==> (#[trigger] rows@[j]).used_percent < rows@[
                    best as int
                ].used_percent,
        decreases rows@.len() - i,
    {
        if rows[i].used_percent > rows[best].used_percent {
            best = i;
        }
        i = i + 1;
    }
    Some(best)
}

} // verus!
