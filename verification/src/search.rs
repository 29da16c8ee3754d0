//! Searching a slice by halving.

use vstd::prelude::*;

verus! {

/// The values stand in ascending order.
pub open spec fn ascending(values: Seq<i32>) -> bool {
    forall|i: int, j: int| 0 <= i <= j < values.len() ==> values[i] <= values[j]
}

/// Looks for `val` by halving the range in which it may stand. An index that
/// is returned holds `val`. In a slice in ascending order a value that occurs
/// is found.
pub fn binsearch(arr: &[i32], val: i32) -> (found: Option<usize>)
    ensures
        found matches Some(i) ==> i < arr@.len() && arr@[i as int] == val,
        ascending(arr@) ==> (found is None <==> !arr@.contains(val)),
{
    if arr.len() == 0 {
        return None;
    }
    let mut low: usize = 0;
    let mut high: usize = arr.len() - 1;
    while low <= high
        invariant
            0 <= low <= arr@.len(),
            high < arr@.len(),
            low <= high + 1,
            ascending(arr@) ==> forall|k: int| 0 <= k < low ==> arr@[k] < val,
            ascending(arr@) ==> forall|k: int| high < k < arr@.len() ==> val < arr@[k],
        decreases high + 1 - low,
    {
        let mid: usize = low + (high - low) / 2;
        if arr[mid] == val {
            return Some(mid);
        } else if arr[mid] < val {
            low = mid + 1;
        } else {
            if mid == 0 {
                return None;
            }
            high = mid - 1;
        }
    }
    None
}

} // verus!
