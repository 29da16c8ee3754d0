//! Arithmetic on a number that may be missing.

use vstd::prelude::*;

verus! {

/// The successor of the number, if there is one.
pub fn plus_one(x: Option<i32>) -> (r: Option<i32>)
    requires
        x != Some(i32::MAX),
    ensures
        r == match x {
            Some(i) => Some((i + 1) as i32),
            None => None,
        },
{
    match x {
        None => None,
        Some(i) => Some(i + 1),
    }
}

} // verus!
