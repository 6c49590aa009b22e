//! One more than an optional number.

use vstd::prelude::*;

verus! {

/// One more than the value, if there is one.
pub fn plus_one(x: Option<i32>) -> (r: Option<i32>)
    requires
        x is Some ==> x->0 < i32::MAX,
    ensures
        x is None ==> r is None,
        x is Some ==> r == Some((x->0 + 1) as i32),
{
    match x {
        Some(i) => Some(i + 1),
        None => None,
    }
}

} // verus!
