//! Borrowed names and the longer of two strings.

use vstd::prelude::*;

verus! {

/// Someone known by a borrowed name.
pub struct Person<'a> {
    pub name: &'a str,
}

impl<'a> Person<'a> {
    /// The borrowed name.
    pub fn get_name(&self, _val: &str) -> (r: &str)
        ensures
            r@ == self.name@,
    {
        self.name
    }
}

/// The longer of the two strings, measured in characters; ties go to
/// the second.
pub fn longest<'a>(x: &'a str, y: &'a str) -> (r: &'a str)
    ensures
        x@.len() > y@.len() ==> r@ == x@,
        x@.len() <= y@.len() ==> r@ == y@,
{
    if x.unicode_len() > y.unicode_len() {
        x
    } else {
        y
    }
}

} // verus!
