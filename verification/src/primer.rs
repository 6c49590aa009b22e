//! A second pass over the same ground: borrowing, slicing, a rectangle
//! and an optional increment, each with its result pinned.

use crate::ownership::first_word_spec;
use crate::ownership::lemma_first_space_is;
use vstd::prelude::*;

verus! {

/// Reads the borrowed string's length and discards it; the string is
/// only borrowed, so nothing changes.
pub fn calculate_length(val: &String) {
    let _c: usize = val.as_str().unicode_len();
}

/// Appends "hey" to the borrowed string.
pub fn change(val: &mut String)
    ensures
        final(val)@ == old(val)@ + "hey"@,
{
    val.append("hey");
}

/// The first word of the borrowed string: everything before the first
/// space, or the whole string if it has none.
pub fn first_word(val: &String) -> (r: &str)
    ensures
        r@ == first_word_spec(val@),
{
    let s = val.as_str();
    let n = s.unicode_len();
    let mut j: usize = 0;
    while j < n && s.get_char(j) != ' '
        invariant
            n == s@.len(),
            0 <= j <= n,
            forall|t: int| 0 <= t < j ==> s@[t] != ' ',
        decreases n - j,
    {
        j = j + 1;
    }
    proof {
        lemma_first_space_is(s@, j as int);
    }
    s.substring_char(0, j)
}

/// A rectangle given by its side lengths.
#[allow(non_camel_case_types)]
pub struct rect {
    pub length: u64,
    pub width: u64,
}

impl rect {
    /// The area.
    pub fn area(&self) -> (a: u64)
        requires
            self.length * self.width <= u64::MAX,
        ensures
            a == self.length * self.width,
    {
        self.length * self.width
    }

    /// Whether the other rectangle fits strictly inside this one.
    pub fn compare(&self, other: &rect) -> (r: bool)
        ensures
            r == (self.length > other.length && self.width > other.width),
    {
        self.length > other.length && self.width > other.width
    }

    /// A square with the given side.
    pub fn sq(val: u64) -> (r: Self)
        ensures
            r.length == val,
            r.width == val,
    {
        Self { length: val, width: val }
    }
}

/// One more than the value, if there is one.
pub fn plusone(x: Option<i32>) -> (r: Option<i32>)
    requires
        x is Some ==> x->0 < i32::MAX,
    ensures
        x is None ==> r is None,
        x is Some ==> r == Some((x->0 + 1) as i32),
{
    match x {
        Some(i) => Some(i + 1),
        None => None,
    }
}

} // verus!
