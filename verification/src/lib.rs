//! A course of small, self-contained examples, each verified: a tree of
//! reference-counted nodes with weak parent links at the centre, around
//! it line searching, a guessing game's rules, a reviewed blog post, a
//! quota tracker, sorting, and a shelf of smaller pieces.

pub mod articles;
pub mod basics;
pub mod blog;
pub mod closures;
pub mod fashion;
pub mod game;
pub mod geometry;
pub mod grep;
pub mod list;
pub mod notify;
pub mod options;
pub mod ownership;
pub mod person;
pub mod points;
pub mod primer;
pub mod restaurant;
pub mod segment;
pub mod shapes;
pub mod sorting;
pub mod tree;

use vstd::prelude::*;

verus! {

/// The sum of the two numbers.
pub fn add(x: i32, y: i32) -> (r: i32)
    requires
        i32::MIN <= x + y <= i32::MAX,
    ensures
        r == x + y,
{
    x + y
}

} // verus!
