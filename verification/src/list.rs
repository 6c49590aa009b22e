//! A cons list whose tail can be inspected.

use vstd::prelude::*;

verus! {

/// A list cell: a value and the rest of the list, or the end.
#[derive(Debug)]
pub enum List {
    Cons(i32, Box<List>),
    Nil,
}

impl List {
    /// The rest of the list after the first cell, absent at the end.
    pub fn tail(&self) -> (r: Option<&Box<List>>)
        ensures
            (r is Some) == (self is Cons),
            self is Cons ==> *r->0 == self->Cons_1,
    {
        match self {
            List::Cons(_, tail) => Some(tail),
            List::Nil => None,
        }
    }
}

} // verus!
