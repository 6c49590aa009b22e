//! Generic points and picking the largest element of a list.

use vstd::prelude::*;
use vstd::std_specs::cmp::PartialOrdIs;
use vstd::std_specs::cmp::PartialOrdSpec;

verus! {

/// A point whose coordinates share one type.
pub struct Point<T> {
    pub x: T,
    pub y: T,
}

impl<T: Copy> Point<T> {
    /// The first coordinate.
    pub fn get_x(&self) -> (r: T)
        ensures
            r == self.x,
    {
        self.x
    }
}

/// A point whose coordinates may have different types.
pub struct DoublePoint<T, U> {
    pub x: T,
    pub y: U,
}

impl<T: Copy, U> DoublePoint<T, U> {
    /// A point made of this one's first coordinate and the other's
    /// second.
    pub fn mix_up<V, W>(&self, other: DoublePoint<V, W>) -> (r: DoublePoint<T, W>)
        ensures
            r.x == self.x,
            r.y == other.y,
    {
        DoublePoint { x: self.x, y: other.y }
    }
}

/// The element a left-to-right scan settles on: starting from `acc`, a
/// strictly greater element replaces the current best.
pub open spec fn largest_from<T: PartialOrd>(s: Seq<T>, acc: T) -> T
    decreases s.len(),
{
    if s.len() == 0 {
        acc
    } else {
        largest_from(
            s.subrange(1, s.len() as int),
            if s[0].is_gt(&acc) {
                s[0]
            } else {
                acc
            },
        )
    }
}

/// The largest element of a non-empty list, found by a left-to-right
/// scan that replaces the best so far whenever an element compares
/// strictly greater.
pub fn get_largest<T: PartialOrd + Copy>(var_list: Vec<T>) -> (r: T)
    requires
        var_list@.len() > 0,
        T::obeys_partial_cmp_spec(),
    ensures
        r == largest_from(var_list@, var_list@[0]),
{
    let mut largest: T = var_list[0];
    let ghost s0 = var_list@;
    proof {
        assert(s0.subrange(0, s0.len() as int) =~= s0);
    }
    for i in 0..var_list.len()
        invariant
            var_list@ == s0,
            s0.len() > 0,
            T::obeys_partial_cmp_spec(),
            largest_from(s0, s0[0]) == largest_from(
                s0.subrange(i as int, s0.len() as int),
                largest,
            ),
    {
        proof {
            assert(s0.subrange(i as int, s0.len() as int).len() > 0);
        }
        let num = var_list[i];
        let ghost pre = largest;
        let ghost rest = s0.subrange(i as int, s0.len() as int);
        if num > largest {
            largest = num;
        }
        proof {
            assert(rest[0] == s0[i as int]);
            assert(rest.subrange(1, rest.len() as int) =~= s0.subrange(
                i + 1,
                s0.len() as int,
            ));
            assert(largest == (if rest[0].is_gt(&pre) {
                rest[0]
            } else {
                pre
            }));
        }
    }
    proof {
        assert(s0.subrange(s0.len() as int, s0.len() as int).len() == 0);
    }
    largest
}

} // verus!
