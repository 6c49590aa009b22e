//! A shirt giveaway that falls back to the best-stocked colour, and a
//! one-slot cache around a caller-supplied function.

use vstd::prelude::*;

verus! {

/// The two shirt colours the inventory knows.
#[derive(PartialEq, Eq, Structural, Clone, Copy, Debug)]
pub enum ShirtColor {
    Red,
    Blue,
}

/// How many of the first `n` shirts have colour `c`.
pub open spec fn count_of(s: Seq<ShirtColor>, c: ShirtColor, n: int) -> nat
    decreases n,
{
    if n <= 0 {
        0
    } else {
        count_of(s, c, n - 1) + (if 0 <= n - 1 < s.len() && s[n - 1] == c {
            1nat
        } else {
            0nat
        })
    }
}

/// The colour with the larger stock; ties go to blue.
pub open spec fn spec_most_stocked(s: Seq<ShirtColor>) -> ShirtColor {
    if count_of(s, ShirtColor::Red, s.len() as int) > count_of(
        s,
        ShirtColor::Blue,
        s.len() as int,
    ) {
        ShirtColor::Red
    } else {
        ShirtColor::Blue
    }
}

/// A stock of shirts.
pub struct Inventory {
    pub shirts: Vec<ShirtColor>,
}

impl Inventory {
    /// The colour with the larger stock; ties go to blue.
    pub fn most_stocked(&self) -> (r: ShirtColor)
        ensures
            r == spec_most_stocked(self.shirts@),
    {
        let mut color_red: usize = 0;
        let mut color_blue: usize = 0;
        let n = self.shirts.len();
        for i in 0..n
            invariant
                n == self.shirts@.len(),
                color_red == count_of(self.shirts@, ShirtColor::Red, i as int),
                color_blue == count_of(self.shirts@, ShirtColor::Blue, i as int),
                color_red <= i,
                color_blue <= i,
        {
            match self.shirts[i] {
                ShirtColor::Red => {
                    color_red = color_red + 1;
                },
                ShirtColor::Blue => {
                    color_blue = color_blue + 1;
                },
            }
        }
        if color_red > color_blue {
            ShirtColor::Red
        } else {
            ShirtColor::Blue
        }
    }

    /// The colour the customer asked for, or the best-stocked one when
    /// they expressed no preference.
    pub fn giveaway(&self, preference: Option<ShirtColor>) -> (r: ShirtColor)
        ensures
            preference is Some ==> r == preference->0,
            preference is None ==> r == spec_most_stocked(self.shirts@),
    {
        match preference {
            Some(p) => p,
            None => self.most_stocked(),
        }
    }
}

/// A one-slot cache around a function: the first call computes and
/// remembers, every later call returns the remembered value whatever
/// the argument.
pub struct Executor<T> where T: Fn(i32) -> i32 {
    cache: T,
    value: Option<i32>,
}

impl<T> Executor<T> where T: Fn(i32) -> i32 {
    /// The remembered result, if one has been computed.
    pub closed spec fn cached(self) -> Option<i32> {
        self.value
    }

    /// The function whose result is cached.
    pub closed spec fn func(self) -> T {
        self.cache
    }

    /// A cache around `cache` with nothing remembered yet.
    pub fn new(cache: T) -> (e: Executor<T>)
        ensures
            e.cached() is None,
            e.func() == cache,
    {
        Executor { cache, value: None }
    }

    /// The remembered value, or, on the first call, the function's
    /// result on `x`, which is then remembered.
    pub fn value(&mut self, x: i32) -> (r: i32)
        requires
            call_requires(old(self).func(), (x,)),
        ensures
            final(self).func() == old(self).func(),
            old(self).cached() is Some ==> r == old(self).cached()->0 && final(self).cached()
                == old(self).cached(),
            old(self).cached() is None ==> call_ensures(old(self).func(), (x,), r)
                && final(self).cached() == Some(r),
    {
        match self.value {
            Some(val) => val,
            None => {
                let val = (self.cache)(x);
                self.value = Some(val);
                val
            },
        }
    }
}

} // verus!
