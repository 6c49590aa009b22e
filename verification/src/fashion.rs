//! Filtering a wardrobe down to one size.

use vstd::prelude::*;

verus! {

/// An article of clothing: a style and a size.
#[derive(PartialEq, Debug)]
pub struct Fashion {
    pub style: String,
    pub size: u32,
}

/// Exactly the articles of the wanted size, in their original order.
pub fn is_correct(types: Vec<Fashion>, my_size: u32) -> (r: Vec<Fashion>)
    ensures
        r@ == types@.filter(|f: Fashion| f.size == my_size),
{
    let ghost orig = types@;
    let ghost pred = |f: Fashion| f.size == my_size;
    let mut types = types;
    let mut res: Vec<Fashion> = Vec::new();
    let ghost mut done: Seq<Fashion> = Seq::empty();
    proof {
        assert(orig =~= done + types@);
        reveal(Seq::filter);
    }
    while types.len() > 0
        invariant
            orig == done + types@,
            res@ == done.filter(pred),
            pred == (|f: Fashion| f.size == my_size),
        decreases types@.len(),
    {
        let f = types.remove(0);
        let keep = f.size == my_size;
        proof {
            let prev_done = done;
            done = done.push(f);
            reveal(Seq::filter);
            assert(done.drop_last() =~= prev_done);
            assert(done.last() == f);
        }
        if keep {
            res.push(f);
        }
        proof {
            assert(orig =~= done + types@);
        }
    }
    proof {
        assert(orig =~= done);
    }
    res
}

} // verus!
