//! Sorting by repeated adjacent swaps, proved to order the data without
//! losing or inventing an element.

use vstd::prelude::*;

verus! {

/// The data is in ascending order.
pub open spec fn sorted(s: Seq<i32>) -> bool {
    forall|a: int, b: int| 0 <= a <= b < s.len() ==> s[a] <= s[b]
}

/// How often `v` occurs among the first `n` elements.
pub open spec fn occ_upto(s: Seq<i32>, v: i32, n: int) -> nat
    decreases n,
{
    if n <= 0 {
        0
    } else {
        occ_upto(s, v, n - 1) + (if 0 <= n - 1 < s.len() && s[n - 1] == v {
            1nat
        } else {
            0nat
        })
    }
}

/// How often `v` occurs in `s`.
pub open spec fn occ(s: Seq<i32>, v: i32) -> nat {
    occ_upto(s, v, s.len() as int)
}

/// `a` and `b` hold the same elements, each the same number of times.
pub open spec fn same_elements(a: Seq<i32>, b: Seq<i32>) -> bool {
    a.len() == b.len() && (forall|v: i32| #[trigger] occ(a, v) == occ(b, v))
}

proof fn lemma_occ_update(s: Seq<i32>, k: int, x: i32, v: i32, n: int)
    requires
        0 <= k < s.len(),
    ensures
        occ_upto(s.update(k, x), v, n) == occ_upto(s, v, n) + (if k < n && x == v {
            1int
        } else {
            0int
        }) - (if k < n && s[k] == v {
            1int
        } else {
            0int
        }),
    decreases n,
{
    if n > 0 {
        lemma_occ_update(s, k, x, v, n - 1);
    }
}

/// Sorting by bubbling: each pass walks the unsorted prefix and swaps
/// any adjacent pair that is out of order, so the pass's largest value
/// comes to rest at the prefix's end.
pub struct BubbleSort;

impl BubbleSort {
    /// Sorts the data in place: afterwards it is ascending and holds
    /// exactly the elements it held before.
    pub fn sort(&self, data: &mut Vec<i32>)
        ensures
            sorted(final(data)@),
            same_elements(final(data)@, old(data)@),
    {
        let len = data.len();
        if len == 0 {
            return ;
        }
        for i in 0..len
            invariant
                len == data@.len(),
                len >= 1,
                same_elements(data@, old(data)@),
                forall|a: int, b: int| len - i <= a <= b < len ==> data@[a] <= data@[b],
                forall|a: int, b: int|
                    0 <= a < len - i && len - i <= b < len ==> data@[a] <= data@[b],
        {
            for j in 0..len - 1 - i
                invariant
                    len == data@.len(),
                    i < len,
                    j <= len - 1 - i,
                    same_elements(data@, old(data)@),
                    forall|a: int, b: int| len - i <= a <= b < len ==> data@[a] <= data@[b],
                    forall|a: int, b: int|
                        0 <= a < len - i && len - i <= b < len ==> data@[a] <= data@[b],
                    forall|t: int| 0 <= t < j ==> data@[t] <= data@[j as int],
            {
                let ghost before = data@;
                if data[j] > data[j + 1] {
                    let lo = data[j + 1];
                    let hi = data[j];
                    data[j] = lo;
                    data[j + 1] = hi;
                    proof {
                        assert(data@ =~= before.update(j as int, lo).update(j + 1, hi));
                        assert forall|v: i32| #[trigger] occ(data@, v) == occ(before, v) by {
                            lemma_occ_update(before, j as int, lo, v, len as int);
                            lemma_occ_update(
                                before.update(j as int, lo),
                                j + 1,
                                hi,
                                v,
                                len as int,
                            );
                        }
                    }
                }
            }
            proof {
                assert forall|a: int, b: int|
                    len - i - 1 <= a <= b < len implies data@[a] <= data@[b] by {
                    if a == len - i - 1 && b > a {
                        assert(data@[a] <= data@[b]);
                    }
                }
            }
        }
    }
}

} // verus!
