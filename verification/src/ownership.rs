//! Handing values over and borrowing them: small string helpers whose
//! results are pinned exactly.

use vstd::prelude::*;

verus! {

/// The index of the first space in `s`, or `s.len()` if there is none.
pub open spec fn first_space(s: Seq<char>) -> nat
    decreases s.len(),
{
    if s.len() == 0 {
        0
    } else if s[0] == ' ' {
        0
    } else {
        1 + first_space(s.subrange(1, s.len() as int))
    }
}

/// The first word of `s`: everything before the first space, or all of
/// `s` if it has none.
pub open spec fn first_word_spec(s: Seq<char>) -> Seq<char> {
    s.subrange(0, first_space(s) as int)
}

pub proof fn lemma_first_space_is(s: Seq<char>, j: int)
    requires
        0 <= j <= s.len(),
        forall|t: int| 0 <= t < j ==> s[t] != ' ',
        j < s.len() ==> s[j] == ' ',
    ensures
        first_space(s) == j,
    decreases s.len(),
{
    if s.len() == 0 {
    } else if j == 0 {
    } else {
        let tail = s.subrange(1, s.len() as int);
        assert forall|t: int| 0 <= t < j - 1 implies tail[t] != ' ' by {
            assert(tail[t] == s[t + 1]);
        }
        assert(j - 1 < tail.len() ==> tail[j - 1] == s[j]);
        lemma_first_space_is(tail, j - 1);
    }
}

/// A string made here and handed to the caller.
pub fn gives_ownership() -> (r: String)
    ensures
        r@ == "yours now"@,
{
    "yours now".to_owned()
}

/// Takes the string and hands the very same one back.
pub fn takes_and_gives_back(s: String) -> (r: String)
    ensures
        r == s,
{
    s
}

/// The length of the borrowed string, in characters.
pub fn calculate_length(s: &String) -> (n: usize)
    ensures
        n == s@.len(),
{
    s.as_str().unicode_len()
}

/// Appends ", world!" to the borrowed string.
pub fn change(s: &mut String)
    ensures
        final(s)@ == old(s)@ + ", world!"@,
{
    s.append(", world!");
}

/// The first word of `s`: everything before the first space, or all of
/// `s` if it has none.
pub fn first_word(s: &str) -> (r: &str)
    ensures
        r@ == first_word_spec(s@),
{
    let n = s.unicode_len();
    let mut j: usize = 0;
    while j < n && s.get_char(j) != ' '
        invariant
            n == s@.len(),
            0 <= j <= n,
            forall|t: int| 0 <= t < j ==> s@[t] != ' ',
        decreases n - j,
    {
        j = j + 1;
    }
    proof {
        lemma_first_space_is(s@, j as int);
    }
    s.substring_char(0, j)
}

} // verus!
