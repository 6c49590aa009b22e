//! Splitting a string into its grapheme clusters: what a reader sees as
//! one character may span several `char`s.

use vstd::prelude::*;

verus! {

pub uninterp spec fn graphemes_of(s: Seq<char>) -> Seq<Seq<char>>;

/// Relies on UnicodeSegmentation::graphemes with extended clusters: the
/// segmentation is a function of the characters alone; the clusters are
/// non-empty substrings that concatenate back to the input.
#[verifier::external_body]
fn grapheme_clusters(s: &str) -> (r: Vec<String>)
    ensures
        r@.map_values(|g: String| g@) == graphemes_of(s@),
        r@.map_values(|g: String| g@).flatten() == s@,
        forall|i: int| 0 <= i < r@.len() ==> (#[trigger] r@[i])@.len() > 0,
{
    unicode_segmentation::UnicodeSegmentation::graphemes(s, true).map(|g| g.to_owned()).collect()
}

/// The grapheme clusters of `s`, in order: non-empty pieces that
/// concatenate back to `s`.
pub fn graphemes(s: &str) -> (r: Vec<String>)
    ensures
        r@.map_values(|g: String| g@) == graphemes_of(s@),
        r@.map_values(|g: String| g@).flatten() == s@,
        forall|i: int| 0 <= i < r@.len() ==> (#[trigger] r@[i])@.len() > 0,
{
    grapheme_clusters(s)
}

} // verus!
