//! Grapheme clusters and display widths, from unicode-segmentation and
//! unicode-width.

use vstd::prelude::*;
use unicode_segmentation::UnicodeSegmentation;
use unicode_width::UnicodeWidthStr;

verus! {

/// The extended grapheme clusters of a text, in order.
pub uninterp spec fn grapheme_clusters(s: Seq<char>) -> Seq<Seq<char>>;

/// The displayed width of a text in terminal columns.
pub uninterp spec fn display_width(s: Seq<char>) -> nat;

/// The concatenation of a sequence of texts.
pub open spec fn flatten_text(s: Seq<Seq<char>>) -> Seq<char>
    decreases s.len(),
{
    if s.len() == 0 {
        Seq::empty()
    } else {
        flatten_text(s.drop_last()) + s.last()
    }
}

/// Splits a text into its extended grapheme clusters with
/// `UnicodeSegmentation::graphemes(s, true)`.  The contract names the result
/// `grapheme_clusters(s)` and states what the crate's iterator shows: the
/// clusters are consecutive non-empty slices that together make up the text.
#[verifier::external_body]
pub(crate) fn graphemes(s: &str) -> (r: Vec<String>)
    ensures
        r@.map_values(|g: String| g@) == grapheme_clusters(s@),
        flatten_text(r@.map_values(|g: String| g@)) == s@,
        forall|i: int| 0 <= i < r@.len() ==> #[trigger] r@[i]@.len() > 0,
{
    s.graphemes(true).map(|g| g.to_string()).collect()
}

/// The width of a text with `UnicodeWidthStr::width`.  The contract names the
/// result `display_width(s)`; the empty text has width 0.
#[verifier::external_body]
pub(crate) fn text_width(s: &str) -> (r: usize)
    ensures
        r == display_width(s@),
        s@.len() == 0 ==> r == 0,
{
    UnicodeWidthStr::width(s)
}

} // verus!
