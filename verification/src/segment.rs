//! Unicode segmentation of text, from the `unicode-segmentation` crate.
//!
//! Where a text breaks into grapheme clusters and words is a table of the Unicode standard; the
//! results of the crate's functions have names here, and the rest of the library speaks of those
//! names.

use crate::text::{is_pos, plain_text};
use unicode_segmentation::GraphemeCursor;
use unicode_segmentation::UnicodeSegmentation;
use vstd::prelude::*;
use vstd::utf8::*;

verus! {

/// Byte offsets at which the extended grapheme clusters of `text` start, in order.
pub uninterp spec fn grapheme_starts(text: Seq<char>) -> Seq<usize>;

/// Whether a grapheme cluster of `text` starts or ends at the byte offset `pos`.
pub uninterp spec fn grapheme_boundary(text: Seq<char>, pos: int) -> bool;

/// First cluster boundary of `text` after the byte offset `pos`.
pub uninterp spec fn next_grapheme(text: Seq<char>, pos: int) -> Option<usize>;

/// Last cluster boundary of `text` before the byte offset `pos`.
pub uninterp spec fn prev_grapheme(text: Seq<char>, pos: int) -> Option<usize>;

/// Byte offsets at which the pieces of `text` between word boundaries start, in order.
pub uninterp spec fn word_starts(text: Seq<char>) -> Seq<usize>;

/// `UnicodeSegmentation::grapheme_indices` with extended clusters: the offset of each cluster.
///
/// Believed of it: the offsets depend on the text alone; the clusters cover the text from its
/// start, so the first offset is 0, the offsets grow, and each is a character boundary inside the
/// text; only the empty text has none; in ASCII text without a carriage return every character is a
/// cluster of its own.
#[verifier::external_body]
pub(crate) fn grapheme_indices(text: &str) -> (starts: Vec<usize>)
    ensures
        starts@ == grapheme_starts(text@),
        starts@.len() == 0 <==> encode_utf8(text@).len() == 0,
        starts@.len() > 0 ==> starts@[0] == 0,
        forall|i: int|
            0 <= i < starts@.len() ==> #[trigger] starts@[i] < encode_utf8(text@).len() && is_pos(
                encode_utf8(text@),
                starts@[i] as int,
            ),
        forall|i: int, j: int| 0 <= i < j < starts@.len() ==> starts@[i] < starts@[j],
        plain_text(encode_utf8(text@)) ==> starts@.len() == encode_utf8(text@).len() && forall|
            i: int,
        |
            0 <= i < starts@.len() ==> #[trigger] starts@[i] == i,
{
    text.grapheme_indices(true).map(|(start, _)| start).collect()
}

/// `GraphemeCursor::is_boundary` with extended clusters, on the whole text.
///
/// Believed of it: given the whole text the cursor always decides, and by the text and the offset
/// alone; both ends of the text are boundaries, and so is every position of ASCII text without a
/// carriage return.
#[verifier::external_body]
pub(crate) fn is_grapheme_boundary(text: &str, pos: usize) -> (r: bool)
    requires
        is_pos(encode_utf8(text@), pos as int),
    ensures
        r == grapheme_boundary(text@, pos as int),
        pos == 0 || pos == encode_utf8(text@).len() ==> r,
        plain_text(encode_utf8(text@)) ==> r,
{
    GraphemeCursor::new(pos, text.len(), true).is_boundary(text, 0).unwrap_or(false)
}

/// `GraphemeCursor::next_boundary` with extended clusters, on the whole text.
///
/// Believed of it: given the whole text the cursor always decides, and by the text and the offset
/// alone; there is a next boundary unless the offset is the end of the text, and it is a character
/// boundary further on, the very next one in ASCII text without a carriage return.
#[verifier::external_body]
pub(crate) fn next_grapheme_boundary(text: &str, pos: usize) -> (r: Option<usize>)
    requires
        is_pos(encode_utf8(text@), pos as int),
    ensures
        r == next_grapheme(text@, pos as int),
        r is None <==> pos == encode_utf8(text@).len(),
        r matches Some(q) ==> pos < q <= encode_utf8(text@).len() && is_pos(
            encode_utf8(text@),
            q as int,
        ),
        plain_text(encode_utf8(text@)) ==> (r matches Some(q) ==> q == pos + 1),
{
    GraphemeCursor::new(pos, text.len(), true).next_boundary(text, 0).unwrap_or(None)
}

/// `GraphemeCursor::prev_boundary` with extended clusters, on the whole text.
///
/// Believed of it: given the whole text the cursor always decides, and by the text and the offset
/// alone; there is a previous boundary unless the offset is 0, and it is a character boundary
/// further back, the very next one in ASCII text without a carriage return.
#[verifier::external_body]
pub(crate) fn prev_grapheme_boundary(text: &str, pos: usize) -> (r: Option<usize>)
    requires
        is_pos(encode_utf8(text@), pos as int),
    ensures
        r == prev_grapheme(text@, pos as int),
        r is None <==> pos == 0,
        r matches Some(q) ==> q < pos && is_pos(encode_utf8(text@), q as int),
        plain_text(encode_utf8(text@)) ==> (r matches Some(q) ==> q == pos - 1),
{
    GraphemeCursor::new(pos, text.len(), true).prev_boundary(text, 0).unwrap_or(None)
}

/// `UnicodeSegmentation::split_word_bound_indices`: the offset of each piece.
///
/// Believed of it: the offsets depend on the text alone; the pieces put together are the text, so
/// the first offset is 0, the offsets do not fall, and each is a character boundary; only the empty
/// text has no piece.
#[verifier::external_body]
pub(crate) fn word_bound_indices(text: &str) -> (starts: Vec<usize>)
    ensures
        starts@ == word_starts(text@),
        starts@.len() == 0 <==> encode_utf8(text@).len() == 0,
        starts@.len() > 0 ==> starts@[0] == 0,
        forall|i: int|
            0 <= i < starts@.len() ==> is_pos(encode_utf8(text@), #[trigger] starts@[i] as int),
        forall|i: int, j: int| 0 <= i < j < starts@.len() ==> starts@[i] <= starts@[j],
{
    text.split_word_bound_indices().map(|(start, _)| start).collect()
}

} // verus!
