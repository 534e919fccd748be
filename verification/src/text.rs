//! Case folding and substring search on text.

use vstd::prelude::*;

verus! {

/// The text that `str::to_lowercase` makes of `s` (Unicode lower-case mapping).
pub uninterp spec fn lowercase(s: Seq<char>) -> Seq<char>;

/// Whether `needle` occurs as a contiguous run of characters in `hay`.
/// The empty text occurs in every text.
pub open spec fn contains_text(hay: Seq<char>, needle: Seq<char>) -> bool {
    exists|i: int|
        0 <= i && i + needle.len() <= hay.len() && #[trigger] hay.subrange(i, i + needle.len())
            == needle
}

/// `str::to_lowercase`: the lower-case equivalent of `s`. Its result is a
/// function of `s` alone, named `lowercase`; the Unicode mapping itself is not
/// written out here. It maps each character in turn, so the empty text gives
/// the empty text.
#[verifier::external_body]
pub(crate) fn to_lowercase(s: &str) -> (r: String)
    ensures
        r@ == lowercase(s@),
        s@.len() == 0 ==> r@.len() == 0,
{
    s.to_lowercase()
}

/// `str::contains` with a `&str` pattern: whether `needle` occurs in `hay`.
/// A match of UTF-8 bytes of whole text is a match of whole characters, so the
/// claim is stated over characters.
#[verifier::external_body]
pub(crate) fn str_contains(hay: &str, needle: &str) -> (r: bool)
    ensures
        r == contains_text(hay@, needle@),
{
    hay.contains(needle)
}

} // verus!
