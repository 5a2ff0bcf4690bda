//! The word segmenter: words and grapheme clusters of a text by the rules of
//! Unicode Standard Annex #29, both computed by the crate
//! `unicode-segmentation`. Nothing in this file is proved: the two spec
//! functions name what that crate returns, and the two wrappers call it.

use crate::texts;
use unicode_segmentation::UnicodeSegmentation;
use vstd::prelude::*;

verus! {

/// The words that `UnicodeSegmentation::unicode_words` finds in a text, in
/// their order: the pieces between word boundaries that hold a letter or a
/// digit.
pub uninterp spec fn unicode_words(text: Seq<char>) -> Seq<Seq<char>>;

/// The extended grapheme clusters that `UnicodeSegmentation::graphemes`
/// finds in a text, in their order.
pub uninterp spec fn graphemes(text: Seq<char>) -> Seq<Seq<char>>;

/// Calls `UnicodeSegmentation::unicode_words` and collects what its iterator
/// yields. The contract claims that the words depend on the text alone (they
/// are `unicode_words` of it) and that none of them is empty: the iterator
/// passes on only pieces in which it found a letter or a digit.
#[verifier::external_body]
pub(crate) fn words_of<'a>(text: &'a str) -> (words: Vec<&'a str>)
    ensures
        texts(words@) == unicode_words(text@),
        forall|i: int| 0 <= i < words.len() ==> (#[trigger] words[i])@.len() > 0,
{
    text.unicode_words().collect()
}

/// Calls `UnicodeSegmentation::graphemes` for extended grapheme clusters and
/// collects what its iterator yields. The contract claims that the clusters
/// depend on the text alone (they are `graphemes` of it) and that a text
/// which is not empty has at least one: the iterator ends only where nothing
/// of the text is left.
#[verifier::external_body]
pub(crate) fn graphemes_of<'a>(text: &'a str) -> (clusters: Vec<&'a str>)
    ensures
        texts(clusters@) == graphemes(text@),
        text@.len() > 0 ==> clusters.len() > 0,
{
    text.graphemes(true).collect()
}

} // verus!
