//! Names within a limit: the policy that cuts a name down to a number of
//! grapheme clusters, and what holds of it.

use crate::segment::{graphemes, graphemes_of, unicode_words};
use crate::{fold, joined, texts};
use vstd::prelude::*;

verus! {

/// A word with what the shortening policy reads of it.
#[derive(Clone, Copy, Debug)]
pub struct Word<'a> {
    /// The word as it stands in the text.
    pub text: &'a str,
    /// Its first grapheme cluster; empty where it has none.
    pub initial: &'a str,
    /// The number of its grapheme clusters.
    pub length: usize,
}

/// The mathematical value of a `Word`.
pub struct WordView {
    pub text: Seq<char>,
    pub initial: Seq<char>,
    pub length: nat,
}

impl<'a> View for Word<'a> {
    type V = WordView;

    open spec fn view(&self) -> WordView {
        WordView { text: self.text@, initial: self.initial@, length: self.length as nat }
    }
}

/// The values of a list of words.
pub open spec fn views(words: Seq<Word>) -> Seq<WordView> {
    Seq::new(words.len(), |i: int| words[i]@)
}

/// The texts of a list of words.
pub open spec fn word_texts(words: Seq<WordView>) -> Seq<Seq<char>> {
    Seq::new(words.len(), |i: int| words[i].text)
}

/// A word of a text as the segmenter measures it: the word, the first of
/// its grapheme clusters and their number.
pub open spec fn measured(word: Seq<char>) -> WordView {
    let clusters = graphemes(word);
    WordView {
        text: word,
        initial: if clusters.len() > 0 {
            clusters[0]
        } else {
            Seq::empty()
        },
        length: clusters.len(),
    }
}

/// The words of a text, each one measured.
pub open spec fn words_in(text: Seq<char>) -> Seq<WordView> {
    Seq::new(unicode_words(text).len(), |i: int| measured(unicode_words(text)[i]))
}

/// A word reduced to its first grapheme cluster. A word without grapheme
/// clusters has nothing to give up and stays as it is.
pub open spec fn abbreviated(word: WordView) -> WordView {
    if word.length >= 1 {
        WordView { text: word.initial, initial: word.initial, length: 1 }
    } else {
        word
    }
}

/// The words with those from index `from` on abbreviated.
pub open spec fn abbreviated_from(words: Seq<WordView>, from: int) -> Seq<WordView> {
    Seq::new(
        words.len(),
        |i: int|
            if i >= from {
                abbreviated(words[i])
            } else {
                words[i]
            },
    )
}

/// The number of grapheme clusters in all the words together.
pub open spec fn clusters(words: Seq<WordView>) -> nat
    decreases words.len(),
{
    if words.len() == 0 {
        0
    } else {
        clusters(words.drop_last()) + words.last().length
    }
}

/// The number of separators between `count` words.
pub open spec fn gaps(count: nat) -> nat {
    if count == 0 {
        0
    } else {
        (count - 1) as nat
    }
}

/// The length of the words written with one separator in each gap.
pub open spec fn spaced_length(words: Seq<WordView>) -> nat {
    clusters(words) + gaps(words.len())
}

/// Where the abbreviations begin. The words are visited from the last one
/// back to the first, starting below `from`; the visit stops as soon as the
/// words, those from `from` on abbreviated, fit the limit with their
/// separators.
pub open spec fn cut(words: Seq<WordView>, limit: nat, from: nat) -> nat
    decreases from,
{
    if from == 0 || spaced_length(abbreviated_from(words, from as int)) <= limit {
        from
    } else {
        cut(words, limit, (from - 1) as nat)
    }
}

/// A name cut down: the words it keeps, abbreviated or not, and whether
/// they are written with separators.
pub struct Shortened {
    pub words: Seq<WordView>,
    pub spaced: bool,
}

impl Shortened {
    /// The name as text.
    pub open spec fn text(self) -> Seq<char> {
        if self.spaced {
            joined(word_texts(self.words), ' ')
        } else {
            word_texts(self.words).flatten()
        }
    }

    /// The length of the name: the grapheme clusters of its words and one
    /// for each separator.
    pub open spec fn length(self) -> nat {
        if self.spaced {
            spaced_length(self.words)
        } else {
            clusters(self.words)
        }
    }
}

/// The name that the words give within `limit` grapheme clusters. Words are
/// abbreviated from the last one backwards until the name fits. Where it
/// does not fit even with every word abbreviated, the separators go; where
/// that is not enough either, only the first `limit` words stay.
pub open spec fn limited(words: Seq<WordView>, limit: nat) -> Shortened {
    let kept = abbreviated_from(words, cut(words, limit, words.len()) as int);
    if spaced_length(kept) <= limit {
        Shortened { words: kept, spaced: true }
    } else if clusters(kept) <= limit {
        Shortened { words: kept, spaced: false }
    } else {
        Shortened { words: kept.take(limit as int), spaced: false }
    }
}

impl<'a> Word<'a> {
    /// The word with its grapheme clusters counted.
    pub fn measure(text: &'a str) -> (word: Word<'a>)
        ensures
            word@ == measured(text@),
            text@.len() > 0 ==> word.length >= 1,
    {
        let clusters = graphemes_of(text);
        let length = clusters.len();
        let initial = if length > 0 {
            clusters[0]
        } else {
            proof {
                reveal_strlit("");
            }
            ""
        };
        assert(initial@ =~= measured(text@).initial);
        Word { text, initial, length }
    }
}

/// The text of a word, abbreviated where `short` says so.
fn part<'a>(word: &Word<'a>, short: bool) -> (text: &'a str)
    ensures
        text@ == (if short {
            abbreviated(word@)
        } else {
            word@
        }).text,
{
    if short && word.length >= 1 {
        word.initial
    } else {
        word.text
    }
}

/// Writes the first `upto` of the words, those from index `from` on
/// abbreviated, with or without separators.
fn written(words: &Vec<Word>, from: usize, upto: usize, spaced: bool) -> (out: String)
    requires
        upto <= words.len(),
    ensures
        out@ == (Shortened {
            words: abbreviated_from(views(words@), from as int).take(upto as int),
            spaced,
        }).text(),
{
    let ghost kept = abbreviated_from(views(words@), from as int).take(upto as int);
    let ghost parts = word_texts(kept);
    let mut out = String::new();
    let mut i: usize = 0;
    while i < upto
        invariant
            i <= upto <= words.len(),
            kept == abbreviated_from(views(words@), from as int).take(upto as int),
            parts == word_texts(kept),
            spaced ==> out@ == joined(parts.take(i as int), ' '),
            !spaced ==> out@ == parts.take(i as int).flatten(),
        decreases upto - i,
    {
        let text = part(&words[i], i >= from);
        proof {
            assert(parts.take(i + 1).drop_last() =~= parts.take(i as int));
            assert(parts.take(i + 1) =~= parts.take(i as int).push(text@));
            parts.take(i as int).lemma_flatten_push(text@);
        }
        if spaced {
            out = fold(out, text, ' ');
        } else {
            out.append(text);
        }
        i = i + 1;
    }
    assert(parts.take(upto as int) =~= parts);
    out
}

/// The name that the words give within `limit` grapheme clusters.
pub fn shorten(words: &Vec<Word>, limit: usize) -> (out: String)
    ensures
        out@ == limited(views(words@), limit as nat).text(),
{
    let n = words.len();
    let ghost all = views(words@);
    let mut count: u128 = if n == 0 {
        0
    } else {
        (n - 1) as u128
    };
    let mut i: usize = 0;
    while i < n
        invariant
            n == words.len(),
            all == views(words@),
            i <= n,
            count == clusters(all.take(i as int)) + gaps(n as nat),
            count <= i * 0xffff_ffff_ffff_ffff + n,
        decreases n - i,
    {
        proof {
            lemma_clusters_take(all, i as int);
        }
        count = count + words[i].length as u128;
        i = i + 1;
    }
    let mut from: usize = n;
    proof {
        assert(all.take(n as int) =~= all);
        assert(abbreviated_from(all, n as int) =~= all);
    }
    while from > 0 && count > limit as u128
        invariant
            n == words.len(),
            all == views(words@),
            from <= n,
            count == spaced_length(abbreviated_from(all, from as int)),
            cut(all, limit as nat, n as nat) == cut(all, limit as nat, from as nat),
        decreases from,
    {
        proof {
            lemma_abbreviate_one_more(all, from as int);
        }
        from = from - 1;
        let length = words[from].length;
        if length >= 1 {
            count = count - (length - 1) as u128;
        }
    }
    let ghost kept = abbreviated_from(all, from as int);
    if count <= limit as u128 {
        proof {
            assert(kept.take(n as int) =~= kept);
        }
        written(words, from, n, true)
    } else if count - (n - 1) as u128 <= limit as u128 {
        proof {
            assert(kept.take(n as int) =~= kept);
        }
        written(words, from, n, false)
    } else {
        proof {
            lemma_clusters_of_short_words(kept);
        }
        written(words, from, limit, false)
    }
}

/// A name cut down to a limit is not longer than the limit: its words do not
/// count more grapheme clusters, separators included, than the limit allows.
/// Where even the initials alone are too many, it is the first `limit` words
/// that remain, of at most one grapheme cluster each.
pub proof fn lemma_limited_within_limit(words: Seq<WordView>, limit: nat)
    ensures
        limited(words, limit).length() <= limit,
        clusters(abbreviated_from(words, 0)) > limit ==> {
            let short = limited(words, limit);
            &&& !short.spaced
            &&& short.words == abbreviated_from(words, 0).take(limit as int)
            &&& short.words.len() == limit
            &&& forall|i: int| 0 <= i < limit ==> (#[trigger] short.words[i]).length <= 1
        },
{
    let from = cut(words, limit, words.len());
    let kept = abbreviated_from(words, from as int);
    lemma_cut_stops(words, limit, words.len());
    lemma_clusters_of_short_words(abbreviated_from(words, 0));
    if clusters(abbreviated_from(words, 0)) > limit {
        lemma_cut_reaches_start(words, limit, words.len());
    }
    if spaced_length(kept) > limit && clusters(kept) > limit {
        lemma_clusters_of_short_words(kept.take(limit as int));
    }
}

/// A name that fits the limit as it stands is left as it stands.
pub proof fn lemma_fitting_name_is_kept(words: Seq<WordView>, limit: nat)
    requires
        spaced_length(words) <= limit,
    ensures
        limited(words, limit) == (Shortened { words, spaced: true }),
        limited(words, limit).text() == joined(word_texts(words), ' '),
{
    assert(abbreviated_from(words, words.len() as int) =~= words);
}

/// Within no grapheme cluster at all nothing is left of a name whose words
/// have at least one grapheme cluster each.
pub proof fn lemma_no_room_no_name(words: Seq<WordView>)
    requires
        forall|i: int| 0 <= i < words.len() ==> (#[trigger] words[i]).length >= 1,
    ensures
        limited(words, 0).text() == Seq::<char>::empty(),
{
    let from = cut(words, 0, words.len());
    let kept = abbreviated_from(words, from as int);
    lemma_cut_stops(words, 0, words.len());
    if words.len() > 0 {
        lemma_clusters_at_least(kept);
    }
}

/// The policy abbreviates no more words than it must: where the words are
/// abbreviated from `cut` on, abbreviating them only from a later index on
/// would not fit the limit.
pub proof fn lemma_cut_is_least(words: Seq<WordView>, limit: nat, from: nat, later: nat)
    requires
        cut(words, limit, from) < later <= from,
    ensures
        spaced_length(abbreviated_from(words, later as int)) > limit,
    decreases from,
{
    if later < from {
        lemma_cut_is_least(words, limit, (from - 1) as nat, later);
    }
}

/// A larger limit never gives a shorter name.
pub proof fn lemma_limited_grows(words: Seq<WordView>, less: nat, more: nat)
    requires
        less <= more,
    ensures
        limited(words, less).length() <= limited(words, more).length(),
{
    let n = words.len();
    let short = abbreviated_from(words, cut(words, less, n) as int);
    let long = abbreviated_from(words, cut(words, more, n) as int);
    lemma_cut_stops(words, less, n);
    lemma_cut_stops(words, more, n);
    lemma_cut_grows(words, less, more, n);
    lemma_abbreviating_shrinks(words, cut(words, less, n) as int, cut(words, more, n) as int);
    lemma_clusters_of_short_words(abbreviated_from(words, 0));
    assert(short.take(n as int) =~= short);
    if spaced_length(short) > less && clusters(short) > less {
        lemma_clusters_of_prefix(short, less as int, n as int);
        if spaced_length(long) > more && clusters(long) > more {
            lemma_clusters_of_prefix(long, less as int, more as int);
        }
    }
}

/// A larger limit never moves the cut towards the first word.
proof fn lemma_cut_grows(words: Seq<WordView>, less: nat, more: nat, from: nat)
    requires
        less <= more,
    ensures
        cut(words, less, from) <= cut(words, more, from),
    decreases from,
{
    if from > 0 {
        lemma_cut_grows(words, less, more, (from - 1) as nat);
        lemma_cut_stops(words, less, (from - 1) as nat);
    }
}

/// Fewer of the words have no more grapheme clusters.
proof fn lemma_clusters_of_prefix(words: Seq<WordView>, fewer: int, more: int)
    requires
        0 <= fewer <= more <= words.len(),
    ensures
        clusters(words.take(fewer)) <= clusters(words.take(more)),
    decreases more - fewer,
{
    if fewer < more {
        lemma_clusters_take(words, more - 1);
        lemma_clusters_of_prefix(words, fewer, more - 1);
    }
}

/// Words of at least one grapheme cluster each have at least as many
/// clusters as there are words.
proof fn lemma_clusters_at_least(words: Seq<WordView>)
    requires
        forall|i: int| 0 <= i < words.len() ==> (#[trigger] words[i]).length >= 1,
    ensures
        clusters(words) >= words.len(),
    decreases words.len(),
{
    if words.len() > 0 {
        lemma_clusters_at_least(words.drop_last());
    }
}

/// Abbreviating more words does not add grapheme clusters.
proof fn lemma_abbreviating_shrinks(words: Seq<WordView>, more: int, fewer: int)
    requires
        0 <= more <= fewer <= words.len(),
    ensures
        clusters(abbreviated_from(words, more)) <= clusters(abbreviated_from(words, fewer)),
    decreases fewer - more,
{
    if more < fewer {
        lemma_abbreviate_one_more(words, fewer);
        lemma_abbreviating_shrinks(words, more, fewer - 1);
    }
}

/// Where the initials alone are more than the limit, `cut` goes back to the
/// first word.
proof fn lemma_cut_reaches_start(words: Seq<WordView>, limit: nat, from: nat)
    requires
        from <= words.len(),
        clusters(abbreviated_from(words, 0)) > limit,
    ensures
        cut(words, limit, from) == 0,
    decreases from,
{
    if from > 0 {
        lemma_abbreviating_shrinks(words, 0, from as int);
        lemma_cut_reaches_start(words, limit, (from - 1) as nat);
    }
}

proof fn lemma_clusters_take(words: Seq<WordView>, i: int)
    requires
        0 <= i < words.len(),
    ensures
        clusters(words.take(i + 1)) == clusters(words.take(i)) + words[i].length,
{
    assert(words.take(i + 1).drop_last() =~= words.take(i));
}

proof fn lemma_clusters_update(words: Seq<WordView>, i: int, word: WordView)
    requires
        0 <= i < words.len(),
    ensures
        clusters(words.update(i, word)) == clusters(words) - words[i].length + word.length,
    decreases words.len(),
{
    if i == words.len() - 1 {
        assert(words.update(i, word).drop_last() =~= words.drop_last());
    } else {
        assert(words.update(i, word).drop_last() =~= words.drop_last().update(i, word));
        lemma_clusters_update(words.drop_last(), i, word);
    }
}

/// Abbreviating one word more, the one before `from`, changes the number of
/// grapheme clusters by what that word gives up.
proof fn lemma_abbreviate_one_more(words: Seq<WordView>, from: int)
    requires
        1 <= from <= words.len(),
    ensures
        clusters(abbreviated_from(words, from - 1)) == clusters(abbreviated_from(words, from))
            - words[from - 1].length + abbreviated(words[from - 1]).length,
{
    let before = abbreviated_from(words, from);
    let word = abbreviated(words[from - 1]);
    assert(abbreviated_from(words, from - 1) =~= before.update(from - 1, word));
    lemma_clusters_update(before, from - 1, word);
}

/// Words of at most one grapheme cluster each have no more clusters than
/// there are words.
proof fn lemma_clusters_of_short_words(words: Seq<WordView>)
    requires
        forall|i: int| 0 <= i < words.len() ==> (#[trigger] words[i]).length <= 1,
    ensures
        clusters(words) <= words.len(),
    decreases words.len(),
{
    if words.len() > 0 {
        lemma_clusters_of_short_words(words.drop_last());
    }
}

/// What `cut` stops at: the beginning, or an index from which on the
/// abbreviated words fit.
proof fn lemma_cut_stops(words: Seq<WordView>, limit: nat, from: nat)
    ensures
        cut(words, limit, from) <= from,
        cut(words, limit, from) == 0 || spaced_length(
            abbreviated_from(words, cut(words, limit, from) as int),
        ) <= limit,
    decreases from,
{
    if !(from == 0 || spaced_length(abbreviated_from(words, from as int)) <= limit) {
        lemma_cut_stops(words, limit, (from - 1) as nat);
    }
}

} // verus!
