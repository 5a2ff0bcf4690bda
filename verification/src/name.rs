//! Names: the words of a text joined by single spaces, names within a
//! limit, and usernames.

use crate::limit::{
    lemma_fitting_name_is_kept, lemma_limited_within_limit, lemma_no_room_no_name, limited,
    shorten, spaced_length, views, word_texts, words_in, Word,
};
use crate::segment::{unicode_words, words_of};
use crate::unicode::{alphanumeric, is_alphanumeric, lowered, to_lowercase};
use crate::{fold, joined, texts};
use vstd::prelude::*;
use vstd::seq_lib::lemma_flatten_concat;

verus! {

/// The name of a text: its words joined by single spaces.
pub open spec fn name_of(text: Seq<char>) -> Seq<char> {
    joined(unicode_words(text), ' ')
}

/// The name of a text within `limit` grapheme clusters.
pub open spec fn limited_name_of(text: Seq<char>, limit: nat) -> Seq<char> {
    limited(words_in(text), limit).text()
}

/// Joins the words by single spaces.
pub fn name_from_words(words: &Vec<&str>) -> (out: String)
    ensures
        out@ == joined(texts(words@), ' '),
{
    let ghost all = texts(words@);
    let mut out = String::new();
    let mut i: usize = 0;
    while i < words.len()
        invariant
            i <= words.len(),
            all == texts(words@),
            out@ == joined(all.take(i as int), ' '),
        decreases words.len() - i,
    {
        proof {
            assert(all.take(i + 1).drop_last() =~= all.take(i as int));
        }
        out = fold(out, words[i], ' ');
        i = i + 1;
    }
    assert(all.take(words.len() as int) =~= all);
    out
}

/// Formats the input string as a name.
pub fn name(text: &str) -> (out: String)
    ensures
        out@ == name_of(text@),
        unicode_words(text@).len() == 0 ==> out@.len() == 0,
{
    let words = words_of(text);
    name_from_words(&words)
}

/// Formats the input string as a name and limits the length of the name.
pub fn name_with_limit(text: &str, limit: usize) -> (out: String)
    ensures
        out@ == limited_name_of(text@, limit as nat),
        limited(words_in(text@), limit as nat).length() <= limit,
        spaced_length(words_in(text@)) <= limit ==> out@ == name_of(text@),
        unicode_words(text@).len() == 0 || limit == 0 ==> out@.len() == 0,
{
    let found = words_of(text);
    let ghost all = words_in(text@);
    let mut words: Vec<Word> = Vec::new();
    let mut i: usize = 0;
    while i < found.len()
        invariant
            i <= found.len(),
            texts(found@) == unicode_words(text@),
            forall|k: int| 0 <= k < found.len() ==> (#[trigger] found[k])@.len() > 0,
            all == words_in(text@),
            views(words@) == all.take(i as int),
            forall|k: int| 0 <= k < words.len() ==> (#[trigger] words[k]).length >= 1,
        decreases found.len() - i,
    {
        let word = Word::measure(found[i]);
        proof {
            assert(views(words@).len() == words.len());
            assert(views(words@.push(word)) =~= all.take(i + 1));
        }
        words.push(word);
        i = i + 1;
    }
    proof {
        assert(all.take(found.len() as int) =~= all);
        assert(word_texts(all) =~= unicode_words(text@));
        lemma_limited_within_limit(all, limit as nat);
        if spaced_length(all) <= limit {
            lemma_fitting_name_is_kept(all, limit as nat);
        }
        if limit == 0 {
            lemma_no_room_no_name(all);
        }
    }
    shorten(&words, limit)
}

/// What a username keeps of one character of a name: the lowercase of a
/// letter or a number, and nothing of a separator or of any other character.
pub open spec fn username_letters(c: char) -> Seq<char> {
    if c != ' ' && alphanumeric(c) {
        lowered(c)
    } else {
        Seq::empty()
    }
}

/// The username that a name gives: what is kept of its characters, in their
/// order.
pub open spec fn username_from(name: Seq<char>) -> Seq<char> {
    name.map_values(|c: char| username_letters(c)).flatten()
}

/// The username of a text.
pub open spec fn username_of(text: Seq<char>) -> Seq<char> {
    username_from(name_of(text))
}

/// The username of a text whose name is first cut down to `limit` grapheme
/// clusters.
pub open spec fn limited_username_of(text: Seq<char>, limit: nat) -> Seq<char> {
    username_from(limited_name_of(text, limit))
}

/// Keeps the letters and numbers of a name, in lowercase.
pub fn username_from_name(name: &str) -> (out: String)
    ensures
        out@ == username_from(name@),
        (forall|i: int| 0 <= i < name@.len() ==> !alphanumeric(#[trigger] name@[i])) ==> out@.len()
            == 0,
{
    proof {
        if forall|i: int| 0 <= i < name@.len() ==> !alphanumeric(#[trigger] name@[i]) {
            lemma_no_letters_no_username(name@);
        }
    }
    let mut out = String::new();
    for c in it: name.chars()
        invariant
            it.seq() == name@,
            out@ == username_from(name@.take(it.index())),
    {
        proof {
            let i = it.index();
            let kept = name@.take(i).map_values(|c: char| username_letters(c));
            assert(name@.take(i + 1).map_values(|c: char| username_letters(c)) =~= kept.push(
                username_letters(c),
            ));
            kept.lemma_flatten_push(username_letters(c));
        }
        if c != ' ' && is_alphanumeric(c) {
            let lower = to_lowercase(c);
            out.append(lower.as_str());
        }
    }
    assert(name@.take(name@.len() as int) =~= name@);
    out
}

/// Creates a username from the provided string.
///
/// A username can only consist of alphanumeric characters.
pub fn username(text: &str) -> (out: String)
    ensures
        out@ == username_of(text@),
        unicode_words(text@).len() == 0 ==> out@.len() == 0,
{
    let name = name(text);
    username_from_name(name.as_str())
}

/// Creates a username from the provided string and limit.
///
/// A username can only consist of alphanumeric characters.
pub fn username_with_limit(text: &str, limit: usize) -> (out: String)
    ensures
        out@ == limited_username_of(text@, limit as nat),
        unicode_words(text@).len() == 0 || limit == 0 ==> out@.len() == 0,
{
    let name = name_with_limit(text, limit);
    username_from_name(name.as_str())
}

/// A name without a letter or a number gives the empty username.
pub proof fn lemma_no_letters_no_username(name: Seq<char>)
    requires
        forall|i: int| 0 <= i < name.len() ==> !alphanumeric(#[trigger] name[i]),
    ensures
        username_from(name) == Seq::<char>::empty(),
    decreases name.len(),
{
    let keep = |c: char| username_letters(c);
    if name.len() > 0 {
        let init = name.drop_last();
        lemma_no_letters_no_username(init);
        assert(name.map_values(keep) =~= init.map_values(keep).push(Seq::empty()));
        init.map_values(keep).lemma_flatten_push(Seq::empty());
    }
}

/// A text that a username keeps as it is, character by character: letters
/// and numbers that are their own lowercase.
pub open spec fn plain(text: Seq<char>) -> bool {
    forall|i: int| 0 <= i < text.len() ==> username_letters(#[trigger] text[i]) == seq![text[i]]
}

/// The username of two names in a row is the two usernames in a row.
pub proof fn lemma_username_from_concat(first: Seq<char>, second: Seq<char>)
    ensures
        username_from(first + second) == username_from(first) + username_from(second),
{
    let keep = |c: char| username_letters(c);
    assert((first + second).map_values(keep) =~= first.map_values(keep) + second.map_values(keep));
    lemma_flatten_concat(first.map_values(keep), second.map_values(keep));
}

/// A plain name is its own username.
pub proof fn lemma_plain_name_is_kept(name: Seq<char>)
    requires
        plain(name),
    ensures
        username_from(name) == name,
    decreases name.len(),
{
    let keep = |c: char| username_letters(c);
    if name.len() > 0 {
        let init = name.drop_last();
        lemma_plain_name_is_kept(init);
        assert(name.map_values(keep) =~= init.map_values(keep).push(keep(name.last())));
        init.map_values(keep).lemma_flatten_push(keep(name.last()));
    }
}

/// The separators between words leave no trace in a username: the username
/// of words joined by spaces is that of the words written in a row.
pub proof fn lemma_username_ignores_spaces(words: Seq<Seq<char>>)
    ensures
        username_from(joined(words, ' ')) == username_from(words.flatten()),
    decreases words.len(),
{
    let keep = |c: char| username_letters(c);
    if words.len() > 0 {
        let init = words.drop_last();
        let last = words.last();
        lemma_username_ignores_spaces(init);
        assert(words =~= init.push(last));
        init.lemma_flatten_push(last);
        lemma_username_from_concat(init.flatten(), last);
        if joined(init, ' ').len() > 0 {
            let space = seq![' '];
            assert(joined(words, ' ') =~= joined(init, ' ') + space + last);
            lemma_username_from_concat(joined(init, ' ') + space, last);
            lemma_username_from_concat(joined(init, ' '), space);
            assert(space.map_values(keep) =~= seq![Seq::<char>::empty()]);
            Seq::<Seq<char>>::empty().lemma_flatten_push(Seq::<char>::empty());
        }
    }
}

/// A plain text which the segmenter cuts into words without dropping any of
/// it is its own username.
pub proof fn lemma_plain_text_is_its_username(text: Seq<char>)
    requires
        plain(text),
        unicode_words(text).flatten() == text,
    ensures
        username_of(text) == text,
{
    lemma_username_ignores_spaces(unicode_words(text));
    lemma_plain_name_is_kept(text);
}

/// Taking the username of a username changes nothing, where the username is
/// plain and the segmenter cuts it into words without dropping any of it.
pub proof fn lemma_username_idempotent(text: Seq<char>)
    requires
        plain(username_of(text)),
        unicode_words(username_of(text)).flatten() == username_of(text),
    ensures
        username_of(username_of(text)) == username_of(text),
{
    lemma_plain_text_is_its_username(username_of(text));
}

} // verus!
