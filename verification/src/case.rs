//! Identifier cases: a name cut into tokens and written in kebab, snake,
//! camel or pascal case.

use crate::name::{limited_name_of, name, name_of, name_with_limit};
use crate::segment::unicode_words;
use crate::unicode::{
    is_lowercase, is_numeric, is_uppercase, is_whitespace, lowercase, lowered, lowered_text,
    numeric, push_char, raised, raised_text, str_to_lowercase, str_to_uppercase, to_lowercase,
    to_uppercase, uppercase, whitespace,
};
use crate::{fold, folded, joined, texts};
use vstd::prelude::*;

verus! {

/// The punctuation of ASCII: the characters from `!` to `/`, from `:` to
/// `@`, from `[` to `` ` `` and from `{` to `~`.
pub open spec fn ascii_punctuation(c: char) -> bool {
    ||| '!' <= c <= '/'
    ||| ':' <= c <= '@'
    ||| '[' <= c <= '`'
    ||| '{' <= c <= '~'
}

/// Whether a character separates tokens: punctuation of ASCII and
/// whitespace do.
pub open spec fn separator(c: char) -> bool {
    ascii_punctuation(c) || whitespace(c)
}

/// Whether the character separates tokens.
pub fn pat(c: char) -> (yes: bool)
    ensures
        yes == separator(c),
{
    ('!' <= c && c <= '/') || (':' <= c && c <= '@') || ('[' <= c && c <= '`') || ('{' <= c && c
        <= '~') || is_whitespace(c)
}

/// A token that has come to its end: it counts unless it is empty.
pub open spec fn closed(pending: Seq<char>) -> Seq<Seq<char>> {
    if pending.len() > 0 {
        seq![pending]
    } else {
        Seq::empty()
    }
}

/// The tokens of `rest`, where `pending` is what was read of a token just
/// before `rest`: a separator ends the token, any other character goes on
/// with it.
pub open spec fn tokens_after(pending: Seq<char>, rest: Seq<char>) -> Seq<Seq<char>>
    decreases rest.len(),
{
    if rest.len() == 0 {
        closed(pending)
    } else if separator(rest[0]) {
        closed(pending) + tokens_after(Seq::empty(), rest.drop_first())
    } else {
        tokens_after(pending.push(rest[0]), rest.drop_first())
    }
}

/// The tokens of a text: its longest runs of characters that are no
/// separators, in their order.
pub open spec fn tokens(text: Seq<char>) -> Seq<Seq<char>> {
    tokens_after(Seq::empty(), text)
}

/// Whether a text holds no separator.
pub open spec fn unbroken(text: Seq<char>) -> bool {
    forall|i: int| 0 <= i < text.len() ==> !separator(#[trigger] text[i])
}

/// A text without separators is one token, unless it is empty.
pub proof fn lemma_tokens_of_unbroken(text: Seq<char>)
    requires
        unbroken(text),
    ensures
        tokens(text) == closed(text),
{
    lemma_tokens_after_unbroken(Seq::empty(), text);
}

/// A separator parts the tokens before it from the tokens after it, and is
/// itself in none.
pub proof fn lemma_tokens_around_separator(before: Seq<char>, c: char, after: Seq<char>)
    requires
        separator(c),
    ensures
        tokens(before.push(c) + after) == tokens(before) + tokens(after),
{
    lemma_tokens_after_separator(Seq::empty(), before, c, after);
}

proof fn lemma_tokens_after_unbroken(pending: Seq<char>, rest: Seq<char>)
    requires
        unbroken(rest),
    ensures
        tokens_after(pending, rest) == closed(pending + rest),
    decreases rest.len(),
{
    if rest.len() > 0 {
        lemma_tokens_after_unbroken(pending.push(rest[0]), rest.drop_first());
        assert(pending.push(rest[0]) + rest.drop_first() =~= pending + rest);
    }
}

proof fn lemma_tokens_after_separator(
    pending: Seq<char>,
    before: Seq<char>,
    c: char,
    after: Seq<char>,
)
    requires
        separator(c),
    ensures
        tokens_after(pending, before.push(c) + after) == tokens_after(pending, before) + tokens(
            after,
        ),
    decreases before.len(),
{
    let rest = before.push(c) + after;
    if before.len() == 0 {
        assert(rest.drop_first() =~= after);
    } else {
        assert(rest.drop_first() =~= before.drop_first().push(c) + after);
        if separator(before[0]) {
            lemma_tokens_after_separator(Seq::empty(), before.drop_first(), c, after);
        } else {
            lemma_tokens_after_separator(pending.push(before[0]), before.drop_first(), c, after);
        }
    }
}

/// Cuts a text into its tokens.
pub fn split_tokens(text: &str) -> (found: Vec<String>)
    ensures
        texts(found@) == tokens(text@),
{
    let mut found: Vec<String> = Vec::new();
    let mut pending = String::new();
    assert(text@.skip(0) =~= text@);
    for c in it: text.chars()
        invariant
            it.seq() == text@,
            tokens(text@) == texts(found@) + tokens_after(pending@, text@.skip(it.index())),
    {
        proof {
            let rest = text@.skip(it.index());
            assert(rest.drop_first() =~= text@.skip(it.index() + 1));
        }
        if pat(c) {
            if !pending.as_str().is_empty() {
                found.push(pending);
                pending = String::new();
            } else {
                assert(pending@ =~= Seq::<char>::empty());
            }
        } else {
            push_char(&mut pending, c);
        }
    }
    if !pending.as_str().is_empty() {
        found.push(pending);
    }
    found
}

/// Whether the character at index `i` of a word is written in uppercase when
/// the word is capitalized: the first character where `upper` says so, a
/// later one where the two characters before it are a lowercase one and then
/// an uppercase one.
pub open spec fn capital_at(word: Seq<char>, upper: bool, i: int) -> bool {
    if i == 0 {
        upper
    } else {
        i >= 2 && lowercase(word[i - 2]) && uppercase(word[i - 1])
    }
}

/// The character at index `i` of a word as it is written when the word is
/// capitalized.
pub open spec fn capitalized_at(word: Seq<char>, upper: bool, i: int) -> Seq<char> {
    if capital_at(word, upper, i) {
        raised(word[i])
    } else {
        lowered(word[i])
    }
}

/// A word capitalized: each character in uppercase or in lowercase, as
/// `capital_at` says.
pub open spec fn capitalized(word: Seq<char>, upper: bool) -> Seq<char> {
    Seq::new(word.len(), |i: int| capitalized_at(word, upper, i)).flatten()
}

/// Capitalizes a word. One pass from left to right: a character is written
/// in uppercase where the flag is set, and the flag is set anew after each
/// character, to whether that character is an uppercase one that follows a
/// lowercase one.
pub fn to_camel_case(word: &str, upper: bool) -> (out: String)
    ensures
        out@ == capitalized(word@, upper),
{
    let ghost first = upper;
    let mut upper = upper;
    let mut out = String::new();
    let mut prev_is_lowercase = false;
    for c in it: word.chars()
        invariant
            it.seq() == word@,
            out@ == Seq::new(it.index() as nat, |i: int| capitalized_at(word@, first, i)).flatten(),
            upper == capital_at(word@, first, it.index()),
            prev_is_lowercase == (it.index() >= 1 && lowercase(word@[it.index() - 1])),
    {
        let ghost done = Seq::new(it.index() as nat, |i: int| capitalized_at(word@, first, i));
        proof {
            assert(Seq::new((it.index() + 1) as nat, |i: int| capitalized_at(word@, first, i))
                =~= done.push(capitalized_at(word@, first, it.index())));
            done.lemma_flatten_push(capitalized_at(word@, first, it.index()));
        }
        let written = if upper {
            to_uppercase(c)
        } else {
            to_lowercase(c)
        };
        out.append(written.as_str());
        upper = prev_is_lowercase && is_uppercase(c);
        prev_is_lowercase = is_lowercase(c);
    }
    out
}

/// Adds a word to a kebab case name.
pub fn fold_kebab_case(acc: String, w: String) -> (out: String)
    ensures
        out@ == folded(acc@, w@, '-'),
{
    fold(acc, w.as_str(), '-')
}

/// Adds a word to a snake case name.
pub fn fold_snake_case(acc: String, w: String) -> (out: String)
    ensures
        out@ == folded(acc@, w@, '_'),
{
    fold(acc, w.as_str(), '_')
}

/// What `fold_camel_case` makes of `acc` and `w`: the two in a row, with an
/// underscore between them where `acc` ends in a number and `w` begins with
/// one.
pub open spec fn camel_folded(acc: Seq<char>, w: Seq<char>) -> Seq<char> {
    if w.len() > 0 && numeric(w.first()) && acc.len() > 0 && numeric(acc.last()) {
        acc.push('_') + w
    } else {
        acc + w
    }
}

/// The words in order, folded into one camel case text.
pub open spec fn camel_joined(words: Seq<Seq<char>>) -> Seq<char>
    decreases words.len(),
{
    if words.len() == 0 {
        Seq::empty()
    } else {
        camel_folded(camel_joined(words.drop_last()), words.last())
    }
}

/// Adds a word to a camel case name, after an underscore where two numbers
/// would meet.
pub fn fold_camel_case(acc: String, w: String) -> (out: String)
    ensures
        out@ == camel_folded(acc@, w@),
{
    let mut acc = acc;
    let start = w.as_str().unicode_len();
    let end = acc.as_str().unicode_len();
    let start_is_num = start > 0 && is_numeric(w.as_str().get_char(0));
    let end_is_num = end > 0 && is_numeric(acc.as_str().get_char(end - 1));
    // Split with _ if two word boundaries are numeric.
    if start_is_num && end_is_num {
        push_char(&mut acc, '_');
    }
    acc.append(w.as_str());
    acc
}

/// The identifier cases.
#[derive(Clone, Copy, Debug)]
pub enum Case {
    /// Lowercase words with `-` between them.
    Kebab,
    /// Uppercase words with `-` between them.
    ScreamingKebab,
    /// Lowercase words with `_` between them.
    Snake,
    /// Uppercase words with `_` between them.
    ScreamingSnake,
    /// Capitalized words in a row, the first one beginning in lowercase.
    Camel,
    /// Capitalized words in a row.
    Pascal,
}

impl Case {
    /// A token as this case writes it at position `i` among the tokens.
    pub open spec fn word(self, token: Seq<char>, i: int) -> Seq<char> {
        match self {
            Case::Kebab | Case::Snake => lowered_text(token),
            Case::ScreamingKebab | Case::ScreamingSnake => raised_text(token),
            Case::Camel => capitalized(token, i != 0),
            Case::Pascal => capitalized(token, true),
        }
    }

    /// The tokens of a text as this case writes them.
    pub open spec fn words(self, tokens: Seq<Seq<char>>) -> Seq<Seq<char>> {
        Seq::new(tokens.len(), |i: int| self.word(tokens[i], i))
    }

    /// Words put together as this case does it.
    pub open spec fn assembled(self, words: Seq<Seq<char>>) -> Seq<char> {
        match self {
            Case::Kebab | Case::ScreamingKebab => joined(words, '-'),
            Case::Snake | Case::ScreamingSnake => joined(words, '_'),
            Case::Camel | Case::Pascal => camel_joined(words),
        }
    }
}

/// A name in a case: its tokens, each written as the case has it, put
/// together as the case has it.
pub open spec fn cased(name: Seq<char>, case: Case) -> Seq<char> {
    case.assembled(case.words(tokens(name)))
}

/// Writes a name in a case.
pub fn convert(name: &str, case: Case) -> (out: String)
    ensures
        out@ == cased(name@, case),
        name@.len() == 0 ==> out@.len() == 0,
{
    let found = split_tokens(name);
    let ghost words = case.words(tokens(name@));
    let mut out = String::new();
    let mut i: usize = 0;
    while i < found.len()
        invariant
            i <= found.len(),
            texts(found@) == tokens(name@),
            words == case.words(tokens(name@)),
            out@ == case.assembled(words.take(i as int)),
        decreases found.len() - i,
    {
        let token = found[i].as_str();
        proof {
            assert(words.take(i + 1).drop_last() =~= words.take(i as int));
        }
        out = match case {
            Case::Kebab => fold_kebab_case(out, str_to_lowercase(token)),
            Case::ScreamingKebab => fold_kebab_case(out, str_to_uppercase(token)),
            Case::Snake => fold_snake_case(out, str_to_lowercase(token)),
            Case::ScreamingSnake => fold_snake_case(out, str_to_uppercase(token)),
            Case::Camel => fold_camel_case(out, to_camel_case(token, i != 0)),
            Case::Pascal => fold_camel_case(out, to_camel_case(token, true)),
        };
        i = i + 1;
    }
    assert(words.take(found.len() as int) =~= words);
    out
}

/// Formats the input string as a kebab case name.
pub fn kebab_case(text: &str) -> (out: String)
    ensures
        out@ == cased(name_of(text@), Case::Kebab),
        unicode_words(text@).len() == 0 ==> out@.len() == 0,
{
    convert(name(text).as_str(), Case::Kebab)
}

/// Formats the input string as a kebab case name and limits the length of
/// the name.
pub fn kebab_case_with_limit(text: &str, limit: usize) -> (out: String)
    ensures
        out@ == cased(limited_name_of(text@, limit as nat), Case::Kebab),
        unicode_words(text@).len() == 0 || limit == 0 ==> out@.len() == 0,
{
    convert(name_with_limit(text, limit).as_str(), Case::Kebab)
}

/// Formats the input string as a screaming kebab case name.
pub fn screaming_kebab_case(text: &str) -> (out: String)
    ensures
        out@ == cased(name_of(text@), Case::ScreamingKebab),
        unicode_words(text@).len() == 0 ==> out@.len() == 0,
{
    convert(name(text).as_str(), Case::ScreamingKebab)
}

/// Formats the input string as a screaming kebab case name and limits the
/// length of the name.
pub fn screaming_kebab_case_with_limit(text: &str, limit: usize) -> (out: String)
    ensures
        out@ == cased(limited_name_of(text@, limit as nat), Case::ScreamingKebab),
        unicode_words(text@).len() == 0 || limit == 0 ==> out@.len() == 0,
{
    convert(name_with_limit(text, limit).as_str(), Case::ScreamingKebab)
}

/// Formats the input string as a snake case name.
pub fn snake_case(text: &str) -> (out: String)
    ensures
        out@ == cased(name_of(text@), Case::Snake),
        unicode_words(text@).len() == 0 ==> out@.len() == 0,
{
    convert(name(text).as_str(), Case::Snake)
}

/// Formats the input string as a snake case name and limits the length of
/// the name.
pub fn snake_case_with_limit(text: &str, limit: usize) -> (out: String)
    ensures
        out@ == cased(limited_name_of(text@, limit as nat), Case::Snake),
        unicode_words(text@).len() == 0 || limit == 0 ==> out@.len() == 0,
{
    convert(name_with_limit(text, limit).as_str(), Case::Snake)
}

/// Formats the input string as a screaming snake case name.
pub fn screaming_snake_case(text: &str) -> (out: String)
    ensures
        out@ == cased(name_of(text@), Case::ScreamingSnake),
        unicode_words(text@).len() == 0 ==> out@.len() == 0,
{
    convert(name(text).as_str(), Case::ScreamingSnake)
}

/// Formats the input string as a screaming snake case name and limits the
/// length of the name.
pub fn screaming_snake_case_with_limit(text: &str, limit: usize) -> (out: String)
    ensures
        out@ == cased(limited_name_of(text@, limit as nat), Case::ScreamingSnake),
        unicode_words(text@).len() == 0 || limit == 0 ==> out@.len() == 0,
{
    convert(name_with_limit(text, limit).as_str(), Case::ScreamingSnake)
}

/// Formats the input string as a camel case name.
pub fn camel_case(text: &str) -> (out: String)
    ensures
        out@ == cased(name_of(text@), Case::Camel),
        unicode_words(text@).len() == 0 ==> out@.len() == 0,
{
    convert(name(text).as_str(), Case::Camel)
}

/// Formats the input string as a camel case name with a limit on the length.
pub fn camel_case_with_limit(text: &str, limit: usize) -> (out: String)
    ensures
        out@ == cased(limited_name_of(text@, limit as nat), Case::Camel),
        unicode_words(text@).len() == 0 || limit == 0 ==> out@.len() == 0,
{
    convert(name_with_limit(text, limit).as_str(), Case::Camel)
}

/// Formats the input string as a pascal case name.
pub fn pascal_case(text: &str) -> (out: String)
    ensures
        out@ == cased(name_of(text@), Case::Pascal),
        unicode_words(text@).len() == 0 ==> out@.len() == 0,
{
    convert(name(text).as_str(), Case::Pascal)
}

/// Formats the input string as a pascal case name with a limit on the length.
pub fn pascal_case_with_limit(text: &str, limit: usize) -> (out: String)
    ensures
        out@ == cased(limited_name_of(text@, limit as nat), Case::Pascal),
        unicode_words(text@).len() == 0 || limit == 0 ==> out@.len() == 0,
{
    convert(name_with_limit(text, limit).as_str(), Case::Pascal)
}

} // verus!
