//! Human-readable formatting of words: clean names, names cut down to a
//! length, usernames, identifier cases and lists joined in words.

use vstd::prelude::*;

pub mod case;
pub mod join;
pub mod limit;
pub mod name;
pub mod segment;
pub mod unicode;

pub use case::{
    camel_case, camel_case_with_limit, kebab_case, kebab_case_with_limit, pascal_case,
    pascal_case_with_limit, screaming_kebab_case, screaming_kebab_case_with_limit,
    screaming_snake_case, screaming_snake_case_with_limit, snake_case, snake_case_with_limit,
};
pub use join::{and_join, or_join};
pub use name::{name, name_with_limit, username, username_with_limit};
use unicode::push_char;

verus! {

/// The texts that a list of strings holds.
pub open spec fn texts<T: View<V = Seq<char>>>(items: Seq<T>) -> Seq<Seq<char>> {
    Seq::new(items.len(), |i: int| items[i]@)
}

/// What `fold` makes of `acc` and `w`: `w` alone while `acc` is empty, else
/// `acc`, the separator `ch` and `w`.
pub open spec fn folded(acc: Seq<char>, w: Seq<char>, ch: char) -> Seq<char> {
    if acc.len() > 0 {
        acc.push(ch) + w
    } else {
        w
    }
}

/// The words in order, folded into one text with `ch` between them.
pub open spec fn joined(words: Seq<Seq<char>>, ch: char) -> Seq<char>
    decreases words.len(),
{
    if words.len() == 0 {
        Seq::empty()
    } else {
        folded(joined(words.drop_last(), ch), words.last(), ch)
    }
}

/// Adds the word `w` to `acc`, after the separator `ch` unless `acc` is
/// still empty.
pub fn fold(acc: String, w: &str, ch: char) -> (out: String)
    ensures
        out@ == folded(acc@, w@, ch),
{
    let mut acc = acc;
    if !acc.as_str().is_empty() {
        push_char(&mut acc, ch);
    }
    acc.append(w);
    acc
}

} // verus!
