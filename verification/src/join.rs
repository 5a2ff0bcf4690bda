//! Lists of texts joined in words: "a, b or c".

use crate::texts;
use vstd::prelude::*;

verus! {

/// The items in order with `sep` between each two neighbours.
pub open spec fn series(items: Seq<Seq<char>>, sep: Seq<char>) -> Seq<char>
    decreases items.len(),
{
    if items.len() == 0 {
        Seq::empty()
    } else if items.len() == 1 {
        items[0]
    } else {
        series(items.drop_last(), sep) + sep + items.last()
    }
}

/// The items as one sentence: all but the last in a series with `mid`
/// between them, then `end` and the last item. No item gives the empty text,
/// one item gives itself.
pub open spec fn listed(items: Seq<Seq<char>>, mid: Seq<char>, end: Seq<char>) -> Seq<char> {
    if items.len() == 0 {
        Seq::empty()
    } else if items.len() == 1 {
        items[0]
    } else {
        series(items.drop_last(), mid) + end + items.last()
    }
}

/// Joins the items with `mid_sep` between them, and `end_sep` before the
/// last one.
pub fn join(items: &[&str], mid_sep: &str, end_sep: &str) -> (out: String)
    ensures
        out@ == listed(texts(items@), mid_sep@, end_sep@),
{
    let n = items.len();
    if n == 0 {
        return String::new();
    }
    let ghost all = texts(items@);
    let mut out = String::new();
    out.append(items[0]);
    if n == 1 {
        return out;
    }
    let mut i: usize = 1;
    while i < n - 1
        invariant
            n == items.len(),
            all == texts(items@),
            1 <= i <= n - 1,
            out@ == series(all.take(i as int), mid_sep@),
        decreases n - i,
    {
        out.append(mid_sep);
        out.append(items[i]);
        proof {
            assert(all.take(i + 1).drop_last() =~= all.take(i as int));
        }
        i = i + 1;
    }
    out.append(end_sep);
    out.append(items[n - 1]);
    out
}

/// Join the list with an 'or' before the last element of the list.
pub fn or_join(items: &[&str]) -> (out: String)
    ensures
        out@ == listed(texts(items@), ", "@, " or "@),
{
    join(items, ", ", " or ")
}

/// Join the list with an 'and' before the last element of the list.
pub fn and_join(items: &[&str]) -> (out: String)
    ensures
        out@ == listed(texts(items@), ", "@, " and "@),
{
    join(items, ", ", " and ")
}

/// How short lists read. No item gives the empty text and one item gives
/// itself. Two items stand on either side of `end`. Of three, the first two
/// are parted by `mid` and the last two by `end`: nothing but `end` stands
/// before the last item.
pub proof fn lemma_listed_few(
    a: Seq<char>,
    b: Seq<char>,
    c: Seq<char>,
    mid: Seq<char>,
    end: Seq<char>,
)
    ensures
        listed(Seq::empty(), mid, end) == Seq::<char>::empty(),
        listed(seq![a], mid, end) == a,
        listed(seq![a, b], mid, end) == a + end + b,
        listed(seq![a, b, c], mid, end) == a + mid + b + end + c,
{
    reveal_with_fuel(series, 2);
}

} // verus!
