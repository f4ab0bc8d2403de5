use vstd::prelude::*;

verus! {

/// The characters of each string, in order.
pub open spec fn texts(v: Seq<String>) -> Seq<Seq<char>> {
    v.map_values(|s: String| s@)
}

/// The parts one after another, with `sep` between each two neighbours.
pub open spec fn joined(parts: Seq<Seq<char>>, sep: Seq<char>) -> Seq<char>
    decreases parts.len(),
{
    if parts.len() == 0 {
        Seq::empty()
    } else if parts.len() == 1 {
        parts[0]
    } else {
        joined(parts.drop_last(), sep) + sep + parts.last()
    }
}

/// The parts with an extra element `sep` between each two neighbours.
pub open spec fn interspersed(parts: Seq<Seq<char>>, sep: Seq<char>) -> Seq<Seq<char>>
    decreases parts.len(),
{
    if parts.len() <= 1 {
        parts
    } else {
        interspersed(parts.drop_last(), sep).push(sep).push(parts.last())
    }
}

/// Relies on `itertools::join`: it writes the first item, then for each
/// further item the separator followed by that item; a `String` displays as
/// its own characters.
#[verifier::external_body]
pub(crate) fn join_texts(parts: &Vec<String>, sep: &str) -> (r: String)
    ensures
        r@ == joined(texts(parts@), sep@),
{
    itertools::join(parts, sep)
}

/// Relies on `itertools::intersperse`: it yields the items in order with a
/// clone of `sep` between each two of them.
#[verifier::external_body]
pub(crate) fn intersperse_texts(parts: Vec<String>, sep: String) -> (r: Vec<String>)
    ensures
        texts(r@) == interspersed(texts(parts@), sep@),
{
    itertools::intersperse(parts, sep).collect()
}

} // verus!
