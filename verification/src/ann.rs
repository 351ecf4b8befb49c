use vstd::prelude::*;

verus! {

/// A source annotation: the span of text an item was produced from, as an
/// offset into the source and a length. Offsets and lengths count
/// characters of the source text, not bytes; on ASCII sources the two
/// coincide.
#[derive(Clone, Copy, Debug, PartialEq, Eq, Structural)]
pub struct Ann {
    pub offset: usize,
    pub length: usize,
}

impl Ann {
    pub fn new(offset: usize, length: usize) -> (a: Ann)
        ensures
            a == (Ann { offset, length }),
    {
        Ann { offset, length }
    }
}

/// An item of any pipeline stage together with the span it came from.
#[derive(Clone, Debug, PartialEq)]
pub struct Spanned<T> {
    pub item: T,
    pub span: Ann,
}

impl<T> Spanned<T> {
    pub fn new(item: T, span: Ann) -> (s: Spanned<T>)
        ensures
            s.item == item,
            s.span == span,
    {
        Spanned { item, span }
    }
}

} // verus!
