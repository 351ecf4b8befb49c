use vstd::prelude::*;

verus! {

/// Describes one free-variable dependency of a function literal.
///
/// `is_local == true` means `index` is a slot in the immediately enclosing
/// activation's frame; `is_local == false` means `index` points into the
/// enclosing closure's own capture list, so the value is merely forwarded.
#[derive(Clone, Copy, Debug, PartialEq, Eq, Structural)]
pub struct Captured {
    pub index: usize,
    pub is_local: bool,
}

impl Captured {
    /// A capture read directly out of the defining activation's frame.
    pub fn local(index: usize) -> (c: Captured)
        ensures
            c == (Captured { index, is_local: true }),
    {
        Captured { index, is_local: true }
    }

    /// A capture forwarded from the enclosing closure's capture list.
    pub fn nonlocal(index: usize) -> (c: Captured)
        ensures
            c == (Captured { index, is_local: false }),
    {
        Captured { index, is_local: false }
    }
}

} // verus!
