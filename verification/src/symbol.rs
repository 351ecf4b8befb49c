use vstd::prelude::*;

verus! {

/// An interned surface name: all occurrences of one spelling share one
/// `SharedSymbol`, whatever binding each occurrence denotes.
#[derive(Clone, Copy, Debug, PartialEq, Eq, Structural)]
pub struct SharedSymbol(pub usize);

/// A resolver-assigned identity: assigned once per distinct binding
/// occurrence, so two references denote the same binding exactly when they
/// carry the same `UniqueSymbol`. Shadowing a name yields a fresh one.
#[derive(Clone, Copy, Debug, PartialEq, Eq, Structural)]
pub struct UniqueSymbol(pub usize);

} // verus!
