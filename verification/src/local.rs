use vstd::prelude::*;

verus! {

/// A variable named in the source text, before resolution has replaced
/// names with unique symbols.
#[derive(Clone, Debug, PartialEq, Eq)]
pub struct Local {
    pub name: String,
}

impl View for Local {
    type V = Seq<char>;

    open spec fn view(&self) -> Seq<char> {
        self.name@
    }
}

impl Local {
    pub fn new(name: String) -> (l: Local)
        ensures
            l@ == name@,
    {
        Local { name }
    }
}

} // verus!
