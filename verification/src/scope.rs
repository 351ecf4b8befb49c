use vstd::prelude::*;
use crate::captured::Captured;
use crate::symbol::SharedSymbol;
use crate::symbol::UniqueSymbol;

verus! {

/// One local binding of a scope: the surface name it was introduced under
/// and the unique symbol the resolver assigned to it. Its position in
/// `Scope::locals` is its local slot index.
#[derive(Clone, Copy, Debug, PartialEq, Eq, Structural)]
pub struct ScopeEntry {
    pub name: SharedSymbol,
    pub symbol: UniqueSymbol,
}

/// One entry of a function literal's capture list: which binding it stands
/// for, and how the value is obtained at closure-construction time.
#[derive(Clone, Copy, Debug, PartialEq, Eq, Structural)]
pub struct CaptureEntry {
    pub symbol: UniqueSymbol,
    pub captured: Captured,
}

/// The set of local bindings introduced by one function literal (or the
/// program root), in order of introduction, together with the ordered list
/// of free variables the literal must capture.
#[derive(Clone, Debug, PartialEq)]
pub struct Scope {
    pub locals: Vec<ScopeEntry>,
    pub captures: Vec<CaptureEntry>,
}

/// The slot the name resolves to in one scope: the most recently introduced
/// local of that name, since a redefinition shadows rather than overwrites.
#[verifier::opaque]
pub open spec fn find_slot(locals: Seq<ScopeEntry>, name: SharedSymbol) -> Option<int>
    decreases locals.len(),
{
    if locals.len() == 0 {
        Option::None
    } else if locals.last().name == name {
        Option::Some(locals.len() - 1)
    } else {
        find_slot(locals.drop_last(), name)
    }
}

/// What a found (or missing) slot means about the entries themselves.
pub proof fn lemma_find_slot_props(locals: Seq<ScopeEntry>, name: SharedSymbol)
    ensures
        match find_slot(locals, name) {
            Option::Some(i) => 0 <= i < locals.len() && locals[i].name == name && forall|l: int|
                i < l < locals.len() ==> (#[trigger] locals[l]).name != name,
            Option::None => forall|l: int|
                0 <= l < locals.len() ==> (#[trigger] locals[l]).name != name,
        },
    decreases locals.len(),
{
    reveal_with_fuel(find_slot, 2);
    if locals.len() > 0 && locals.last().name != name {
        lemma_find_slot_props(locals.drop_last(), name);
        assert(forall|l: int|
            0 <= l < locals.len() - 1 ==> #[trigger] locals[l] == locals.drop_last()[l]);
    }
}

/// Where the capture list of a scope already holds an entry for a symbol.
/// A capture list never holds two entries for one symbol, so the position
/// of the match is unambiguous.
#[verifier::opaque]
pub open spec fn find_capture(captures: Seq<CaptureEntry>, sym: UniqueSymbol) -> Option<int>
    decreases captures.len(),
{
    if captures.len() == 0 {
        Option::None
    } else if captures.last().symbol == sym {
        Option::Some(captures.len() - 1)
    } else {
        find_capture(captures.drop_last(), sym)
    }
}

/// What a found (or missing) capture entry means about the entries.
pub proof fn lemma_find_capture_props(captures: Seq<CaptureEntry>, sym: UniqueSymbol)
    ensures
        match find_capture(captures, sym) {
            Option::Some(i) => 0 <= i < captures.len() && captures[i].symbol == sym && forall|
                l: int,
            | i < l < captures.len() ==> (#[trigger] captures[l]).symbol != sym,
            Option::None => forall|l: int|
                0 <= l < captures.len() ==> (#[trigger] captures[l]).symbol != sym,
        },
    decreases captures.len(),
{
    reveal_with_fuel(find_capture, 2);
    if captures.len() > 0 && captures.last().symbol != sym {
        lemma_find_capture_props(captures.drop_last(), sym);
        assert(forall|l: int|
            0 <= l < captures.len() - 1 ==> #[trigger] captures[l] == captures.drop_last()[l]);
    }
}

/// Appending entries leaves an existing match where it was, and a fresh
/// append of the searched symbol is found at its new position.
pub proof fn lemma_find_capture_push(captures: Seq<CaptureEntry>, sym: UniqueSymbol, e: CaptureEntry)
    ensures
        e.symbol == sym ==> find_capture(captures.push(e), sym) == Option::Some(
            captures.len() as int,
        ),
        e.symbol != sym ==> find_capture(captures.push(e), sym) == find_capture(captures, sym),
{
    reveal_with_fuel(find_capture, 2);
    assert(captures.push(e).last() == e);
    assert(captures.push(e).drop_last() =~= captures);
}

impl Scope {
    /// A fresh scope with no locals and no captures.
    pub fn new() -> (s: Scope)
        ensures
            s.locals@ =~= Seq::<ScopeEntry>::empty(),
            s.captures@ =~= Seq::<CaptureEntry>::empty(),
    {
        Scope { locals: Vec::new(), captures: Vec::new() }
    }

    /// The slot count frozen when the literal's body is fully resolved.
    pub fn slot_count(&self) -> (n: usize)
        ensures
            n == self.locals@.len(),
    {
        self.locals.len()
    }

    /// Look a name up among this scope's locals, innermost introduction
    /// first.
    pub fn lookup(&self, name: SharedSymbol) -> (r: Option<usize>)
        ensures
            match r {
                Option::Some(i) => find_slot(self.locals@, name) == Option::Some(i as int),
                Option::None => find_slot(self.locals@, name) is None,
            },
    {
        let mut k: usize = self.locals.len();
        proof {
            reveal_with_fuel(find_slot, 2);
            assert(self.locals@.subrange(0, k as int) =~= self.locals@);
        }
        while k > 0
            invariant
                k <= self.locals@.len(),
                find_slot(self.locals@, name) == find_slot(
                    self.locals@.subrange(0, k as int),
                    name,
                ),
            decreases k,
        {
            let ghost pre = self.locals@.subrange(0, k as int);
            if self.locals[k - 1].name == name {
                proof {
                    reveal_with_fuel(find_slot, 2);
                    assert(pre.last() == self.locals@[k - 1]);
                }
                return Option::Some(k - 1);
            }
            proof {
                reveal_with_fuel(find_slot, 2);
                assert(pre.last() == self.locals@[k - 1]);
                assert(pre.drop_last() =~= self.locals@.subrange(0, k - 1));
            }
            k = k - 1;
        }
        proof {
            reveal_with_fuel(find_slot, 1);
            assert(self.locals@.subrange(0, 0).len() == 0);
        }
        Option::None
    }

    /// Find the capture-list index already assigned to a symbol, if any.
    pub fn capture_index(&self, sym: UniqueSymbol) -> (r: Option<usize>)
        ensures
            match r {
                Option::Some(i) => find_capture(self.captures@, sym) == Option::Some(i as int),
                Option::None => find_capture(self.captures@, sym) is None,
            },
    {
        let mut k: usize = self.captures.len();
        proof {
            reveal_with_fuel(find_capture, 2);
            assert(self.captures@.subrange(0, k as int) =~= self.captures@);
        }
        while k > 0
            invariant
                k <= self.captures@.len(),
                find_capture(self.captures@, sym) == find_capture(
                    self.captures@.subrange(0, k as int),
                    sym,
                ),
            decreases k,
        {
            let ghost pre = self.captures@.subrange(0, k as int);
            if self.captures[k - 1].symbol == sym {
                proof {
                    reveal_with_fuel(find_capture, 2);
                    assert(pre.last() == self.captures@[k - 1]);
                }
                return Option::Some(k - 1);
            }
            proof {
                reveal_with_fuel(find_capture, 2);
                assert(pre.last() == self.captures@[k - 1]);
                assert(pre.drop_last() =~= self.captures@.subrange(0, k - 1));
            }
            k = k - 1;
        }
        proof {
            reveal_with_fuel(find_capture, 1);
            assert(self.captures@.subrange(0, 0).len() == 0);
        }
        Option::None
    }
}

} // verus!
