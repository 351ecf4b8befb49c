use vstd::prelude::*;
use crate::ann::Ann;
use crate::captured::Captured;
use crate::scope::CaptureEntry;
use crate::scope::Scope;
use crate::scope::ScopeEntry;
use crate::scope::find_capture;
use crate::scope::find_slot;
use crate::scope::lemma_find_capture_props;
use crate::scope::lemma_find_capture_push;
use crate::scope::lemma_find_slot_props;
use crate::symbol::SharedSymbol;
use crate::symbol::UniqueSymbol;

verus! {

/// A user-facing resolution failure, carrying the span of the offending
/// reference so diagnostics can point at the source.
#[derive(Clone, Copy, Debug, PartialEq, Eq, Structural)]
pub enum ResolveError {
    /// A reference resolves to no enclosing scope.
    UnboundSymbol { name: SharedSymbol, span: Ann },
    /// One destructuring pattern introduces the same name twice;
    /// the span is that of the second occurrence.
    DuplicateBindingInPattern { name: SharedSymbol, span: Ann },
}

/// How a resolved reference is addressed at runtime: a slot of the current
/// frame, a slot of the permanent base-0 root frame, or an index into the
/// current closure's capture vector.
#[derive(Clone, Copy, Debug, PartialEq, Eq, Structural)]
pub enum ResolvedRef {
    Local(UniqueSymbol),
    Global(UniqueSymbol),
    Captured(UniqueSymbol, usize),
}

/// All symbols a scope mentions were assigned before `n`.
pub open spec fn syms_below(sc: Scope, n: nat) -> bool {
    &&& forall|i: int| 0 <= i < sc.locals@.len() ==> (#[trigger] sc.locals@[i]).symbol.0 < n
    &&& forall|i: int| 0 <= i < sc.captures@.len() ==> (#[trigger] sc.captures@[i]).symbol.0 < n
}

/// No unique symbol names two binding occurrences: each is a local of at
/// most one slot of one scope.
pub open spec fn locals_distinct(scopes: Seq<Scope>) -> bool {
    forall|k1: int, i1: int, k2: int, i2: int|
        0 <= k1 < scopes.len() && 0 <= i1 < scopes[k1].locals@.len() && 0 <= k2 < scopes.len() && 0
            <= i2 < scopes[k2].locals@.len() && (k1 != k2 || i1 != i2)
            ==> #[trigger] scopes[k1].locals@[i1].symbol != #[trigger] scopes[k2].locals@[i2].symbol
}

/// Referencing one outer variable twice yields one capture entry: capture
/// lists are deduplicated per symbol.
pub open spec fn captures_distinct(scopes: Seq<Scope>) -> bool {
    forall|k: int, a: int, b: int|
        0 <= k < scopes.len() && 0 <= a < scopes[k].captures@.len() && 0 <= b
            < scopes[k].captures@.len() && a != b
            ==> #[trigger] scopes[k].captures@[a].symbol != #[trigger] scopes[k].captures@[b].symbol
}

/// One capture entry is consistent with the scope one level out: a local
/// capture points at the parent's slot for the same symbol, a forwarded
/// capture points at the parent's own capture entry for the same symbol.
pub open spec fn chain_entry_ok(scopes: Seq<Scope>, k: int, c: int) -> bool {
    let e = scopes[k].captures@[c];
    if e.captured.is_local {
        &&& e.captured.index < scopes[k - 1].locals@.len()
        &&& scopes[k - 1].locals@[e.captured.index as int].symbol == e.symbol
    } else {
        &&& e.captured.index < scopes[k - 1].captures@.len()
        &&& scopes[k - 1].captures@[e.captured.index as int].symbol == e.symbol
    }
}

/// Every capture entry of every scope is consistent with its parent.
pub open spec fn chain_wf(scopes: Seq<Scope>) -> bool {
    forall|k: int, c: int|
        1 <= k < scopes.len() && 0 <= c < scopes[k].captures@.len() ==> #[trigger] chain_entry_ok(
            scopes,
            k,
            c,
        )
}

/// A capture entry is always grounded: following the chain of forwarding
/// entries outward ends at a scope that holds the symbol as a local.
pub proof fn lemma_capture_grounded(scopes: Seq<Scope>, k: int, u: UniqueSymbol)
    requires
        chain_wf(scopes),
        scopes[0].captures@.len() == 0,
        1 <= k < scopes.len(),
        find_capture(scopes[k].captures@, u) is Some,
    ensures
        exists|m: int, s: int|
            0 <= m < k && 0 <= s < scopes[m].locals@.len() && (#[trigger] scopes[m].locals@[s]).symbol
                == u,
    decreases k,
{
    lemma_find_capture_props(scopes[k].captures@, u);
    let c = find_capture(scopes[k].captures@, u)->Some_0;
    assert(chain_entry_ok(scopes, k, c));
    let e = scopes[k].captures@[c];
    if e.captured.is_local {
        assert(scopes[k - 1].locals@[e.captured.index as int].symbol == u);
    } else {
        assert(scopes[k - 1].captures@[e.captured.index as int].symbol == u);
        assert(k - 1 >= 1);
        lemma_find_capture_props(scopes[k - 1].captures@, u);
        assert(find_capture(scopes[k - 1].captures@, u) is Some);
        lemma_capture_grounded(scopes, k - 1, u);
    }
}

/// Scope `k` holds a capture entry for `u` whose descriptor is `cap`.
pub open spec fn chain_entry_content(cur: Seq<Scope>, u: UniqueSymbol, k: int, cap: Captured) -> bool {
    &&& find_capture(cur[k].captures@, u) is Some
    &&& cur[k].captures@[find_capture(cur[k].captures@, u)->Some_0].captured == cap
}

/// Scope `k` forwards its parent literal's capture entry for `u` by its
/// capture-list index, rather than reading any frame.
pub open spec fn forwards_ok(cur: Seq<Scope>, u: UniqueSymbol, k: int) -> bool {
    &&& find_capture(cur[k - 1].captures@, u) is Some
    &&& chain_entry_content(
        cur,
        u,
        k,
        Captured { index: (find_capture(cur[k - 1].captures@, u)->Some_0) as usize, is_local: false },
    )
}

/// Scope `k` either already captured `u` and is untouched, or gained
/// exactly one entry for `u`, appended at the end of its capture list.
pub open spec fn grown_ok(pre: Seq<Scope>, cur: Seq<Scope>, u: UniqueSymbol, k: int) -> bool {
    if find_capture(pre[k].captures@, u) is Some {
        cur[k] == pre[k]
    } else {
        cur[k].captures@ == pre[k].captures@.push(
            CaptureEntry { symbol: u, captured: cur[k].captures@.last().captured },
        ) && find_capture(cur[k].captures@, u) == Option::Some(pre[k].captures@.len() as int)
    }
}

/// How resolving one reference at capture depth `d == top - j` reshapes the
/// scope stack: the name is bound in scope `j` (a function literal's scope,
/// not the root) by the symbol `u`, no scope strictly inside `j` binds it,
/// and afterwards each of the `d` literals strictly inside scope `j` holds
/// exactly one capture entry for the binding — the entry it already had, or
/// one newly appended (`grown_ok`). The literal directly inside the
/// defining scope reads the defining frame itself (`is_local == true`, at
/// the defining slot); every further literal forwards its parent literal's
/// entry by capture-list index (`forwards_ok`), and `idx` is the entry's
/// index in the innermost scope. Scopes at or outside `j`, and all locals
/// everywhere, stay untouched.
#[verifier::opaque]
pub open spec fn captures_threaded(
    pre: Seq<Scope>,
    post: Seq<Scope>,
    name: SharedSymbol,
    u: UniqueSymbol,
    j: int,
    top: int,
    idx: int,
) -> bool {
    &&& 1 <= j < top
    &&& top == pre.len() - 1
    &&& post.len() == pre.len()
    &&& find_slot(pre[j].locals@, name) is Some
    &&& pre[j].locals@[find_slot(pre[j].locals@, name)->Some_0].symbol == u
    &&& forall|k: int| j < k <= top ==> find_slot((#[trigger] pre[k]).locals@, name) is None
    &&& forall|k: int| 0 <= k <= j ==> post[k] == pre[k]
    &&& forall|k: int| 0 <= k <= top ==> (#[trigger] post[k]).locals@ == pre[k].locals@
    &&& forall|k: int| j < k <= top ==> #[trigger] grown_ok(pre, post, u, k)
    &&& chain_entry_content(
        post,
        u,
        j + 1,
        Captured {
            index: (find_slot(pre[j].locals@, name)->Some_0) as usize,
            is_local: true,
        },
    )
    &&& forall|k: int| j + 1 < k <= top ==> #[trigger] forwards_ok(post, u, k)
    &&& find_capture(post[top].captures@, u) == Option::Some(idx)
}

/// The state of a threading walk that has dealt with the scopes strictly
/// between `j` (exclusive) and `i` (exclusive): those hold their chain
/// entry for `u`, the rest of the stack still stands as `pre` had it.
#[verifier::opaque]
pub open spec fn links_partial(
    pre: Seq<Scope>,
    cur: Seq<Scope>,
    name: SharedSymbol,
    u: UniqueSymbol,
    j: int,
    slot: int,
    i: int,
) -> bool {
    &&& cur.len() == pre.len()
    &&& 1 <= j
    &&& j + 1 < pre.len()
    &&& j + 1 <= i <= pre.len()
    &&& find_slot(pre[j].locals@, name) == Option::Some(slot)
    &&& 0 <= slot < pre[j].locals@.len()
    &&& pre[j].locals@[slot].symbol == u
    &&& forall|k: int| j < k < pre.len() ==> find_slot((#[trigger] pre[k]).locals@, name) is None
    &&& forall|k: int| 0 <= k <= j ==> cur[k] == pre[k]
    &&& forall|k: int| i <= k < pre.len() ==> cur[k] == pre[k]
    &&& forall|k: int| 0 <= k < pre.len() ==> (#[trigger] cur[k]).locals@ == pre[k].locals@
    &&& forall|k: int| j < k < i ==> #[trigger] grown_ok(pre, cur, u, k)
    &&& (i > j + 1 ==> chain_entry_content(
        cur,
        u,
        j + 1,
        Captured { index: slot as usize, is_local: true },
    ))
    &&& forall|k: int| j + 1 < k < i ==> #[trigger] forwards_ok(cur, u, k)
}

/// A walk that is about to visit the first scope inside the defining one
/// has dealt with nothing yet.
proof fn lemma_links_start(
    pre: Seq<Scope>,
    name: SharedSymbol,
    u: UniqueSymbol,
    j: int,
    slot: int,
)
    requires
        1 <= j,
        j + 1 < pre.len(),
        find_slot(pre[j].locals@, name) == Option::Some(slot),
        0 <= slot < pre[j].locals@.len(),
        pre[j].locals@[slot].symbol == u,
        forall|k: int| j < k < pre.len() ==> find_slot((#[trigger] pre[k]).locals@, name) is None,
    ensures
        links_partial(pre, pre, name, u, j, slot, j + 1),
{
    reveal(links_partial);
}

/// Visiting scope `i` — reusing its entry for `u` or appending the right
/// one, as `thread_capture` promises — extends the walk by one scope.
#[verifier::rlimit(100)]
#[verifier::spinoff_prover]
proof fn lemma_links_step(
    pre: Seq<Scope>,
    mid: Seq<Scope>,
    post: Seq<Scope>,
    name: SharedSymbol,
    u: UniqueSymbol,
    j: int,
    slot: int,
    i: int,
    prev: int,
    ci: int,
)
    requires
        links_partial(pre, mid, name, u, j, slot, i),
        i < pre.len(),
        i == j + 1 ==> prev == slot,
        i > j + 1 ==> find_capture(mid[i - 1].captures@, u) == Option::Some(prev),
        post.len() == mid.len(),
        forall|k: int| 0 <= k < mid.len() && k != i ==> post[k] == mid[k],
        post[i].locals@ == mid[i].locals@,
        (match find_capture(mid[i].captures@, u) {
            Option::Some(c0) => post[i] == mid[i] && ci == c0,
            Option::None => post[i].captures@ == mid[i].captures@.push(
                CaptureEntry { symbol: u, captured: post[i].captures@.last().captured },
            ) && ci == mid[i].captures@.len(),
        }),
        find_capture(post[i].captures@, u) == Option::Some(ci),
        post[i].captures@[ci].captured == (if i == j + 1 {
            Captured { index: slot as usize, is_local: true }
        } else {
            Captured { index: prev as usize, is_local: false }
        }),
    ensures
        links_partial(pre, post, name, u, j, slot, i + 1),
{
    reveal(links_partial);
    assert(mid[i] == pre[i]);
    assert forall|k: int| 0 <= k < pre.len() implies (#[trigger] post[k]).locals@
        == pre[k].locals@ by {
        if k != i {
            assert(post[k] == mid[k]);
        }
    }
    assert(grown_ok(pre, post, u, i));
    assert forall|k: int| j < k < i + 1 implies #[trigger] grown_ok(pre, post, u, k) by {
        if k != i {
            assert(grown_ok(pre, mid, u, k));
            assert(post[k] == mid[k]);
        }
    }
    if i == j + 1 {
        assert(chain_entry_content(post, u, j + 1, Captured { index: slot as usize, is_local: true }));
    } else {
        assert(post[j + 1] == mid[j + 1]);
    }
    assert forall|k: int| j + 1 < k < i + 1 implies #[trigger] forwards_ok(post, u, k) by {
        if k < i {
            assert(forwards_ok(mid, u, k));
            assert(post[k] == mid[k]);
            assert(post[k - 1] == mid[k - 1]);
        } else {
            assert(k == i && i > j + 1);
            assert(post[k - 1] == mid[k - 1]);
            assert(find_capture(post[k - 1].captures@, u) == Option::Some(prev));
            assert(chain_entry_content(post, u, k, Captured { index: prev as usize, is_local: false }));
        }
    }
}

/// A walk that has visited every scope inside the defining one has
/// threaded the whole chain.
#[verifier::rlimit(100)]
#[verifier::spinoff_prover]
proof fn lemma_links_done(
    pre: Seq<Scope>,
    cur: Seq<Scope>,
    name: SharedSymbol,
    u: UniqueSymbol,
    j: int,
    slot: int,
    idx: int,
)
    requires
        links_partial(pre, cur, name, u, j, slot, pre.len() as int),
        find_capture(cur[pre.len() - 1].captures@, u) == Option::Some(idx),
    ensures
        cur.len() == pre.len(),
        forall|k: int| 0 <= k < pre.len() ==> (#[trigger] cur[k]).locals@ == pre[k].locals@,
        captures_threaded(pre, cur, name, u, j, pre.len() - 1, idx),
{
    reveal(links_partial);
    reveal(captures_threaded);
}

/// What a `Captured` resolution promises: the reference resolves to the
/// entry for `u` at index `idx` of the innermost scope's capture list, and
/// some defining scope `j` exists through which the whole chain is
/// threaded as `captures_threaded` states.
pub open spec fn resolved_captured(
    pre: Seq<Scope>,
    post: Seq<Scope>,
    name: SharedSymbol,
    u: UniqueSymbol,
    idx: int,
) -> bool {
    &&& find_capture(post[pre.len() - 1].captures@, u) == Option::Some(idx)
    &&& exists|j: int|
        #[trigger] captures_threaded(pre, post, name, u, j, pre.len() - 1, idx)
}

/// The resolver: a stack of active scopes (outermost first, the program
/// root at the bottom) and the counter the next unique symbol comes from.
#[derive(Debug)]
pub struct Resolver {
    pub scopes: Vec<Scope>,
    pub next_symbol: usize,
}

impl Resolver {
    /// The resolver's invariant: the root scope is always present and
    /// captures nothing, all recorded symbols come from the counter,
    /// locals are globally distinct, capture lists are deduplicated, and
    /// every capture chain link is consistent with its parent scope.
    #[verifier::opaque]
    pub open spec fn wf(self) -> bool {
        &&& self.scopes@.len() >= 1
        &&& self.scopes@[0].captures@.len() == 0
        &&& forall|k: int|
            0 <= k < self.scopes@.len() ==> syms_below(
                #[trigger] self.scopes@[k],
                self.next_symbol as nat,
            )
        &&& locals_distinct(self.scopes@)
        &&& captures_distinct(self.scopes@)
        &&& chain_wf(self.scopes@)
    }

    /// A fresh resolver: the root scope alone, no symbols assigned yet.
    pub fn new() -> (r: Resolver)
        ensures
            r.wf(),
            r.scopes@.len() == 1,
            r.scopes@[0].locals@.len() == 0,
            r.scopes@[0].captures@.len() == 0,
            r.next_symbol == 0,
    {
        proof {
            reveal(Resolver::wf);
        }
        let mut scopes: Vec<Scope> = Vec::new();
        scopes.push(Scope::new());
        Resolver { scopes, next_symbol: 0 }
    }

    /// Entering a function literal's body: push a fresh scope whose parent
    /// is the current innermost scope.
    pub fn enter_scope(&mut self)
        requires
            old(self).wf(),
        ensures
            final(self).wf(),
            final(self).next_symbol == old(self).next_symbol,
            final(self).scopes@.len() == old(self).scopes@.len() + 1,
            forall|k: int|
                0 <= k < old(self).scopes@.len() ==> final(self).scopes@[k] == old(self).scopes@[k],
            final(self).scopes@.last().locals@.len() == 0,
            final(self).scopes@.last().captures@.len() == 0,
    {
        let ghost pre = self.scopes@;
        self.scopes.push(Scope::new());
        proof {
            reveal(Resolver::wf);
            let post = self.scopes@;
            assert(forall|k: int| 0 <= k < pre.len() ==> post[k] == pre[k]);
            assert forall|k: int| 0 <= k < post.len() implies syms_below(
                #[trigger] post[k],
                self.next_symbol as nat,
            ) by {
                if k < pre.len() {
                    assert(syms_below(pre[k], self.next_symbol as nat));
                } else {
                    assert(post[k].locals@.len() == 0);
                    assert(post[k].captures@.len() == 0);
                }
            }
            assert forall|k1: int, i1: int, k2: int, i2: int|
                0 <= k1 < post.len() && 0 <= i1 < post[k1].locals@.len() && 0 <= k2 < post.len()
                    && 0 <= i2 < post[k2].locals@.len() && (k1 != k2 || i1 != i2) implies #[trigger] post[k1].locals@[i1].symbol
                != #[trigger] post[k2].locals@[i2].symbol by {
                assert(k1 < pre.len() && k2 < pre.len());
                assert(pre[k1].locals@[i1].symbol != pre[k2].locals@[i2].symbol);
            }
            assert forall|k: int, a: int, b: int|
                0 <= k < post.len() && 0 <= a < post[k].captures@.len() && 0 <= b
                    < post[k].captures@.len() && a != b implies #[trigger] post[k].captures@[a].symbol
                != #[trigger] post[k].captures@[b].symbol by {
                assert(k < pre.len());
                assert(pre[k].captures@[a].symbol != pre[k].captures@[b].symbol);
            }
            assert forall|k: int, c: int|
                1 <= k < post.len() && 0 <= c < post[k].captures@.len() implies #[trigger] chain_entry_ok(
                post,
                k,
                c,
            ) by {
                assert(k < pre.len());
                assert(chain_entry_ok(pre, k, c));
                assert(post[k - 1] == pre[k - 1]);
            }
        }
    }

    /// Leaving a function literal's body: pop and return its finalized
    /// scope — the slot count and capture list the resolved node retains.
    /// The root scope is never popped.
    pub fn exit_scope(&mut self) -> (s: Scope)
        requires
            old(self).wf(),
            old(self).scopes@.len() >= 2,
        ensures
            final(self).wf(),
            final(self).next_symbol == old(self).next_symbol,
            final(self).scopes@ =~= old(self).scopes@.drop_last(),
            s == old(self).scopes@.last(),
    {
        proof {
            reveal(Resolver::wf);
        }
        let ghost pre = self.scopes@;
        let s = match self.scopes.pop() {
            Some(s) => s,
            None => vstd::pervasive::unreached(),
        };
        proof {
            let post = self.scopes@;
            assert(post =~= pre.drop_last());
            assert(forall|k: int| 0 <= k < post.len() ==> post[k] == pre[k]);
            assert forall|k: int| 0 <= k < post.len() implies syms_below(
                #[trigger] post[k],
                self.next_symbol as nat,
            ) by {
                assert(syms_below(pre[k], self.next_symbol as nat));
            }
            assert forall|k1: int, i1: int, k2: int, i2: int|
                0 <= k1 < post.len() && 0 <= i1 < post[k1].locals@.len() && 0 <= k2 < post.len()
                    && 0 <= i2 < post[k2].locals@.len() && (k1 != k2 || i1 != i2) implies #[trigger] post[k1].locals@[i1].symbol
                != #[trigger] post[k2].locals@[i2].symbol by {
                assert(pre[k1].locals@[i1].symbol != pre[k2].locals@[i2].symbol);
            }
            assert forall|k: int, a: int, b: int|
                0 <= k < post.len() && 0 <= a < post[k].captures@.len() && 0 <= b
                    < post[k].captures@.len() && a != b implies #[trigger] post[k].captures@[a].symbol
                != #[trigger] post[k].captures@[b].symbol by {
                assert(pre[k].captures@[a].symbol != pre[k].captures@[b].symbol);
            }
            assert forall|k: int, c: int|
                1 <= k < post.len() && 0 <= c < post[k].captures@.len() implies #[trigger] chain_entry_ok(
                post,
                k,
                c,
            ) by {
                assert(chain_entry_ok(pre, k, c));
                assert(post[k - 1] == pre[k - 1]);
            }
        }
        s
    }

    /// What one `declare` promises of the states around it: the symbol
    /// handed out is exactly the counter's value, which then advances.
    pub open spec fn declare_step(pre: Resolver, post: Resolver, u: UniqueSymbol) -> bool {
        &&& u.0 == pre.next_symbol
        &&& post.next_symbol == pre.next_symbol + 1
    }

    /// Introduce a binding in the innermost scope: allocate the next local
    /// slot and assign a fresh unique symbol. Redefining an existing name
    /// makes a new slot and a new symbol — shadowing, never overwriting —
    /// so the returned symbol differs from every symbol recorded so far.
    pub fn declare(&mut self, name: SharedSymbol) -> (u: UniqueSymbol)
        requires
            old(self).wf(),
            old(self).next_symbol < usize::MAX,
        ensures
            final(self).wf(),
            Self::declare_step(*old(self), *final(self), u),
            final(self).scopes@.len() == old(self).scopes@.len(),
            forall|k: int|
                0 <= k < old(self).scopes@.len() - 1 ==> final(self).scopes@[k] == old(
                    self,
                ).scopes@[k],
            final(self).scopes@.last().locals@ =~= old(self).scopes@.last().locals@.push(
                ScopeEntry { name, symbol: u },
            ),
            final(self).scopes@.last().captures@ == old(self).scopes@.last().captures@,
            forall|k: int, i: int|
                0 <= k < old(self).scopes@.len() && 0 <= i < old(self).scopes@[k].locals@.len()
                    ==> (#[trigger] old(self).scopes@[k].locals@[i]).symbol != u,
    {
        proof {
            reveal(Resolver::wf);
        }
        let ghost pre = self.scopes@;
        let u = UniqueSymbol(self.next_symbol);
        self.next_symbol = self.next_symbol + 1;
        let k = self.scopes.len() - 1;
        let entry = ScopeEntry { name, symbol: u };
        self.scopes[k].locals.push(entry);
        proof {
            let post = self.scopes@;
            let ki = k as int;
            assert(post[ki].locals@ =~= pre[ki].locals@.push(entry));
            assert(forall|k2: int| 0 <= k2 < pre.len() && k2 != ki ==> post[k2] == pre[k2]);
            assert forall|k2: int| 0 <= k2 < post.len() implies syms_below(
                #[trigger] post[k2],
                self.next_symbol as nat,
            ) by {
                assert(syms_below(pre[k2], old(self).next_symbol as nat));
                if k2 == ki {
                    assert(forall|i: int|
                        0 <= i < pre[ki].locals@.len() ==> post[ki].locals@[i] == pre[ki].locals@[i]);
                }
            }
            assert forall|k1: int, i1: int, k2: int, i2: int|
                0 <= k1 < post.len() && 0 <= i1 < post[k1].locals@.len() && 0 <= k2 < post.len()
                    && 0 <= i2 < post[k2].locals@.len() && (k1 != k2 || i1 != i2) implies #[trigger] post[k1].locals@[i1].symbol
                != #[trigger] post[k2].locals@[i2].symbol by {
                assert(syms_below(pre[k1], old(self).next_symbol as nat));
                assert(syms_below(pre[k2], old(self).next_symbol as nat));
                if k1 == ki && i1 == pre[ki].locals@.len() {
                    if !(k2 == ki && i2 == pre[ki].locals@.len()) {
                        assert(post[k2].locals@[i2] == pre[k2].locals@[i2]);
                        assert(pre[k2].locals@[i2].symbol.0 < u.0);
                    }
                } else if k2 == ki && i2 == pre[ki].locals@.len() {
                    assert(post[k1].locals@[i1] == pre[k1].locals@[i1]);
                    assert(pre[k1].locals@[i1].symbol.0 < u.0);
                } else {
                    assert(post[k1].locals@[i1] == pre[k1].locals@[i1]);
                    assert(post[k2].locals@[i2] == pre[k2].locals@[i2]);
                    assert(pre[k1].locals@[i1].symbol != pre[k2].locals@[i2].symbol);
                }
            }
            assert forall|k2: int, a: int, b: int|
                0 <= k2 < post.len() && 0 <= a < post[k2].captures@.len() && 0 <= b
                    < post[k2].captures@.len() && a != b implies #[trigger] post[k2].captures@[a].symbol
                != #[trigger] post[k2].captures@[b].symbol by {
                assert(post[k2].captures@ == pre[k2].captures@);
                assert(pre[k2].captures@[a].symbol != pre[k2].captures@[b].symbol);
            }
            assert forall|k2: int, c: int|
                1 <= k2 < post.len() && 0 <= c < post[k2].captures@.len() implies #[trigger] chain_entry_ok(
                post,
                k2,
                c,
            ) by {
                assert(chain_entry_ok(pre, k2, c));
                assert(post[k2].captures@ == pre[k2].captures@);
                if k2 - 1 == ki {
                    assert(forall|i: int|
                        0 <= i < pre[ki].locals@.len() ==> post[ki].locals@[i] == pre[ki].locals@[i]);
                } else {
                    assert(post[k2 - 1] == pre[k2 - 1]);
                }
            }
            assert forall|k2: int, i: int|
                0 <= k2 < pre.len() && 0 <= i < pre[k2].locals@.len() implies (#[trigger] pre[k2].locals@[i]).symbol
                != u by {
                assert(syms_below(pre[k2], old(self).next_symbol as nat));
            }
        }
        u
    }

    /// Two distinct binding occurrences receive distinct unique symbols:
    /// the first `declare` hands out its counter value and advances the
    /// counter, every resolver operation's contract keeps the counter
    /// nondecreasing from there, and the second `declare` hands out a
    /// counter value at least one greater.
    pub proof fn lemma_unique_symbols(
        pre1: Resolver,
        post1: Resolver,
        u1: UniqueSymbol,
        pre2: Resolver,
        post2: Resolver,
        u2: UniqueSymbol,
    )
        requires
            Self::declare_step(pre1, post1, u1),
            Self::declare_step(pre2, post2, u2),
            post1.next_symbol <= pre2.next_symbol,
        ensures
            u1 != u2,
    {
    }

    /// Record one new capture entry in scope `i`, at the end of its capture
    /// list, handing back its capture-list index. The entry must be
    /// consistent with the parent scope, and the scope must not capture the
    /// symbol already.
    fn push_capture(&mut self, i: usize, u: UniqueSymbol, cap: Captured) -> (ci: usize)
        requires
            old(self).wf(),
            1 <= i < old(self).scopes@.len(),
            find_capture(old(self).scopes@[i as int].captures@, u) is None,
            u.0 < old(self).next_symbol,
            cap.is_local ==> cap.index < old(self).scopes@[i - 1].locals@.len() && old(
                self,
            ).scopes@[i - 1].locals@[cap.index as int].symbol == u,
            !cap.is_local ==> cap.index < old(self).scopes@[i - 1].captures@.len() && old(
                self,
            ).scopes@[i - 1].captures@[cap.index as int].symbol == u,
        ensures
            final(self).wf(),
            final(self).next_symbol == old(self).next_symbol,
            final(self).scopes@.len() == old(self).scopes@.len(),
            forall|k: int|
                0 <= k < old(self).scopes@.len() && k != i ==> final(self).scopes@[k] == old(
                    self,
                ).scopes@[k],
            final(self).scopes@[i as int].locals@ == old(self).scopes@[i as int].locals@,
            final(self).scopes@[i as int].captures@ =~= old(self).scopes@[i as int].captures@.push(
                CaptureEntry { symbol: u, captured: cap },
            ),
            ci == old(self).scopes@[i as int].captures@.len(),
            find_capture(final(self).scopes@[i as int].captures@, u) == Option::Some(ci as int),
    {
        proof {
            reveal(Resolver::wf);
        }
        let ghost pre = self.scopes@;
        let ci = self.scopes[i].captures.len();
        let entry = CaptureEntry { symbol: u, captured: cap };
        self.scopes[i].captures.push(entry);
        proof {
            let post = self.scopes@;
            let ii = i as int;
            assert(post[ii].captures@ =~= pre[ii].captures@.push(entry));
            assert(forall|k: int| 0 <= k < pre.len() && k != ii ==> post[k] == pre[k]);
            lemma_find_capture_push(pre[ii].captures@, u, entry);
            lemma_find_capture_props(pre[ii].captures@, u);
            assert forall|k: int| 0 <= k < post.len() implies syms_below(
                #[trigger] post[k],
                self.next_symbol as nat,
            ) by {
                assert(syms_below(pre[k], self.next_symbol as nat));
                if k == ii {
                    assert(forall|c: int|
                        0 <= c < pre[ii].captures@.len() ==> post[ii].captures@[c]
                            == pre[ii].captures@[c]);
                    assert(post[ii].captures@[pre[ii].captures@.len() as int] == entry);
                }
            }
            assert forall|k1: int, i1: int, k2: int, i2: int|
                0 <= k1 < post.len() && 0 <= i1 < post[k1].locals@.len() && 0 <= k2 < post.len()
                    && 0 <= i2 < post[k2].locals@.len() && (k1 != k2 || i1 != i2) implies #[trigger] post[k1].locals@[i1].symbol
                != #[trigger] post[k2].locals@[i2].symbol by {
                assert(post[k1].locals@ == pre[k1].locals@);
                assert(post[k2].locals@ == pre[k2].locals@);
                assert(pre[k1].locals@[i1].symbol != pre[k2].locals@[i2].symbol);
            }
            assert forall|k: int, a: int, b: int|
                0 <= k < post.len() && 0 <= a < post[k].captures@.len() && 0 <= b
                    < post[k].captures@.len() && a != b implies #[trigger] post[k].captures@[a].symbol
                != #[trigger] post[k].captures@[b].symbol by {
                if k == ii {
                    let n = pre[ii].captures@.len() as int;
                    if a < n && b < n {
                        assert(post[k].captures@[a] == pre[k].captures@[a]);
                        assert(post[k].captures@[b] == pre[k].captures@[b]);
                        assert(pre[k].captures@[a].symbol != pre[k].captures@[b].symbol);
                    } else if a == n {
                        assert(post[k].captures@[b] == pre[k].captures@[b]);
                        assert(pre[k].captures@[b].symbol != u);
                    } else {
                        assert(post[k].captures@[a] == pre[k].captures@[a]);
                        assert(pre[k].captures@[a].symbol != u);
                    }
                } else {
                    assert(post[k].captures@[a] == pre[k].captures@[a]);
                    assert(post[k].captures@[b] == pre[k].captures@[b]);
                    assert(pre[k].captures@[a].symbol != pre[k].captures@[b].symbol);
                }
            }
            assert forall|k: int, c: int|
                1 <= k < post.len() && 0 <= c < post[k].captures@.len() implies #[trigger] chain_entry_ok(
                post,
                k,
                c,
            ) by {
                let n = pre[ii].captures@.len() as int;
                if k == ii && c == n {
                    assert(post[k].captures@[c] == entry);
                    assert(post[k - 1] == pre[k - 1]);
                    assert(chain_entry_ok(post, k, c));
                } else {
                    if k == ii {
                        assert(post[k].captures@[c] == pre[k].captures@[c]);
                    } else {
                        assert(post[k].captures@ == pre[k].captures@);
                    }
                    assert(chain_entry_ok(pre, k, c));
                    let e = pre[k].captures@[c];
                    if k - 1 == ii {
                        assert(post[k - 1].locals@ == pre[k - 1].locals@);
                        if !e.captured.is_local {
                            assert(post[k - 1].captures@[e.captured.index as int]
                                == pre[k - 1].captures@[e.captured.index as int]);
                        }
                    } else {
                        assert(post[k - 1] == pre[k - 1]);
                    }
                    assert(chain_entry_ok(post, k, c));
                }
            }
        }
        ci
    }

    /// Search the scope stack for a name, innermost scope first; yield the
    /// index of the scope that binds it and the slot it occupies there.
    fn lookup_name(&self, name: SharedSymbol) -> (r: Option<(usize, usize)>)
        ensures
            match r {
                Option::None => forall|k: int|
                    0 <= k < self.scopes@.len() ==> find_slot(
                        (#[trigger] self.scopes@[k]).locals@,
                        name,
                    ) is None,
                Option::Some(js) => {
                    &&& js.0 < self.scopes@.len()
                    &&& find_slot(self.scopes@[js.0 as int].locals@, name) == Option::Some(
                        js.1 as int,
                    )
                    &&& forall|k: int|
                        js.0 < k < self.scopes@.len() ==> find_slot(
                            (#[trigger] self.scopes@[k]).locals@,
                            name,
                        ) is None
                },
            },
    {
        let mut k: usize = self.scopes.len();
        while k > 0
            invariant
                k <= self.scopes@.len(),
                forall|k2: int|
                    k <= k2 < self.scopes@.len() ==> find_slot(
                        (#[trigger] self.scopes@[k2]).locals@,
                        name,
                    ) is None,
            decreases k,
        {
            match self.scopes[k - 1].lookup(name) {
                Option::Some(slot) => {
                    return Option::Some((k - 1, slot));
                },
                Option::None => {
                    k = k - 1;
                },
            }
        }
        Option::None
    }

    /// Ensure scope `i` of a capture chain carries an entry for the binding
    /// `u`, defined at slot `slot` of scope `j`: reuse the entry the scope
    /// already has, else append the right one — reading the defining frame
    /// directly when scope `i` stands immediately inside scope `j`, and
    /// forwarding the parent literal's entry `prev` otherwise.
    #[verifier::rlimit(100)]
    fn thread_capture(&mut self, i: usize, j: usize, slot: usize, u: UniqueSymbol, prev: usize) -> (ci:
        usize)
        requires
            old(self).wf(),
            1 <= j,
            j + 1 <= i <= old(self).scopes@.len() - 1,
            u.0 < old(self).next_symbol,
            slot < old(self).scopes@[j as int].locals@.len(),
            old(self).scopes@[j as int].locals@[slot as int].symbol == u,
            i == j + 1 ==> prev == slot,
            i > j + 1 ==> find_capture(old(self).scopes@[i - 1].captures@, u) == Option::Some(
                prev as int,
            ),
        ensures
            final(self).wf(),
            final(self).next_symbol == old(self).next_symbol,
            final(self).scopes@.len() == old(self).scopes@.len(),
            forall|k: int|
                0 <= k < old(self).scopes@.len() && k != i ==> final(self).scopes@[k] == old(
                    self,
                ).scopes@[k],
            final(self).scopes@[i as int].locals@ == old(self).scopes@[i as int].locals@,
            ({
                let caps0 = old(self).scopes@[i as int].captures@;
                let caps1 = final(self).scopes@[i as int].captures@;
                match find_capture(caps0, u) {
                    Option::Some(c0) => final(self).scopes@[i as int] == old(self).scopes@[i as int]
                        && ci as int == c0,
                    Option::None => caps1 == caps0.push(
                        CaptureEntry { symbol: u, captured: caps1.last().captured },
                    ) && ci == caps0.len(),
                }
            }),
            find_capture(final(self).scopes@[i as int].captures@, u) == Option::Some(ci as int),
            final(self).scopes@[i as int].captures@[ci as int].captured == (if i == j + 1 {
                Captured { index: slot, is_local: true }
            } else {
                Captured { index: prev, is_local: false }
            }),
    {
        proof {
            reveal(Resolver::wf);
        }
        let cap = if i == j + 1 {
            Captured::local(prev)
        } else {
            Captured::nonlocal(prev)
        };
        match self.scopes[i].capture_index(u) {
            Option::Some(ci) => {
                proof {
                    let cur = self.scopes@;
                    let ii = i as int;
                    lemma_find_capture_props(cur[ii].captures@, u);
                    let e = cur[ii].captures@[ci as int];
                    assert(chain_entry_ok(cur, ii, ci as int));
                    if i == j + 1 {
                        if !e.captured.is_local {
                            // the defining scope would itself capture the
                            // symbol, which grounding refutes
                            assert(cur[j as int].captures@[e.captured.index as int].symbol == u);
                            lemma_find_capture_props(cur[j as int].captures@, u);
                            assert(find_capture(cur[j as int].captures@, u) is Some);
                            lemma_capture_grounded(cur, j as int, u);
                            let (m, s) = choose|m: int, s: int|
                                0 <= m < j && 0 <= s < cur[m].locals@.len() && (#[trigger] cur[m].locals@[s]).symbol
                                    == u;
                            assert(cur[m].locals@[s].symbol
                                == cur[j as int].locals@[slot as int].symbol);
                            assert(false);
                        }
                        assert(cur[j as int].locals@[e.captured.index as int].symbol == u);
                        assert(e.captured.index == slot);
                    } else {
                        if e.captured.is_local {
                            assert(cur[i - 1].locals@[e.captured.index as int].symbol == u);
                            assert(false);
                        }
                        assert(cur[i - 1].captures@[e.captured.index as int].symbol == u);
                        lemma_find_capture_props(cur[i - 1].captures@, u);
                        assert(cur[i - 1].captures@[prev as int].symbol == u);
                        assert(e.captured.index == prev);
                    }
                }
                ci
            },
            Option::None => {
                proof {
                    if i > j + 1 {
                        lemma_find_capture_props(self.scopes@[i - 1].captures@, u);
                    }
                }
                let ghost caps0 = self.scopes@[i as int].captures@;
                let ci = self.push_capture(i, u, cap);
                proof {
                    let caps1 = self.scopes@[i as int].captures@;
                    let entry = CaptureEntry { symbol: u, captured: cap };
                    assert(caps1 =~= caps0.push(entry));
                    assert(caps1 == caps0.push(entry));
                    assert(caps1.last() == entry);
                }
                ci
            },
        }
    }

    /// Walk the capture chain from scope `i` to the innermost scope,
    /// visiting each literal with `thread_capture`, and hand back the
    /// binding's capture-list index in the innermost scope.
    #[verifier::rlimit(100)]
    #[verifier::spinoff_prover]
    fn thread_links(
        &mut self,
        name: SharedSymbol,
        j: usize,
        slot: usize,
        u: UniqueSymbol,
        i: usize,
        prev: usize,
        Ghost(pre): Ghost<Seq<Scope>>,
    ) -> (idx: usize)
        requires
            old(self).wf(),
            u.0 < old(self).next_symbol,
            1 <= j,
            j + 1 < pre.len(),
            j + 1 <= i <= pre.len(),
            pre.len() == old(self).scopes@.len(),
            slot < old(self).scopes@[j as int].locals@.len(),
            old(self).scopes@[j as int].locals@[slot as int].symbol == u,
            links_partial(pre, old(self).scopes@, name, u, j as int, slot as int, i as int),
            i == j + 1 ==> prev == slot,
            i > j + 1 ==> find_capture(old(self).scopes@[i - 1].captures@, u) == Option::Some(
                prev as int,
            ),
        ensures
            final(self).wf(),
            final(self).next_symbol == old(self).next_symbol,
            final(self).scopes@.len() == pre.len(),
            forall|k: int|
                0 <= k < pre.len() ==> (#[trigger] final(self).scopes@[k]).locals@
                    == pre[k].locals@,
            find_capture(final(self).scopes@[pre.len() - 1].captures@, u) == Option::Some(
                idx as int,
            ),
            captures_threaded(
                pre,
                final(self).scopes@,
                name,
                u,
                j as int,
                pre.len() - 1,
                idx as int,
            ),
        decreases pre.len() - i,
    {
        let top = self.scopes.len() - 1;
        if i > top {
            proof {
                lemma_links_done(
                    pre,
                    self.scopes@,
                    name,
                    u,
                    j as int,
                    slot as int,
                    prev as int,
                );
            }
            prev
        } else {
            let ghost mid = self.scopes@;
            let ci = self.thread_capture(i, j, slot, u, prev);
            proof {
                lemma_links_step(
                    pre,
                    mid,
                    self.scopes@,
                    name,
                    u,
                    j as int,
                    slot as int,
                    i as int,
                    prev as int,
                    ci as int,
                );
            }
            self.thread_links(name, j, slot, u, i + 1, ci, Ghost(pre))
        }
    }

    /// Resolve one reference to a name against the active scope stack.
    ///
    /// Found in the innermost scope: a direct local reference, nothing
    /// recorded. Found in the root scope: a global reference, addressed
    /// against the permanent base-0 frame, nothing recorded. Found in an
    /// enclosing function literal's scope at depth `d >= 1`: the binding is
    /// threaded through each of the `d` function literals between the
    /// reference and its definition in turn. Each step is `thread_capture`,
    /// whose contract pins what every literal comes to hold: at most one
    /// entry for the binding (a repeated reference reuses it), the
    /// innermost-to-definition literal alone reading the defining frame
    /// directly (`is_local`), every further one forwarding its parent
    /// literal's entry by capture-list index; the reference resolves to the
    /// entry's index in the innermost scope's capture list, as stated here.
    /// Not found anywhere: `None`, and the stack is left untouched.
    #[verifier::rlimit(100)]
    #[verifier::spinoff_prover]
    pub fn resolve_name(&mut self, name: SharedSymbol) -> (r: Option<ResolvedRef>)
        requires
            old(self).wf(),
        ensures
            final(self).wf(),
            final(self).next_symbol == old(self).next_symbol,
            final(self).scopes@.len() == old(self).scopes@.len(),
            forall|k: int|
                0 <= k < old(self).scopes@.len() ==> (#[trigger] final(self).scopes@[k]).locals@
                    == old(self).scopes@[k].locals@,
            (forall|k: int|
                0 <= k < old(self).scopes@.len() ==> find_slot(
                    (#[trigger] old(self).scopes@[k]).locals@,
                    name,
                ) is None) ==> r is None,
            r is None ==> final(self).scopes@ == old(self).scopes@ && (forall|k: int|
                0 <= k < old(self).scopes@.len() ==> find_slot(
                    (#[trigger] old(self).scopes@[k]).locals@,
                    name,
                ) is None),
            (r matches Option::Some(ResolvedRef::Local(u)) ==> {
                let pre = old(self).scopes@;
                let top = pre.len() - 1;
                &&& final(self).scopes@ == pre
                &&& top >= 1
                &&& find_slot(pre[top].locals@, name) is Some
                &&& pre[top].locals@[find_slot(pre[top].locals@, name)->Some_0].symbol == u
            }),
            (r matches Option::Some(ResolvedRef::Global(u)) ==> {
                let pre = old(self).scopes@;
                &&& final(self).scopes@ == pre
                &&& forall|k: int|
                    1 <= k < pre.len() ==> find_slot((#[trigger] pre[k]).locals@, name) is None
                &&& find_slot(pre[0].locals@, name) is Some
                &&& pre[0].locals@[find_slot(pre[0].locals@, name)->Some_0].symbol == u
            }),
            (r matches Option::Some(ResolvedRef::Captured(u, idx)) ==> resolved_captured(
                old(self).scopes@,
                final(self).scopes@,
                name,
                u,
                idx as int,
            )),
    {
        proof {
            assert(self.scopes@.len() >= 1) by {
                reveal(Resolver::wf);
            }
        }
        let ghost pre = self.scopes@;
        let top = self.scopes.len() - 1;
        match self.lookup_name(name) {
            Option::None => Option::None,
            Option::Some((j, slot)) => {
                proof {
                    lemma_find_slot_props(pre[j as int].locals@, name);
                }
                let u = self.scopes[j].locals[slot].symbol;
                proof {
                    assert(u.0 < self.next_symbol) by {
                        reveal(Resolver::wf);
                        assert(syms_below(pre[j as int], self.next_symbol as nat));
                    }
                }
                if j == 0 {
                    Option::Some(ResolvedRef::Global(u))
                } else if j == top {
                    Option::Some(ResolvedRef::Local(u))
                } else {
                    proof {
                        lemma_links_start(pre, name, u, j as int, slot as int);
                    }
                    let idx = self.thread_links(name, j, slot, u, j + 1, slot, Ghost(pre));
                    proof {
                        assert(exists|jj: int|
                            #[trigger] captures_threaded(
                                pre,
                                self.scopes@,
                                name,
                                u,
                                jj,
                                pre.len() - 1,
                                idx as int,
                            ));
                        assert(resolved_captured(pre, self.scopes@, name, u, idx as int));
                    }
                    Option::Some(ResolvedRef::Captured(u, idx))
                }
            },
        }
    }

    /// Resolve one reference, reporting failure as the language's
    /// unbound-symbol error. The error carries the reference's span,
    /// handed in by the caller walking the tree, so diagnostics can point
    /// at the source; it comes exactly when no enclosing scope binds the
    /// name, and then nothing has changed.
    pub fn resolve_reference(&mut self, name: SharedSymbol, span: Ann) -> (r: Result<
        ResolvedRef,
        ResolveError,
    >)
        requires
            old(self).wf(),
        ensures
            final(self).wf(),
            final(self).next_symbol == old(self).next_symbol,
            final(self).scopes@.len() == old(self).scopes@.len(),
            forall|k: int|
                0 <= k < old(self).scopes@.len() ==> (#[trigger] final(self).scopes@[k]).locals@
                    == old(self).scopes@[k].locals@,
            r is Err <==> (forall|k: int|
                0 <= k < old(self).scopes@.len() ==> find_slot(
                    (#[trigger] old(self).scopes@[k]).locals@,
                    name,
                ) is None),
            r is Err ==> r == Result::<ResolvedRef, ResolveError>::Err(
                ResolveError::UnboundSymbol { name, span },
            ) && final(self).scopes@ == old(self).scopes@,
            (r matches Ok(rr) ==> {
                let pre = old(self).scopes@;
                let top = pre.len() - 1;
                match rr {
                    ResolvedRef::Local(u) => final(self).scopes@ == pre && top >= 1 && find_slot(
                        pre[top].locals@,
                        name,
                    ) is Some && pre[top].locals@[find_slot(pre[top].locals@, name)->Some_0].symbol
                        == u,
                    ResolvedRef::Global(u) => final(self).scopes@ == pre && (forall|k: int|
                        1 <= k < pre.len() ==> find_slot(
                            (#[trigger] pre[k]).locals@,
                            name,
                        ) is None) && find_slot(pre[0].locals@, name) is Some
                        && pre[0].locals@[find_slot(pre[0].locals@, name)->Some_0].symbol == u,
                    ResolvedRef::Captured(u, idx) => resolved_captured(
                        pre,
                        final(self).scopes@,
                        name,
                        u,
                        idx as int,
                    ),
                }
            }),
    {
        match self.resolve_name(name) {
            Option::Some(rr) => Result::Ok(rr),
            Option::None => Result::Err(ResolveError::UnboundSymbol { name, span }),
        }
    }

    /// Introduce one binding of a destructuring pattern, `seen` being the
    /// names this pattern has introduced so far. A name may be introduced
    /// only once per pattern: a second occurrence declares nothing and is
    /// the duplicate-binding error, carrying the span of that occurrence.
    pub fn declare_pattern_binding(
        &mut self,
        name: SharedSymbol,
        span: Ann,
        seen: &mut Vec<SharedSymbol>,
    ) -> (r: Result<UniqueSymbol, ResolveError>)
        requires
            old(self).wf(),
            old(self).next_symbol < usize::MAX,
        ensures
            final(self).wf(),
            final(self).scopes@.len() == old(self).scopes@.len(),
            old(self).next_symbol <= final(self).next_symbol,
            r is Err <==> old(seen)@.contains(name),
            r is Err ==> r == Result::<UniqueSymbol, ResolveError>::Err(
                ResolveError::DuplicateBindingInPattern { name, span },
            ) && *final(self) == *old(self) && final(seen)@ == old(seen)@,
            (r matches Ok(u) ==> Self::declare_step(*old(self), *final(self), u) && final(seen)@
                == old(seen)@.push(name) && final(self).scopes@.last().locals@ =~= old(
                self,
            ).scopes@.last().locals@.push(ScopeEntry { name, symbol: u })),
    {
        let mut k: usize = 0;
        let n = seen.len();
        while k < n
            invariant
                *self == *old(self),
                self.wf(),
                k <= n,
                n == seen@.len(),
                seen@ == old(seen)@,
                forall|l: int| 0 <= l < k ==> seen@[l] != name,
            decreases n - k,
        {
            if seen[k] == name {
                return Result::Err(ResolveError::DuplicateBindingInPattern { name, span });
            }
            k += 1;
        }
        proof {
            assert(!seen@.contains(name));
        }
        seen.push(name);
        let u = self.declare(name);
        Result::Ok(u)
    }
}

} // verus!
