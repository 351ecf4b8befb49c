use aster::ann::Ann;
use aster::captured::Captured;
use aster::resolver::ResolveError;
use aster::resolver::ResolvedRef;
use aster::resolver::Resolver;
use aster::scope::CaptureEntry;
use aster::symbol::SharedSymbol;

// `x -> x`: a one-parameter literal referencing its own parameter —
// zero captures, one local slot.
#[test]
fn identity_literal() {
    let mut r = Resolver::new();
    let x = SharedSymbol(0);
    r.enter_scope();
    let ux = r.declare(x);
    match r.resolve_name(x) {
        Some(ResolvedRef::Local(u)) => assert_eq!(u, ux),
        other => panic!("expected a local reference, got {:?}", other),
    }
    let scope = r.exit_scope();
    assert_eq!(scope.slot_count(), 1);
    assert_eq!(scope.captures.len(), 0);
}

// `x -> (y -> x)`: the inner literal captures `x` from one level up:
// its capture list is exactly [Captured { index: 0, is_local: true }];
// the outer literal captures nothing.
#[test]
fn nested_literal_captures_parent_local() {
    let mut r = Resolver::new();
    let x = SharedSymbol(0);
    let y = SharedSymbol(1);
    r.enter_scope();
    let ux = r.declare(x);
    r.enter_scope();
    r.declare(y);
    match r.resolve_name(x) {
        Some(ResolvedRef::Captured(u, idx)) => {
            assert_eq!(u, ux);
            assert_eq!(idx, 0);
        },
        other => panic!("expected a captured reference, got {:?}", other),
    }
    let inner = r.exit_scope();
    assert_eq!(inner.captures, vec![CaptureEntry { symbol: ux, captured: Captured::local(0) }]);
    let outer = r.exit_scope();
    assert_eq!(outer.captures.len(), 0);
    assert_eq!(outer.slot_count(), 1);
}

// `x -> (y -> (z -> x))`: the middle literal reads the defining frame
// directly, the innermost literal forwards the middle literal's capture.
#[test]
fn capture_chain_across_two_levels() {
    let mut r = Resolver::new();
    let x = SharedSymbol(0);
    let y = SharedSymbol(1);
    let z = SharedSymbol(2);
    r.enter_scope();
    let ux = r.declare(x);
    r.enter_scope();
    r.declare(y);
    r.enter_scope();
    r.declare(z);
    match r.resolve_name(x) {
        Some(ResolvedRef::Captured(u, idx)) => {
            assert_eq!(u, ux);
            assert_eq!(idx, 0);
        },
        other => panic!("expected a captured reference, got {:?}", other),
    }
    let innermost = r.exit_scope();
    assert_eq!(
        innermost.captures,
        vec![CaptureEntry { symbol: ux, captured: Captured::nonlocal(0) }]
    );
    let middle = r.exit_scope();
    assert_eq!(middle.captures, vec![CaptureEntry { symbol: ux, captured: Captured::local(0) }]);
    let outermost = r.exit_scope();
    assert_eq!(outermost.captures.len(), 0);
}

// A reference to a name never bound anywhere fails with the unbound-symbol
// error, which carries the reference's own span for diagnostics.
#[test]
fn unbound_symbol() {
    let mut r = Resolver::new();
    let q = SharedSymbol(9);
    assert!(r.resolve_name(q).is_none());
    match r.resolve_reference(q, Ann::new(42, 1)) {
        Err(ResolveError::UnboundSymbol { name, span }) => {
            assert_eq!(name, q);
            assert_eq!(span, Ann::new(42, 1));
        },
        other => panic!("expected an unbound-symbol error, got {:?}", other),
    }
}

// A bound reference resolves through the error-reporting entry point too.
#[test]
fn bound_reference_is_ok() {
    let mut r = Resolver::new();
    let x = SharedSymbol(0);
    r.enter_scope();
    let ux = r.declare(x);
    match r.resolve_reference(x, Ann::new(7, 1)) {
        Ok(ResolvedRef::Local(u)) => assert_eq!(u, ux),
        other => panic!("expected a local reference, got {:?}", other),
    }
}

// One destructuring pattern may introduce a name only once: the second
// occurrence is the duplicate-binding error, carrying its own span.
#[test]
fn duplicate_binding_in_pattern() {
    let mut r = Resolver::new();
    let a = SharedSymbol(0);
    let b = SharedSymbol(1);
    let mut seen = Vec::new();
    r.enter_scope();
    let ua = r.declare_pattern_binding(a, Ann::new(1, 1), &mut seen).unwrap();
    let ub = r.declare_pattern_binding(b, Ann::new(3, 1), &mut seen).unwrap();
    assert_ne!(ua, ub);
    match r.declare_pattern_binding(a, Ann::new(5, 1), &mut seen) {
        Err(ResolveError::DuplicateBindingInPattern { name, span }) => {
            assert_eq!(name, a);
            assert_eq!(span, Ann::new(5, 1));
        },
        other => panic!("expected a duplicate-binding error, got {:?}", other),
    }
    // the failed occurrence declared nothing
    let scope = r.exit_scope();
    assert_eq!(scope.slot_count(), 2);
}

// Uniqueness: distinct binding occurrences — including shadowing of the
// same name — receive distinct unique symbols.
#[test]
fn shadowing_yields_fresh_symbols() {
    let mut r = Resolver::new();
    let x = SharedSymbol(0);
    let u1 = r.declare(x);
    let u2 = r.declare(x);
    r.enter_scope();
    let u3 = r.declare(x);
    assert_ne!(u1, u2);
    assert_ne!(u1, u3);
    assert_ne!(u2, u3);
}

// Referencing the same outer variable twice yields one capture entry,
// shared by both reference sites.
#[test]
fn repeated_reference_deduplicates_capture() {
    let mut r = Resolver::new();
    let x = SharedSymbol(0);
    r.enter_scope();
    let ux = r.declare(x);
    r.enter_scope();
    let first = r.resolve_name(x);
    let second = r.resolve_name(x);
    assert_eq!(first, second);
    let inner = r.exit_scope();
    assert_eq!(inner.captures, vec![CaptureEntry { symbol: ux, captured: Captured::local(0) }]);
}

// A top-level binding referenced from inside a literal is addressed
// globally, against the permanent base-0 frame: no capture is recorded.
#[test]
fn root_binding_is_global() {
    let mut r = Resolver::new();
    let g = SharedSymbol(3);
    let ug = r.declare(g);
    r.enter_scope();
    match r.resolve_name(g) {
        Some(ResolvedRef::Global(u)) => assert_eq!(u, ug),
        other => panic!("expected a global reference, got {:?}", other),
    }
    let scope = r.exit_scope();
    assert_eq!(scope.captures.len(), 0);
}
