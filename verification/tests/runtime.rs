use aster::captured::Captured;
use aster::closure::InternalError;
use aster::closure::make_closure;
use aster::data::Data;
use aster::linked::Linked;

// Frame LIFO: pop always returns the base most recently pushed and not yet
// popped, and restores the caller's base underneath.
#[test]
fn frame_stack_lifo() {
    let mut frames = Linked::new(0);
    assert_eq!(frames.peek(), 0);
    frames.prepend(4);
    frames.prepend(9);
    assert_eq!(frames.peek(), 9);
    assert_eq!(frames.prepop(), 9);
    assert_eq!(frames.peek(), 4);
    frames.prepend(7);
    assert_eq!(frames.prepop(), 7);
    assert_eq!(frames.prepop(), 4);
    assert_eq!(frames.peek(), 0);
}

// Closure construction: a local descriptor copies out of the enclosing
// frame's window of the value stack, a nonlocal one out of the enclosing
// closure's own capture vector, in capture-list order.
#[test]
fn closure_captures_in_order() {
    let stack = vec![
        Data::Boolean(false),
        Data::Str("frame".to_string()),
        Data::Boolean(true),
    ];
    let enclosing = vec![Data::Str("outer".to_string())];
    let descriptors = vec![Captured::local(1), Captured::nonlocal(0), Captured::local(0)];
    let closure = make_closure(17, &descriptors, &stack, 1, &enclosing).unwrap();
    assert_eq!(closure.code_address, 17);
    // locals are addressed relative to the frame base: base 1 + index
    assert_eq!(
        closure.captured,
        vec![
            Data::Boolean(true),
            Data::Str("outer".to_string()),
            Data::Str("frame".to_string()),
        ]
    );
}

// Capture value-semantics: mutating the original local after construction
// must not change a value already read out of the capture vector.
#[test]
fn capture_is_a_copy_not_an_alias() {
    let mut stack = vec![Data::Str("before".to_string())];
    let descriptors = vec![Captured::local(0)];
    let enclosing: Vec<Data> = vec![];
    let closure = make_closure(0, &descriptors, &stack, 0, &enclosing).unwrap();
    stack[0] = Data::Str("after".to_string());
    assert_eq!(closure.captured[0], Data::Str("before".to_string()));
    // only a closure constructed anew from the mutated stack sees the write
    let fresh = make_closure(0, &descriptors, &stack, 0, &enclosing).unwrap();
    assert_eq!(fresh.captured[0], Data::Str("after".to_string()));
}

// An index out of range at construction time is the internal
// capture-index error, never a silent wrong value.
#[test]
fn capture_index_out_of_range() {
    let stack = vec![Data::Boolean(true)];
    let enclosing: Vec<Data> = vec![];
    let bad_local = vec![Captured::local(1)];
    assert_eq!(
        make_closure(0, &bad_local, &stack, 0, &enclosing),
        Err(InternalError::CaptureIndexOutOfRange)
    );
    let bad_nonlocal = vec![Captured::nonlocal(0)];
    assert_eq!(
        make_closure(0, &bad_nonlocal, &stack, 0, &enclosing),
        Err(InternalError::CaptureIndexOutOfRange)
    );
}
