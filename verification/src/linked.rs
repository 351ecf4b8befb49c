use vstd::prelude::*;

verus! {

/// A linked list of `usize` frame bases that functions as a stack.
/// The head is the base of the currently executing call's frame; the tail
/// preserves the bases of the enclosing, still-active calls.
#[derive(Debug)]
pub struct Linked(pub usize, pub Option<Box<Linked>>);

/// The mathematical model of a frame-base stack: the sequence of bases,
/// most recently pushed first. It is never empty: the root base is element 0
/// of a one-element stack.
pub open spec fn linked_model(l: Linked) -> Seq<usize>
    decreases l,
{
    match l.1 {
        Option::None => seq![l.0],
        Option::Some(tail) => seq![l.0] + linked_model(*tail),
    }
}

impl View for Linked {
    type V = Seq<usize>;

    open spec fn view(&self) -> Seq<usize> {
        linked_model(*self)
    }
}

/// A frame-base stack holds at least the root base.
pub proof fn lemma_linked_nonempty(l: Linked)
    ensures
        linked_model(l).len() >= 1,
        linked_model(l)[0] == l.0,
    decreases l,
{
}

impl Linked {
    /// A fresh frame-base stack holding only the root frame's base.
    pub fn new(index: usize) -> (l: Linked)
        ensures
            l@ =~= seq![index],
    {
        Linked(index, None)
    }

    /// Push the base of a newly entered call's frame.
    pub fn prepend(&mut self, new_index: usize)
        ensures
            final(self)@ =~= seq![new_index] + old(self)@,
    {
        let mut tail: Option<Box<Linked>> = None;
        core::mem::swap(&mut tail, &mut self.1);
        let old_head = Linked(self.0, tail);
        *self = Linked(new_index, Some(Box::new(old_head)));
    }

    /// Pop the current frame's base on return, yielding it and restoring the
    /// caller's frame. Popping the root frame would be an internal invariant
    /// violation, never a user-facing error, so it is excluded up front.
    pub fn prepop(&mut self) -> (index: usize)
        requires
            old(self)@.len() >= 2,
        ensures
            index == old(self)@[0],
            final(self)@ =~= old(self)@.skip(1),
    {
        let mut tail: Option<Box<Linked>> = None;
        core::mem::swap(&mut tail, &mut self.1);
        match tail {
            Some(rest) => {
                let index = self.0;
                proof {
                    assert(old(self)@ =~= seq![old(self).0] + linked_model(*rest));
                }
                *self = *rest;
                index
            },
            None => {
                proof {
                    assert(old(self)@.len() == 1);
                }
                vstd::pervasive::unreached()
            },
        }
    }

    /// Read the current frame's base without mutating the stack.
    pub fn peek(&self) -> (index: usize)
        ensures
            index == self@[0],
    {
        proof {
            lemma_linked_nonempty(*self);
        }
        self.0
    }
}

/// The model of a `prepend`: the new base goes on front, nothing else moves.
pub open spec fn frame_pushed(s: Seq<usize>, base: usize) -> Seq<usize> {
    seq![base] + s
}

/// The model of a `prepop`: the front base comes off and is returned.
pub open spec fn frame_popped(s: Seq<usize>) -> (usize, Seq<usize>) {
    (s[0], s.skip(1))
}

/// Frame LIFO law: for push/pop sequences respecting call/return nesting,
/// a pop returns exactly the most recently pushed base that was not yet
/// popped, and restores the stack beneath it unchanged. Since a push leaves
/// at least two bases on the stack, the pop of a pushed frame never hits the
/// root-underflow failure: popping the lone root base is the only operation
/// excluded.
pub proof fn lemma_frame_lifo(s: Seq<usize>, base: usize)
    requires
        s.len() >= 1,
    ensures
        frame_pushed(s, base).len() >= 2,
        frame_popped(frame_pushed(s, base)).0 == base,
        frame_popped(frame_pushed(s, base)).1 =~= s,
{
}

} // verus!
