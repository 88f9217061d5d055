//! The evaluation stack: a transient LIFO of samples used during one frame's
//! evaluation.  It is created empty at the start of every frame evaluation
//! and has no identity beyond one frame.

use vstd::prelude::*;
use crate::sample::Sample;

verus! {

/// LIFO of samples; the view is the stack contents, bottom first.
pub struct Stack {
    items: Vec<Sample>,
}

impl View for Stack {
    type V = Seq<Sample>;

    closed spec fn view(&self) -> Seq<Sample> {
        self.items@
    }
}

impl Stack {
    /// A new, empty stack.
    pub fn new() -> (s: Stack)
        ensures
            s@ == Seq::<Sample>::empty(),
    {
        Stack { items: Vec::new() }
    }

    /// Number of samples currently held.
    pub fn depth(&self) -> (n: usize)
        ensures
            n == self@.len(),
    {
        self.items.len()
    }

    /// Push one sample on top.
    pub fn push(&mut self, v: Sample)
        ensures
            final(self)@ == old(self)@.push(v),
    {
        self.items.push(v);
    }

    /// Pop the top sample.  Compile-time arity checking guarantees callers
    /// never pop an empty stack.
    pub fn pop(&mut self) -> (v: Sample)
        requires
            old(self)@.len() > 0,
        ensures
            v == old(self)@.last(),
            final(self)@ == old(self)@.drop_last(),
    {
        let v = self.items.pop().unwrap();
        v
    }

    /// Read the sample at position `i` (0 is the bottom).
    pub fn get(&self, i: usize) -> (v: Sample)
        requires
            i < self@.len(),
        ensures
            v == self@[i as int],
    {
        self.items[i]
    }
}

} // verus!
