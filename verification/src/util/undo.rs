//! A bounded stack of state snapshots for undo.
use vstd::prelude::*;

verus! {

/// A generic undo stack that stores snapshots of state.
///
/// Push a snapshot before making a change, then pop to restore the previous
/// state. The stack holds at most `max_depth` snapshots; pushing onto a full
/// stack drops the oldest one.
#[derive(Debug)]
pub struct UndoStack<S> {
    stack: Vec<S>,
    max_depth: usize,
}

/// The snapshots after pushing `s` onto `stack` with room for `max` of
/// them: the oldest is dropped first when the stack is full.
pub open spec fn pushed<S>(stack: Seq<S>, max: nat, s: S) -> Seq<S> {
    if stack.len() >= max && stack.len() > 0 {
        stack.drop_first().push(s)
    } else {
        stack.push(s)
    }
}

impl<S> UndoStack<S> {
    /// The snapshots, oldest first.
    pub closed spec fn snapshots(&self) -> Seq<S> {
        self.stack@
    }

    /// The most snapshots kept.
    pub closed spec fn depth(&self) -> nat {
        self.max_depth as nat
    }

    /// Create a new undo stack with the given maximum depth (at least one).
    pub fn new(max_depth: usize) -> (r: Self)
        ensures
            r.snapshots() == Seq::<S>::empty(),
            r.depth() == if max_depth >= 1 { max_depth as nat } else { 1 },
    {
        UndoStack { stack: Vec::new(), max_depth: if max_depth >= 1 { max_depth } else { 1 } }
    }

    /// Push a snapshot onto the stack. If the stack is full, the oldest
    /// entry is removed first.
    pub fn push(&mut self, state: S)
        ensures
            final(self).snapshots() == pushed(old(self).snapshots(), old(self).depth(), state),
            final(self).depth() == old(self).depth(),
    {
        if self.stack.len() >= self.max_depth && self.stack.len() > 0 {
            self.stack.remove(0);
        }
        self.stack.push(state);
    }

    /// Pop the most recent snapshot, or `None` if the stack is empty.
    pub fn pop(&mut self) -> (r: Option<S>)
        ensures
            final(self).depth() == old(self).depth(),
            old(self).snapshots().len() == 0 ==> r is None && final(self).snapshots() == old(self).snapshots(),
            old(self).snapshots().len() > 0 ==> r == Some(old(self).snapshots().last())
                && final(self).snapshots() == old(self).snapshots().drop_last(),
    {
        self.stack.pop()
    }

    /// Peek at the most recent snapshot without removing it.
    pub fn peek(&self) -> (r: Option<&S>)
        ensures
            self.snapshots().len() == 0 ==> r is None,
            self.snapshots().len() > 0 ==> r == Some(&self.snapshots().last()),
    {
        let n = self.stack.len();
        if n == 0 {
            None
        } else {
            Some(&self.stack[n - 1])
        }
    }

    /// The number of snapshots in the stack.
    pub fn len(&self) -> (r: usize)
        ensures
            r == self.snapshots().len(),
    {
        self.stack.len()
    }

    /// Whether no snapshots are stored.
    pub fn is_empty(&self) -> (r: bool)
        ensures
            r == (self.snapshots().len() == 0),
    {
        self.stack.len() == 0
    }

    /// Clear all snapshots.
    pub fn clear(&mut self)
        ensures
            final(self).snapshots() == Seq::<S>::empty(),
            final(self).depth() == old(self).depth(),
    {
        self.stack.clear();
    }
}

impl<S: Clone> Clone for UndoStack<S> {
    fn clone(&self) -> (r: Self)
        ensures
            r.depth() == self.depth(),
            r.snapshots().len() == self.snapshots().len(),
            forall|i: int| 0 <= i < self.snapshots().len() ==> cloned::<S>(self.snapshots()[i], #[trigger] r.snapshots()[i]),
    {
        UndoStack { stack: self.stack.clone(), max_depth: self.max_depth }
    }
}

/// Popping right after a push gives back the snapshot just pushed, and, when
/// the stack was not full, leaves the snapshots as they were before.
pub proof fn lemma_pop_undoes_push<S>(stack: Seq<S>, max: nat, s: S)
    ensures
        pushed(stack, max, s).last() == s,
        pushed(stack, max, s).len() > 0,
        stack.len() < max ==> pushed(stack, max, s).drop_last() == stack,
{
    if stack.len() < max {
        assert(stack.push(s).drop_last() =~= stack);
    }
}

/// A stack that starts within its depth stays within it: pushing never
/// takes it past `max` snapshots.
pub proof fn lemma_push_keeps_depth<S>(stack: Seq<S>, max: nat, s: S)
    requires
        max >= 1,
        stack.len() <= max,
    ensures
        pushed(stack, max, s).len() <= max,
{
}

} // verus!
