//! Undo and redo for an editor's state: each change is recorded, undone and redone in
//! turn.
use vstd::prelude::*;

verus! {

/// An editor's state with the states it can go back and forward to.
pub struct EditHistory<S> {
    undo_stack: Vec<S>,
    state: S,
    redo_stack: Vec<S>,
}

/// What a history holds: the states to go back to (the last is the latest), the
/// current state, and the states to go forward to (the last is the next).
pub struct HistoryView<S> {
    pub undo: Seq<S>,
    pub current: S,
    pub redo: Seq<S>,
}

/// The history after a change to `next`: the current state can be gone back to, and
/// nothing can be redone.
pub open spec fn changed<S>(h: HistoryView<S>, next: S) -> HistoryView<S> {
    HistoryView { undo: h.undo.push(h.current), current: next, redo: Seq::<S>::empty() }
}

/// The history after an undo: back to the latest saved state, where there is one.
pub open spec fn undone<S>(h: HistoryView<S>) -> HistoryView<S> {
    if h.undo.len() == 0 {
        h
    } else {
        HistoryView { undo: h.undo.drop_last(), current: h.undo.last(), redo: h.redo.push(h.current) }
    }
}

/// The history after a redo: forward to the next state, where there is one.
pub open spec fn redone<S>(h: HistoryView<S>) -> HistoryView<S> {
    if h.redo.len() == 0 {
        h
    } else {
        HistoryView { undo: h.undo.push(h.current), current: h.redo.last(), redo: h.redo.drop_last() }
    }
}

impl<S> EditHistory<S> {
    /// What the history holds.
    pub closed spec fn view(&self) -> HistoryView<S> {
        HistoryView { undo: self.undo_stack@, current: self.state, redo: self.redo_stack@ }
    }

    /// A history at `state`, with nothing to undo or redo.
    pub fn new(state: S) -> (r: Self)
        ensures
            r.view() == (HistoryView { undo: Seq::<S>::empty(), current: state, redo: Seq::<S>::empty() }),
    {
        EditHistory { undo_stack: Vec::new(), state, redo_stack: Vec::new() }
    }

    /// The current state.
    pub fn current(&self) -> (r: &S)
        ensures
            *r == self.view().current,
    {
        &self.state
    }

    /// Whether there is a state to go back to.
    pub fn can_undo(&self) -> (r: bool)
        ensures
            r == (self.view().undo.len() > 0),
    {
        self.undo_stack.len() > 0
    }

    /// Whether there is a state to go forward to.
    pub fn can_redo(&self) -> (r: bool)
        ensures
            r == (self.view().redo.len() > 0),
    {
        self.redo_stack.len() > 0
    }

    /// Moves to `next`, keeping the current state to go back to; what could be redone
    /// is dropped.
    pub fn change(&mut self, next: S)
        ensures
            final(self).view() == changed(old(self).view(), next),
    {
        let mut prev = next;
        std::mem::swap(&mut self.state, &mut prev);
        self.undo_stack.push(prev);
        self.redo_stack = Vec::new();
    }

    /// Goes back to the latest saved state, keeping the current one to redo; nothing
    /// happens where there is none. Returns whether it went back.
    pub fn undo(&mut self) -> (r: bool)
        ensures
            final(self).view() == undone(old(self).view()),
            r == (old(self).view().undo.len() > 0),
    {
        match self.undo_stack.pop() {
            Some(prev) => {
                let mut cur = prev;
                std::mem::swap(&mut self.state, &mut cur);
                self.redo_stack.push(cur);
                true
            },
            None => false,
        }
    }

    /// Goes forward to the next state, keeping the current one to undo; nothing
    /// happens where there is none. Returns whether it went forward.
    pub fn redo(&mut self) -> (r: bool)
        ensures
            final(self).view() == redone(old(self).view()),
            r == (old(self).view().redo.len() > 0),
    {
        match self.redo_stack.pop() {
            Some(next) => {
                let mut cur = next;
                std::mem::swap(&mut self.state, &mut cur);
                self.undo_stack.push(cur);
                true
            },
            None => false,
        }
    }
}

/// Undoing a change goes back to the state before it, and that change can then be
/// redone.
pub proof fn law_undo_reverts_change<S>(h: HistoryView<S>, next: S)
    ensures
        undone(changed(h, next)) == (HistoryView { undo: h.undo, current: h.current, redo: seq![next] }),
{
    assert(changed(h, next).undo.drop_last() =~= h.undo);
    assert(Seq::<S>::empty().push(next) =~= seq![next]);
}

/// Redoing what was undone restores the history as it was before the undo.
pub proof fn law_redo_reverts_undo<S>(h: HistoryView<S>)
    requires
        h.undo.len() > 0,
    ensures
        redone(undone(h)) == h,
{
    assert(h.undo.drop_last().push(h.undo.last()) =~= h.undo);
    assert(h.redo.push(h.current).drop_last() =~= h.redo);
}

/// Undoing what was redone restores the history as it was before the redo.
pub proof fn law_undo_reverts_redo<S>(h: HistoryView<S>)
    requires
        h.redo.len() > 0,
    ensures
        undone(redone(h)) == h,
{
    assert(h.redo.drop_last().push(h.redo.last()) =~= h.redo);
    assert(h.undo.push(h.current).drop_last() =~= h.undo);
}

/// A change drops what could be redone.
pub proof fn law_change_clears_redo<S>(h: HistoryView<S>, next: S)
    ensures
        changed(h, next).redo.len() == 0,
        changed(h, next).current == next,
{
}

} // verus!
