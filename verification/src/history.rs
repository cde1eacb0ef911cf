use vstd::prelude::*;

verus! {

/// Snapshots of earlier map states for undo, and of undone states for
/// redo. An edit records the state before it and forgets what was undone;
/// undo and redo swap the active state with the newest snapshot of the
/// other kind.
pub struct MapHistory<T> {
    undo: Vec<T>,
    redo: Vec<T>,
}

impl<T> MapHistory<T> {
    /// The states undo goes back to, oldest first.
    pub closed spec fn undo_stack(&self) -> Seq<T> {
        self.undo@
    }

    /// The states redo goes forward to, oldest first.
    pub closed spec fn redo_stack(&self) -> Seq<T> {
        self.redo@
    }

    /// An empty history: a new session baseline.
    pub fn new() -> (r: MapHistory<T>)
        ensures
            r.undo_stack() == Seq::<T>::empty(),
            r.redo_stack() == Seq::<T>::empty(),
    {
        MapHistory { undo: Vec::new(), redo: Vec::new() }
    }

    /// Records the state before a successful edit; the redo chain is
    /// cleared.
    pub fn record(&mut self, previous: T)
        ensures
            (final(self).undo_stack(), final(self).redo_stack()) == recorded(old(self).undo_stack(), previous),
    {
        self.undo.push(previous);
        self.redo.clear();
    }

    /// Goes back one edit: hands back the newest recorded state and keeps
    /// `current` for redo, or hands `current` back unchanged when there is
    /// nothing to undo.
    pub fn undo(&mut self, current: T) -> (r: Result<T, T>)
        ensures
            ({
                let (got, u, rd) = undone(old(self).undo_stack(), old(self).redo_stack(), current);
                &&& final(self).undo_stack() == u
                &&& final(self).redo_stack() == rd
                &&& match got {
                    Some(previous) => r == Ok::<T, T>(previous),
                    None => r == Err::<T, T>(current),
                }
            }),
    {
        match self.undo.pop() {
            Some(previous) => {
                self.redo.push(current);
                Ok(previous)
            },
            None => Err(current),
        }
    }

    /// Goes forward one undone edit: hands back the newest undone state and
    /// keeps `current` for undo, or hands `current` back unchanged when
    /// nothing was undone.
    pub fn redo(&mut self, current: T) -> (r: Result<T, T>)
        ensures
            ({
                let (got, u, rd) = redone(old(self).undo_stack(), old(self).redo_stack(), current);
                &&& final(self).undo_stack() == u
                &&& final(self).redo_stack() == rd
                &&& match got {
                    Some(next) => r == Ok::<T, T>(next),
                    None => r == Err::<T, T>(current),
                }
            }),
    {
        match self.redo.pop() {
            Some(next) => {
                self.undo.push(current);
                Ok(next)
            },
            None => Err(current),
        }
    }

    /// Whether an edit can be undone.
    pub fn can_undo(&self) -> (r: bool)
        ensures
            r == (self.undo_stack().len() > 0),
    {
        self.undo.len() > 0
    }

    /// Whether an undone edit can be redone.
    pub fn can_redo(&self) -> (r: bool)
        ensures
            r == (self.redo_stack().len() > 0),
    {
        self.redo.len() > 0
    }

    /// Forgets every snapshot, as when a project is opened.
    pub fn clear(&mut self)
        ensures
            final(self).undo_stack() == Seq::<T>::empty(),
            final(self).redo_stack() == Seq::<T>::empty(),
    {
        self.undo.clear();
        self.redo.clear();
    }
}

/// The stacks after recording `previous` as the state before an edit.
pub open spec fn recorded<T>(undo: Seq<T>, previous: T) -> (Seq<T>, Seq<T>) {
    (undo.push(previous), Seq::empty())
}

/// What undo from `current` gives, and the stacks after it.
pub open spec fn undone<T>(undo: Seq<T>, redo: Seq<T>, current: T) -> (Option<T>, Seq<T>, Seq<T>) {
    if undo.len() == 0 {
        (None, undo, redo)
    } else {
        (Some(undo.last()), undo.drop_last(), redo.push(current))
    }
}

/// What redo from `current` gives, and the stacks after it.
pub open spec fn redone<T>(undo: Seq<T>, redo: Seq<T>, current: T) -> (Option<T>, Seq<T>, Seq<T>) {
    if redo.len() == 0 {
        (None, undo, redo)
    } else {
        (Some(redo.last()), undo.push(current), redo.drop_last())
    }
}

/// Undo and redo swap states: after an edit from `before` to `after`, undo
/// gives `before` back and leaves the stacks as before the edit but for
/// `after` waiting to be redone; redo then gives `after` back and leaves
/// the stacks as right after the edit.
pub proof fn lemma_undo_then_redo_restores<T>(undo: Seq<T>, redo: Seq<T>, before: T, after: T)
    ensures
        ({
            let (u1, r1) = recorded(undo, before);
            let (got_back, u2, r2) = undone(u1, r1, after);
            let (got_forward, u3, r3) = redone(u2, r2, before);
            &&& got_back == Some(before)
            &&& u2 == undo
            &&& r2 == seq![after]
            &&& got_forward == Some(after)
            &&& u3 == u1
            &&& r3 == r1
        }),
{
    let (u1, r1) = recorded(undo, before);
    assert(u1.drop_last() =~= undo);
    assert(r1.push(after) =~= seq![after]);
    assert(seq![after].drop_last() =~= r1);
}

} // verus!
