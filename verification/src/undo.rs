//! Bounded undo / redo history of document snapshots.
use std::collections::VecDeque;
use vstd::prelude::*;

verus! {

/// Most snapshots kept on each of the undo and redo stacks.
pub const MAX_UNDO: usize = 200;

/// A saved editor state: its lines and its cursor.
#[derive(Clone)]
pub struct Snapshot {
    pub lines: Vec<String>,
    pub cursor_row: usize,
    pub cursor_col: usize,
}

/// Abstract snapshot: the chars of each line, the cursor row and the cursor byte column.
pub type SnapView = (Seq<Seq<char>>, usize, usize);

/// The chars of each line.
pub open spec fn lines_view(lines: Seq<String>) -> Seq<Seq<char>> {
    lines.map_values(|s: String| s@)
}

impl View for Snapshot {
    type V = SnapView;

    open spec fn view(&self) -> SnapView {
        (lines_view(self.lines@), self.cursor_row, self.cursor_col)
    }
}

/// Abstract history: the undo stack and the redo stack, oldest first.
pub type HistoryView = (Seq<SnapView>, Seq<SnapView>);

/// Pushes `x` on top of a stack, first dropping its oldest entry when it is full.
pub open spec fn bounded_push(s: Seq<SnapView>, x: SnapView) -> Seq<SnapView> {
    (if s.len() >= MAX_UNDO {
        s.drop_first()
    } else {
        s
    }).push(x)
}

pub struct UndoStack {
    undo: VecDeque<Snapshot>,
    redo: VecDeque<Snapshot>,
}

pub open spec fn snaps_view(d: Seq<Snapshot>) -> Seq<SnapView> {
    d.map_values(|s: Snapshot| s@)
}

impl View for UndoStack {
    type V = HistoryView;

    closed spec fn view(&self) -> HistoryView {
        (snaps_view(self.undo@), snaps_view(self.redo@))
    }
}

impl UndoStack {
    /// Both stacks hold at most `MAX_UNDO` snapshots.
    pub open spec fn bounded_view(&self) -> bool {
        &&& self@.0.len() <= MAX_UNDO
        &&& self@.1.len() <= MAX_UNDO
    }

    #[verifier::type_invariant]
    spec fn bounded(self) -> bool {
        &&& self.undo@.len() <= MAX_UNDO
        &&& self.redo@.len() <= MAX_UNDO
    }

    pub fn new() -> (s: Self)
        ensures
            s@.0 == Seq::<SnapView>::empty(),
            s@.1 == Seq::<SnapView>::empty(),
            s.bounded_view(),
    {
        let s = UndoStack { undo: VecDeque::new(), redo: VecDeque::new() };
        proof {
            assert(snaps_view(s.undo@) =~= Seq::<SnapView>::empty());
            assert(snaps_view(s.redo@) =~= Seq::<SnapView>::empty());
        }
        s
    }

    fn push_bounded(d: &mut VecDeque<Snapshot>, snap: Snapshot)
        requires
            old(d)@.len() <= MAX_UNDO,
        ensures
            snaps_view(final(d)@) == bounded_push(snaps_view(old(d)@), snap@),
            final(d)@.len() <= MAX_UNDO,
    {
        let ghost d0 = d@;
        if d.len() >= MAX_UNDO {
            d.pop_front();
            proof {
                assert(snaps_view(d@) =~= snaps_view(d0).drop_first());
            }
        }
        let ghost d1 = d@;
        d.push_back(snap);
        proof {
            assert(snaps_view(d@) =~= snaps_view(d1).push(snap@));
        }
    }

    /// Records the state before a change: pushes it on the undo stack and empties
    /// the redo stack.
    pub fn push_edit(&mut self, snap: Snapshot)
        ensures
            final(self)@.0 == bounded_push(old(self)@.0, snap@),
            final(self)@.1 == Seq::<SnapView>::empty(),
            old(self).bounded_view(),
            final(self).bounded_view(),
    {
        proof {
            use_type_invariant(&*self);
        }
        let mut undo = VecDeque::new();
        std::mem::swap(&mut undo, &mut self.undo);
        Self::push_bounded(&mut undo, snap);
        self.undo = undo;
        self.redo = VecDeque::new();
        proof {
            assert(snaps_view(self.redo@) =~= Seq::<SnapView>::empty());
        }
    }

    /// Undo: returns the most recent snapshot of the undo stack, if any, and
    /// pushes `current` on the redo stack.  With an empty undo stack nothing changes.
    pub fn do_undo(&mut self, current: Snapshot) -> (r: Option<Snapshot>)
        ensures
            old(self)@.0.len() == 0 ==> r is None && final(self)@ == old(self)@,
            old(self)@.0.len() > 0 ==> (r matches Some(s) && s@ == old(self)@.0.last()
                && final(self)@.0 == old(self)@.0.drop_last()
                && final(self)@.1 == bounded_push(old(self)@.1, current@)),
            old(self).bounded_view(),
            final(self).bounded_view(),
    {
        proof {
            use_type_invariant(&*self);
        }
        let ghost u0 = self.undo@;
        let mut undo = VecDeque::new();
        std::mem::swap(&mut undo, &mut self.undo);
        let prev = undo.pop_back();
        match prev {
            None => {
                self.undo = undo;
                None
            },
            Some(p) => {
                proof {
                    assert(snaps_view(undo@) =~= snaps_view(u0).drop_last());
                }
                self.undo = undo;
                let mut redo = VecDeque::new();
                std::mem::swap(&mut redo, &mut self.redo);
                Self::push_bounded(&mut redo, current);
                self.redo = redo;
                Some(p)
            },
        }
    }

    /// Redo: returns the most recent snapshot of the redo stack, if any, and
    /// pushes `current` on the undo stack.  With an empty redo stack nothing changes.
    pub fn do_redo(&mut self, current: Snapshot) -> (r: Option<Snapshot>)
        ensures
            old(self)@.1.len() == 0 ==> r is None && final(self)@ == old(self)@,
            old(self)@.1.len() > 0 ==> (r matches Some(s) && s@ == old(self)@.1.last()
                && final(self)@.1 == old(self)@.1.drop_last()
                && final(self)@.0 == bounded_push(old(self)@.0, current@)),
            old(self).bounded_view(),
            final(self).bounded_view(),
    {
        proof {
            use_type_invariant(&*self);
        }
        let ghost r0 = self.redo@;
        let mut redo = VecDeque::new();
        std::mem::swap(&mut redo, &mut self.redo);
        let next = redo.pop_back();
        match next {
            None => {
                self.redo = redo;
                None
            },
            Some(n) => {
                proof {
                    assert(snaps_view(redo@) =~= snaps_view(r0).drop_last());
                }
                self.redo = redo;
                let mut undo = VecDeque::new();
                std::mem::swap(&mut undo, &mut self.undo);
                Self::push_bounded(&mut undo, current);
                self.undo = undo;
                Some(n)
            },
        }
    }

    pub fn _can_undo(&self) -> (b: bool)
        ensures
            b == (self@.0.len() > 0),
            self.bounded_view(),
    {
        proof {
            use_type_invariant(self);
        }
        self.undo.len() != 0
    }

    pub fn _can_redo(&self) -> (b: bool)
        ensures
            b == (self@.1.len() > 0),
            self.bounded_view(),
    {
        proof {
            use_type_invariant(self);
        }
        self.redo.len() != 0
    }
}

} // verus!
