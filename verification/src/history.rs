//! Bounded undo/redo history: an ordered buffer of document snapshots with
//! a cursor, capped at a fixed capacity with oldest-first eviction.

use std::collections::VecDeque;

use vstd::prelude::*;

use crate::image_data::{DocView, ImageData};

verus! {

/// The mathematical content of a history: the stored snapshots in order,
/// the cursor (the number of snapshots at or before the current state), and
/// the capacity bound.
pub ghost struct HistView {
    pub snapshots: Seq<DocView>,
    pub cursor: int,
    pub capacity: int,
}

/// The invariant of a history value: the cursor stays within the buffer,
/// and the buffer within its capacity.
pub open spec fn hist_wf(h: HistView) -> bool {
    &&& 0 <= h.cursor <= h.snapshots.len()
    &&& h.snapshots.len() <= h.capacity
    &&& h.capacity >= 1
}

/// Whether stepping backward is possible: there must be a state strictly
/// before the immediately-preceding one, so the original state always stays
/// addressable.
pub open spec fn can_undo_spec(h: HistView) -> bool {
    h.cursor > 1
}

/// Whether stepping forward is possible: the cursor is not at the end.
pub open spec fn can_redo_spec(h: HistView) -> bool {
    h.cursor < h.snapshots.len()
}

/// Pushing a snapshot: drop the redo branch at and after the cursor, append
/// the snapshot, and evict from the front until within capacity, moving the
/// cursor along.
pub open spec fn push_spec(h: HistView, d: DocView) -> HistView {
    let trimmed = h.snapshots.take(h.cursor).push(d);
    if h.cursor + 1 <= h.capacity {
        HistView { snapshots: trimmed, cursor: h.cursor + 1, capacity: h.capacity }
    } else {
        HistView {
            snapshots: trimmed.skip(h.cursor + 1 - h.capacity),
            cursor: h.capacity,
            capacity: h.capacity,
        }
    }
}

/// The state after `undo`: the cursor steps back when it can; otherwise
/// nothing changes.
pub open spec fn undo_state_spec(h: HistView) -> HistView {
    if can_undo_spec(h) {
        HistView { cursor: h.cursor - 1, ..h }
    } else {
        h
    }
}

/// What `undo` returns: the snapshot before the previously-current one.
pub open spec fn undo_doc_spec(h: HistView) -> Option<DocView> {
    if can_undo_spec(h) {
        Some(h.snapshots[h.cursor - 2])
    } else {
        None
    }
}

/// The state after `redo`: the cursor steps forward when it can; otherwise
/// nothing changes.
pub open spec fn redo_state_spec(h: HistView) -> HistView {
    if can_redo_spec(h) {
        HistView { cursor: h.cursor + 1, ..h }
    } else {
        h
    }
}

/// What `redo` returns: the snapshot the cursor steps onto.
pub open spec fn redo_doc_spec(h: HistView) -> Option<DocView> {
    if can_redo_spec(h) {
        Some(h.snapshots[h.cursor])
    } else {
        None
    }
}

/// A bounded sequence of document snapshots with a cursor. `current_index`
/// counts the snapshots at or before the current state; `max_history` is
/// the capacity (50 by default).
pub struct ImageHistory {
    pub history: VecDeque<ImageData>,
    pub current_index: usize,
    pub max_history: usize,
}

impl View for ImageHistory {
    type V = HistView;

    open spec fn view(&self) -> HistView {
        HistView {
            snapshots: self.history@.map_values(|d: ImageData| d@),
            cursor: self.current_index as int,
            capacity: self.max_history as int,
        }
    }
}

impl ImageHistory {
    /// The exec-level invariant: the view invariant, plus well-formedness
    /// of every stored document.
    pub open spec fn wf(self) -> bool {
        &&& hist_wf(self@)
        &&& forall|i: int| 0 <= i < self.history@.len() ==> (#[trigger] self.history@[i]).wf()
    }

    /// An empty history holding up to 50 snapshots.
    pub fn new() -> (h: ImageHistory)
        ensures
            h.wf(),
            h@.snapshots.len() == 0,
            h@.cursor == 0,
            h@.capacity == 50,
    {
        let h = ImageHistory { history: VecDeque::new(), current_index: 0, max_history: 50 };
        proof {
            assert(h@.snapshots =~= Seq::<DocView>::empty());
        }
        h
    }

    /// Records a snapshot: discards the redo branch, appends a copy of the
    /// document, and evicts the oldest snapshots once over capacity.
    pub fn push_state(&mut self, image_data: ImageData)
        requires
            old(self).wf(),
            image_data.wf(),
        ensures
            final(self).wf(),
            final(self)@ == push_spec(old(self)@, image_data@),
    {
        let ghost orig = self.history@;
        let ghost cursor = self.current_index as int;
        // Drop every snapshot at or after the cursor: the redo branch.
        while self.history.len() > self.current_index
            invariant
                self.current_index == old(self).current_index,
                self.max_history == old(self).max_history,
                self.current_index <= self.history@.len(),
                orig == old(self).history@,
                cursor == self.current_index as int,
                self.history@.len() <= orig.len(),
                self.history@ == orig.take(self.history@.len() as int),
            decreases self.history@.len(),
        {
            let ghost before = self.history@;
            self.history.pop_back();
            proof {
                assert(self.history@ =~= orig.take(self.history@.len() as int));
            }
        }
        proof {
            assert(self.history@ == orig.take(cursor));
        }
        self.history.push_back(image_data);
        self.current_index = self.history.len();
        let ghost trimmed = self.history@;
        // Evict the oldest snapshots until the buffer is within capacity.
        while self.history.len() > self.max_history
            invariant
                self.max_history == old(self).max_history,
                self.max_history >= 1,
                self.current_index as int == self.history@.len(),
                self.history@.len() <= trimmed.len(),
                self.history@ == trimmed.skip(trimmed.len() - self.history@.len()),
                self.history@.len() >= self.max_history as int
                    || self.history@.len() == trimmed.len(),
            decreases self.history@.len(),
        {
            self.history.pop_front();
            if self.current_index > 0 {
                self.current_index = self.current_index - 1;
            }
            proof {
                assert(self.history@ =~= trimmed.skip(trimmed.len() - self.history@.len()));
            }
        }
        proof {
            let hv = old(self)@;
            let dv = image_data@;
            let tv = hv.snapshots.take(hv.cursor).push(dv);
            assert(trimmed.map_values(|d: ImageData| d@) =~= tv);
            if hv.cursor + 1 <= hv.capacity {
                assert(self.history@ =~= trimmed);
                assert(final(self)@.snapshots =~= tv);
            } else {
                assert(self.history@.map_values(|d: ImageData| d@)
                    =~= tv.skip(hv.cursor + 1 - hv.capacity));
            }
            assert forall|i: int| 0 <= i < self.history@.len()
                implies (#[trigger] self.history@[i]).wf() by {
                if self.history@[i] == image_data {
                } else {
                    assert(self.history@[i] == trimmed[trimmed.len() - self.history@.len() + i]);
                }
            }
        }
    }

    /// Whether `undo` would step back: true only from the third recorded
    /// state on, so the first snapshot always stays reachable.
    pub fn can_undo(&self) -> (r: bool)
        ensures
            r == can_undo_spec(self@),
    {
        self.current_index > 1
    }

    /// Whether `redo` would step forward: true while undone states remain.
    pub fn can_redo(&self) -> (r: bool)
        ensures
            r == can_redo_spec(self@),
    {
        self.current_index < self.history.len()
    }

    /// Steps back one state and returns the snapshot to restore, or `None`
    /// (and no change) when there is nothing to step back to.
    pub fn undo(&mut self) -> (r: Option<&ImageData>)
        requires
            old(self).wf(),
        ensures
            final(self).wf(),
            final(self)@ == undo_state_spec(old(self)@),
            match r {
                Some(d) => undo_doc_spec(old(self)@) == Some(d@) && d.wf(),
                None => undo_doc_spec(old(self)@) is None,
            },
    {
        if self.current_index > 1 {
            self.current_index = self.current_index - 1;
            Some(&self.history[self.current_index - 1])
        } else {
            None
        }
    }

    /// Steps forward one state and returns the snapshot to restore, or
    /// `None` (and no change) when there is nothing to redo.
    pub fn redo(&mut self) -> (r: Option<&ImageData>)
        requires
            old(self).wf(),
        ensures
            final(self).wf(),
            final(self)@ == redo_state_spec(old(self)@),
            match r {
                Some(d) => redo_doc_spec(old(self)@) == Some(d@) && d.wf(),
                None => redo_doc_spec(old(self)@) is None,
            },
    {
        if self.current_index < self.history.len() {
            self.current_index = self.current_index + 1;
            Some(&self.history[self.current_index - 1])
        } else {
            None
        }
    }

    /// Empties the history, as on a new or freshly opened document.
    pub fn clear(&mut self)
        requires
            old(self).wf(),
        ensures
            final(self).wf(),
            final(self)@.snapshots.len() == 0,
            final(self)@.cursor == 0,
            final(self)@.capacity == old(self)@.capacity,
    {
        self.history.clear();
        self.current_index = 0;
        proof {
            assert(final(self)@.snapshots =~= Seq::<DocView>::empty());
        }
    }
}

/// Pushing then undoing then redoing restores exactly the pushed document:
/// whenever the undo is possible at all, the redo returns the pushed
/// snapshot and the history returns to its pre-undo state.
pub proof fn lemma_push_undo_redo(h: HistView, d: DocView)
    requires
        hist_wf(h),
    ensures
        hist_wf(push_spec(h, d)),
        can_undo_spec(push_spec(h, d)) ==> ({
            let h1 = push_spec(h, d);
            let h2 = undo_state_spec(h1);
            &&& redo_doc_spec(h2) == Some(d)
            &&& redo_state_spec(h2) == h1
        }),
{
    let h1 = push_spec(h, d);
    assert(h1.cursor == h1.snapshots.len());
    assert(h1.snapshots.last() == d);
}

/// A history never exceeds its capacity, and a push always leaves the
/// cursor at the end with the pushed snapshot last.
pub proof fn lemma_history_bounded(h: HistView, d: DocView)
    requires
        hist_wf(h),
    ensures
        hist_wf(push_spec(h, d)),
        push_spec(h, d).snapshots.len() <= h.capacity,
        push_spec(h, d).cursor == push_spec(h, d).snapshots.len(),
        push_spec(h, d).snapshots.last() == d,
{
}

/// From an empty history, undo is impossible after one push and possible
/// after two (given room for at least two snapshots).
pub proof fn lemma_can_undo_counts(h: HistView, d1: DocView, d2: DocView)
    requires
        hist_wf(h),
        h.snapshots.len() == 0,
        h.cursor == 0,
        h.capacity >= 2,
    ensures
        !can_undo_spec(h),
        !can_undo_spec(push_spec(h, d1)),
        can_undo_spec(push_spec(push_spec(h, d1), d2)),
{
}

} // verus!
