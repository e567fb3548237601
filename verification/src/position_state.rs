//! Bookkeeping of the debounced saving of the main window's position.
//!
//! Every geometry change bumps a revision; a single background writer saves the
//! latest revision after a quiet period; explicit saves (quick positions, exit)
//! bump the revision too, so a writer that captured an older geometry discards it.
use vstd::prelude::*;
use crate::geometry::PhysicalPosition;

verus! {

/// A saved main window position, in physical pixels.
#[derive(Debug, Clone, Copy, PartialEq, Eq, Structural)]
pub struct SavedMainWindowPosition {
    pub x: i32,
    pub y: i32,
}

impl From<PhysicalPosition> for SavedMainWindowPosition {
    fn from(position: PhysicalPosition) -> (r: Self) {
        SavedMainWindowPosition { x: position.x, y: position.y }
    }
}

impl vstd::std_specs::convert::FromSpecImpl<PhysicalPosition> for SavedMainWindowPosition {
    open spec fn obeys_from_spec() -> bool {
        true
    }

    open spec fn from_spec(position: PhysicalPosition) -> Self {
        SavedMainWindowPosition { x: position.x, y: position.y }
    }
}

impl From<SavedMainWindowPosition> for PhysicalPosition {
    fn from(saved: SavedMainWindowPosition) -> (r: Self) {
        PhysicalPosition { x: saved.x, y: saved.y }
    }
}

impl vstd::std_specs::convert::FromSpecImpl<SavedMainWindowPosition> for PhysicalPosition {
    open spec fn obeys_from_spec() -> bool {
        true
    }

    open spec fn from_spec(saved: SavedMainWindowPosition) -> Self {
        PhysicalPosition { x: saved.x, y: saved.y }
    }
}

/// The state of position saving.
#[derive(Debug, Clone, Copy, PartialEq, Eq, Structural)]
pub struct MainPositionSaveState {
    pub revision: u64,
    pub persisted_revision: u64,
    pub writer_active: bool,
    pub ready: bool,
    pub last_saved: Option<SavedMainWindowPosition>,
}

/// The revision after `r` (wrapping).
pub open spec fn next_revision(r: u64) -> u64 {
    if r == u64::MAX {
        0
    } else {
        (r + 1) as u64
    }
}

impl MainPositionSaveState {
    /// A fresh state: nothing tracked yet, not ready, no writer.
    pub fn new(last_saved: Option<SavedMainWindowPosition>) -> (r: Self)
        ensures
            r == (MainPositionSaveState {
                revision: 0,
                persisted_revision: 0,
                writer_active: false,
                ready: false,
                last_saved,
            }),
    {
        MainPositionSaveState {
            revision: 0,
            persisted_revision: 0,
            writer_active: false,
            ready: false,
            last_saved,
        }
    }

    /// Records a geometry change.  Returns whether a writer must be started: only
    /// once tracking is ready, and only when no writer is running already.
    pub fn mark_dirty(&mut self) -> (start_writer: bool)
        ensures
            (*final(self), start_writer) == marked_dirty(*old(self)),
    {
        if !self.ready {
            return false;
        }
        self.revision = self.revision.wrapping_add(1);
        if self.writer_active {
            false
        } else {
            self.writer_active = true;
            true
        }
    }

    /// Ends a writer whose save failed: it keeps running only if a newer revision
    /// arrived meanwhile.  Returns whether it should retry.
    pub fn finish_writer_after_error(&mut self, attempted_revision: u64) -> (retry: bool)
        ensures
            retry == (old(self).revision != attempted_revision),
            *final(self) == (MainPositionSaveState { writer_active: retry, ..*old(self) }),
    {
        let should_retry = self.revision != attempted_revision;
        self.writer_active = should_retry;
        should_retry
    }

    /// Starts tracking geometry changes.
    pub fn set_ready(&mut self)
        ensures
            *final(self) == (MainPositionSaveState { ready: true, ..*old(self) }),
    {
        self.ready = true;
    }

    /// Invalidates every position captured so far; returns the new revision.
    pub fn invalidate_capture(&mut self) -> (revision: u64)
        ensures
            revision == next_revision(old(self).revision),
            *final(self) == (MainPositionSaveState { revision, ..*old(self) }),
    {
        self.revision = self.revision.wrapping_add(1);
        self.revision
    }

    /// Records that `saved` was written for `revision`.
    pub fn record_saved(&mut self, revision: u64, saved: SavedMainWindowPosition)
        ensures
            *final(self) == (MainPositionSaveState {
                last_saved: Some(saved),
                persisted_revision: revision,
                ..*old(self)
            }),
    {
        self.last_saved = Some(saved);
        self.persisted_revision = revision;
    }

    /// The first step of a debounced save: `None` (and the writer stops) when the
    /// latest revision is saved already, otherwise the revision to capture.
    pub fn pending_revision(&mut self) -> (r: Option<u64>)
        ensures
            old(self).persisted_revision == old(self).revision ==> r is None && *final(self) == (
            MainPositionSaveState { writer_active: false, ..*old(self) }),
            old(self).persisted_revision != old(self).revision ==> r == Some(old(self).revision)
                && *final(self) == *old(self),
    {
        if self.persisted_revision == self.revision {
            self.writer_active = false;
            None
        } else {
            Some(self.revision)
        }
    }

    /// Whether a capture taken for `revision` is still the latest geometry.
    pub fn is_current(&self, revision: u64) -> (r: bool)
        ensures
            r == (self.revision == revision),
    {
        self.revision == revision
    }

    /// Records a successful debounced save of `revision`; the writer stops.
    pub fn finish_debounced_save(&mut self, revision: u64, saved: SavedMainWindowPosition)
        ensures
            *final(self) == (MainPositionSaveState {
                last_saved: Some(saved),
                persisted_revision: revision,
                writer_active: false,
                ..*old(self)
            }),
    {
        self.last_saved = Some(saved);
        self.persisted_revision = revision;
        self.writer_active = false;
    }
}

/// The state after a geometry change, and whether it starts the writer.
pub open spec fn marked_dirty(s: MainPositionSaveState) -> (MainPositionSaveState, bool) {
    if !s.ready {
        (s, false)
    } else {
        (
            MainPositionSaveState {
                revision: next_revision(s.revision),
                writer_active: true,
                ..s
            },
            !s.writer_active,
        )
    }
}

/// At most one writer runs: once a change has started the writer, no further
/// change starts another until the writer stops, while every change still bumps
/// the revision.
pub proof fn lemma_single_writer(s: MainPositionSaveState)
    ensures
        !marked_dirty(marked_dirty(s).0).1,
        s.ready ==> marked_dirty(marked_dirty(s).0).0.revision == next_revision(
            next_revision(s.revision),
        ),
{
}

/// A failed writer retries exactly when a change arrived after the revision it
/// tried to save; otherwise the next change starts a new writer.
pub proof fn lemma_writer_error_retry(s: MainPositionSaveState, attempted: u64)
    requires
        s.ready,
    ensures
        s.revision == attempted ==> marked_dirty(
            MainPositionSaveState { writer_active: false, ..s },
        ).1,
{
}

} // verus!
