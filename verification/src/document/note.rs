use vstd::prelude::*;
use crate::document::document::{IDocument, NoteModel, note_patch};
use crate::document::math::{Uuid, Vec2Bits, new_v4};
use crate::document::node::INode;
use crate::document::patch::{
    Patch, PatchPair, PatchView, RenamePatch, SetVisibilityPatch, SetLockPatch, RenameError,
    SetVisibilityError, SetLockError, patch_pair_view,
};
use crate::text::same_text;

verus! {

/// A text note placed on the document.
#[derive(Debug, Clone)]
pub struct Note {
    pub id: Uuid,
    pub is_visible: bool,
    pub is_locked: bool,
    pub note: String,
    pub position: Vec2Bits,
}

impl View for Note {
    type V = NoteModel;

    open spec fn view(&self) -> NoteModel {
        NoteModel {
            id: self.id,
            is_visible: self.is_visible,
            is_locked: self.is_locked,
            note: self.note@,
            position: self.position,
        }
    }
}

/// The patch that renames a node, and the one that restores its name.
pub open spec fn rename_patches(id: Uuid, name: Seq<char>, old: Seq<char>) -> (PatchView, PatchView) {
    (PatchView::Rename { target: id, name }, PatchView::Rename { target: id, name: old })
}

pub open spec fn visibility_patches(id: Uuid, visible: bool, old: bool) -> (PatchView, PatchView) {
    (
        PatchView::SetVisibility(SetVisibilityPatch { target: id, visibility: visible }),
        PatchView::SetVisibility(SetVisibilityPatch { target: id, visibility: old }),
    )
}

pub open spec fn lock_patches(id: Uuid, lock: bool, old: bool) -> (PatchView, PatchView) {
    (
        PatchView::SetLock(SetLockPatch { target: id, lock }),
        PatchView::SetLock(SetLockPatch { target: id, lock: old }),
    )
}

/// Rename patches for a node, unless the name would not change.
pub(crate) fn rename_pair(id: Uuid, current: &String, new_name: &str) -> (r: Result<PatchPair, RenameError>)
    ensures
        match r {
            Ok(p) => current@ != new_name@ && patch_pair_view(p) == rename_patches(id, new_name@, current@),
            Err(e) => current@ == new_name@ && e == RenameError::Unchanged,
        },
{
    if same_text(current.as_str(), new_name) {
        Err(RenameError::Unchanged)
    } else {
        Ok((
            Patch::Rename(RenamePatch { target: id, name: new_name.to_owned() }),
            Patch::Rename(RenamePatch { target: id, name: current.clone() }),
        ))
    }
}

/// Visibility patches for a node, unless the visibility would not change.
pub(crate) fn visibility_pair(id: Uuid, current: bool, visible: bool) -> (r: Result<PatchPair, SetVisibilityError>)
    ensures
        match r {
            Ok(p) => current != visible && patch_pair_view(p) == visibility_patches(id, visible, current),
            Err(e) => current == visible && e == SetVisibilityError::Unchanged,
        },
{
    if current == visible {
        Err(SetVisibilityError::Unchanged)
    } else {
        Ok((
            Patch::SetVisibility(SetVisibilityPatch { target: id, visibility: visible }),
            Patch::SetVisibility(SetVisibilityPatch { target: id, visibility: current }),
        ))
    }
}

/// Lock patches for a node, unless the lock would not change.
pub(crate) fn lock_pair(id: Uuid, current: bool, lock: bool) -> (r: Result<PatchPair, SetLockError>)
    ensures
        match r {
            Ok(p) => current != lock && patch_pair_view(p) == lock_patches(id, lock, current),
            Err(e) => current == lock && e == SetLockError::Unchanged,
        },
{
    if current == lock {
        Err(SetLockError::Unchanged)
    } else {
        Ok((
            Patch::SetLock(SetLockPatch { target: id, lock }),
            Patch::SetLock(SetLockPatch { target: id, lock: current }),
        ))
    }
}

impl Note {
    /// A visible, unlocked note; with a random identifier when none is
    /// given.
    pub fn new(id: Option<Uuid>, note: &str, position: Vec2Bits) -> (r: Note)
        ensures
            id matches Some(i) ==> r.id == i,
            r.is_visible,
            !r.is_locked,
            r.note@ == note@,
            r.position == position,
    {
        let fresh = new_v4();
        let id = match id {
            Some(i) => i,
            None => fresh,
        };
        Note { id, is_visible: true, is_locked: false, note: note.to_owned(), position }
    }

    /// The patches that rename the note and restore its name; an error when
    /// the name would not change.
    pub fn rename(&self, new_name: &str) -> (r: Result<PatchPair, RenameError>)
        ensures
            match r {
                Ok(p) => self.note@ != new_name@ && patch_pair_view(p) == rename_patches(self.id, new_name@, self.note@),
                Err(e) => self.note@ == new_name@ && e == RenameError::Unchanged,
            },
    {
        rename_pair(self.id, &self.note, new_name)
    }

    /// The patches that show or hide the note and undo that; an error when
    /// the visibility would not change.
    pub fn set_visibility(&self, visible: bool) -> (r: Result<PatchPair, SetVisibilityError>)
        ensures
            match r {
                Ok(p) => self.is_visible != visible && patch_pair_view(p) == visibility_patches(self.id, visible, self.is_visible),
                Err(e) => self.is_visible == visible && e == SetVisibilityError::Unchanged,
            },
    {
        visibility_pair(self.id, self.is_visible, visible)
    }

    /// The patches that lock or unlock the note and undo that; an error when
    /// the lock would not change.
    pub fn set_lock(&self, lock: bool) -> (r: Result<PatchPair, SetLockError>)
        ensures
            match r {
                Ok(p) => self.is_locked != lock && patch_pair_view(p) == lock_patches(self.id, lock, self.is_locked),
                Err(e) => self.is_locked == lock && e == SetLockError::Unchanged,
            },
    {
        lock_pair(self.id, self.is_locked, lock)
    }

    /// The note after a patch meant for it; `None` for any other patch.
    pub fn patch(&self, patch: &Patch) -> (r: Option<Note>)
        ensures
            match r {
                Some(n) => note_patch(self@, patch@) == Some(n@),
                None => note_patch(self@, patch@) is None,
            },
    {
        if patch.target() != self.id {
            return None;
        }
        match patch {
            Patch::Rename(p) => Some(Note {
                id: self.id,
                is_visible: self.is_visible,
                is_locked: self.is_locked,
                note: p.name.clone(),
                position: self.position,
            }),
            Patch::SetVisibility(p) => Some(Note {
                id: self.id,
                is_visible: p.visibility,
                is_locked: self.is_locked,
                note: self.note.clone(),
                position: self.position,
            }),
            Patch::SetLock(p) => Some(Note {
                id: self.id,
                is_visible: self.is_visible,
                is_locked: p.lock,
                note: self.note.clone(),
                position: self.position,
            }),
            _ => None,
        }
    }
}

impl IDocument for Note {
    fn position(&self) -> (r: Vec2Bits)
        ensures
            r == self.position,
    {
        self.position
    }
}

impl INode for Note {
    fn is_visible(&self) -> (r: bool)
        ensures
            r == self.is_visible,
    {
        self.is_visible
    }

    fn is_locked(&self) -> (r: bool)
        ensures
            r == self.is_locked,
    {
        self.is_locked
    }
}

} // verus!
