//! Patches: the changes a node takes, each naming its target node.
use vstd::prelude::*;
use crate::document::document::{DocumentNode, DocumentModel};
use crate::document::math::{Vec2, Extent2, Uuid};

verus! {

/// Move the target to a position.
#[derive(Debug, Clone, Copy, PartialEq, Eq, Structural)]
pub struct Translate {
    pub target: Uuid,
    pub position: Vec2,
}

/// Give the target a size.
#[derive(Debug, Clone, Copy, PartialEq, Eq, Structural)]
pub struct Resize {
    pub target: Uuid,
    pub size: Extent2,
}

/// Show or hide the target.
#[derive(Debug, Clone, Copy, PartialEq, Eq, Structural)]
pub struct SetVisible {
    pub target: Uuid,
    pub visibility: bool,
}

/// Lock or unlock the target.
#[derive(Debug, Clone, Copy, PartialEq, Eq, Structural)]
pub struct SetLock {
    pub target: Uuid,
    pub locked: bool,
}

/// Fold or unfold the target.
#[derive(Debug, Clone, Copy, PartialEq, Eq, Structural)]
pub struct SetFold {
    pub target: Uuid,
    pub folded: bool,
}

/// Give the target a name.
#[derive(Debug, Clone)]
pub struct Rename {
    pub target: Uuid,
    pub name: String,
}

/// Give a document node a name.
#[derive(Debug, Clone)]
pub struct RenamePatch {
    pub target: Uuid,
    pub name: String,
}

/// Show or hide a document node.
#[derive(Debug, Clone, Copy, PartialEq, Eq, Structural)]
pub struct SetVisibilityPatch {
    pub target: Uuid,
    pub visibility: bool,
}

/// Lock or unlock a document node.
#[derive(Debug, Clone, Copy, PartialEq, Eq, Structural)]
pub struct SetLockPatch {
    pub target: Uuid,
    pub lock: bool,
}

/// Fold or unfold a group.
#[derive(Debug, Clone, Copy, PartialEq, Eq, Structural)]
pub struct SetFoldPatch {
    pub target: Uuid,
    pub folded: bool,
}

/// Put a child into a group at a position, or after the others when the
/// position lies past them.
#[derive(Debug, Clone)]
pub struct AddChildPatch {
    pub target: Uuid,
    pub child: DocumentNode,
    pub position: usize,
}

/// Take the children with an identifier out of a group.
#[derive(Debug, Clone, Copy, PartialEq, Eq, Structural)]
pub struct RemoveChildPatch {
    pub target: Uuid,
    pub child_id: Uuid,
}

/// Move a child of a group to a position, or after the others when the
/// position lies past them.
#[derive(Debug, Clone, Copy, PartialEq, Eq, Structural)]
pub struct MoveChildPatch {
    pub target: Uuid,
    pub child_id: Uuid,
    pub position: usize,
}

/// Any patch of a document node.
#[derive(Debug, Clone)]
pub enum Patch {
    Rename(RenamePatch),
    SetVisibility(SetVisibilityPatch),
    SetLock(SetLockPatch),
    SetFold(SetFoldPatch),
    AddChild(AddChildPatch),
    RemoveChild(RemoveChildPatch),
    MoveChild(MoveChildPatch),
}

/// A patch and the patch that undoes it.
pub type PatchPair = (Patch, Patch);

/// A patch as values.
pub enum PatchView {
    Rename { target: Uuid, name: Seq<char> },
    SetVisibility(SetVisibilityPatch),
    SetLock(SetLockPatch),
    SetFold(SetFoldPatch),
    AddChild { target: Uuid, child: DocumentModel, position: usize },
    RemoveChild(RemoveChildPatch),
    MoveChild(MoveChildPatch),
}

impl View for Patch {
    type V = PatchView;

    open spec fn view(&self) -> PatchView {
        match self {
            Patch::Rename(p) => PatchView::Rename { target: p.target, name: p.name@ },
            Patch::SetVisibility(p) => PatchView::SetVisibility(*p),
            Patch::SetLock(p) => PatchView::SetLock(*p),
            Patch::SetFold(p) => PatchView::SetFold(*p),
            Patch::AddChild(p) => PatchView::AddChild { target: p.target, child: p.child@, position: p.position },
            Patch::RemoveChild(p) => PatchView::RemoveChild(*p),
            Patch::MoveChild(p) => PatchView::MoveChild(*p),
        }
    }
}

/// The node a patch is meant for.
pub open spec fn patch_target(p: PatchView) -> Uuid {
    match p {
        PatchView::Rename { target, .. } => target,
        PatchView::SetVisibility(p) => p.target,
        PatchView::SetLock(p) => p.target,
        PatchView::SetFold(p) => p.target,
        PatchView::AddChild { target, .. } => target,
        PatchView::RemoveChild(p) => p.target,
        PatchView::MoveChild(p) => p.target,
    }
}

/// A patch pair as values.
pub open spec fn patch_pair_view(r: PatchPair) -> (PatchView, PatchView) {
    (r.0@, r.1@)
}

impl Patch {
    /// The node this patch is meant for.
    pub fn target(&self) -> (r: Uuid)
        ensures
            r == patch_target(self@),
    {
        match self {
            Patch::Rename(p) => p.target,
            Patch::SetVisibility(p) => p.target,
            Patch::SetLock(p) => p.target,
            Patch::SetFold(p) => p.target,
            Patch::AddChild(p) => p.target,
            Patch::RemoveChild(p) => p.target,
            Patch::MoveChild(p) => p.target,
        }
    }
}

/// A rename that would keep the name.
#[derive(Debug, Clone, Copy, PartialEq, Eq, Structural)]
pub enum RenameError {
    Unchanged,
}

/// A visibility change that would keep the visibility.
#[derive(Debug, Clone, Copy, PartialEq, Eq, Structural)]
pub enum SetVisibilityError {
    Unchanged,
}

/// A lock change that would keep the lock.
#[derive(Debug, Clone, Copy, PartialEq, Eq, Structural)]
pub enum SetLockError {
    Unchanged,
}

/// A fold change that would keep the fold.
#[derive(Debug, Clone, Copy, PartialEq, Eq, Structural)]
pub enum SetFoldError {
    Unchanged,
}

} // verus!
