use vstd::prelude::*;
use crate::document::document::IDocument;
use crate::document::math::{Uuid, Vec2Bits, new_v4};
use crate::document::patch::{Patch, PatchView, RenamePatch};

verus! {

/// A named mark placed on the document.
#[derive(Debug, Clone)]
pub struct Label {
    pub id: Uuid,
    pub name: String,
    pub position: Vec2Bits,
}

/// A label as values.
pub struct LabelModel {
    pub id: Uuid,
    pub name: Seq<char>,
    pub position: Vec2Bits,
}

impl View for Label {
    type V = LabelModel;

    open spec fn view(&self) -> LabelModel {
        LabelModel { id: self.id, name: self.name@, position: self.position }
    }
}

/// What a patch does to a label: a new name when the patch renames this
/// very label, `None` for any other patch.
pub open spec fn label_patch(l: LabelModel, p: PatchView) -> Option<LabelModel> {
    match p {
        PatchView::Rename { target, name } => if target == l.id {
            Some(LabelModel { name, ..l })
        } else {
            None
        },
        _ => None,
    }
}

impl Label {
    /// A label; with a random identifier when none is given.
    pub fn new(id: Option<Uuid>, name: &str, position: Vec2Bits) -> (r: Label)
        ensures
            id matches Some(i) ==> r.id == i,
            r.name@ == name@,
            r.position == position,
    {
        let fresh = new_v4();
        let id = match id {
            Some(i) => i,
            None => fresh,
        };
        Label { id, name: name.to_owned(), position }
    }

    /// The label's identifier.
    pub fn id(&self) -> (r: Uuid)
        ensures
            r == self.id,
    {
        self.id
    }

    /// The patch that gives the label a new name, and the one that gives
    /// it back its current name.
    pub fn rename(&self, new_name: &str) -> (r: (RenamePatch, RenamePatch))
        ensures
            r.0.target == self.id,
            r.0.name@ == new_name@,
            r.1.target == self.id,
            r.1.name@ == self.name@,
    {
        (
            RenamePatch { target: self.id, name: new_name.to_owned() },
            RenamePatch { target: self.id, name: self.name.clone() },
        )
    }

    /// The label after a patch that renames it; `None` for any other patch.
    pub fn patch(&self, patch: &Patch) -> (r: Option<Box<Label>>)
        ensures
            match r {
                Some(l) => label_patch(self@, patch@) == Some(l@),
                None => label_patch(self@, patch@) is None,
            },
    {
        if patch.target() != self.id {
            return None;
        }
        match patch {
            Patch::Rename(p) => Some(Box::new(Label {
                id: self.id,
                name: p.name.clone(),
                position: self.position,
            })),
            _ => None,
        }
    }
}

impl IDocument for Label {
    fn position(&self) -> (r: Vec2Bits)
        ensures
            r == self.position,
    {
        self.position
    }
}

/// Renaming a label and then applying the second patch of the pair gives
/// back a label equal to the first.
pub proof fn lemma_label_rename_revert(l: LabelModel, name: Seq<char>)
    ensures
        ({
            let renamed = LabelModel { name, ..l };
            &&& label_patch(l, PatchView::Rename { target: l.id, name }) == Some(renamed)
            &&& label_patch(renamed, PatchView::Rename { target: l.id, name: l.name }) == Some(l)
        }),
{
}

} // verus!
