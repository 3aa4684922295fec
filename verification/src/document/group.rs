use vstd::prelude::*;
use crate::document::document::{
    DocumentNode, DocumentModel, GroupModel, IDocument, model_id, is_first_doc, first_doc, docs_view,
    doc_view, group_patch, patch_ok, docs_ok, docs_patch, docs_touched, without_doc, doc_patch,
    opt_doc_view, clone_docs, lemma_docs_view_index, lemma_docs_view_push, lemma_first_doc_found,
};
use crate::document::math::{Uuid, Vec2Bits, new_v4};
use crate::document::node::INode;
use crate::document::note::{
    rename_pair, visibility_pair, lock_pair, rename_patches, visibility_patches, lock_patches,
};
use crate::document::patch::{
    Patch, PatchPair, PatchView, AddChildPatch, RemoveChildPatch, MoveChildPatch, SetFoldPatch,
    RenameError, SetVisibilityError, SetLockError, SetFoldError, patch_pair_view, patch_target,
};

verus! {

/// Why a change to a group's children was refused.
#[derive(Debug, Clone, Copy, PartialEq, Eq, Structural)]
pub enum GroupError {
    ChildFound,
    ChildNotFound,
}

impl GroupError {
    /// What went wrong, in words.
    pub fn to_string(&self) -> (r: String)
        ensures
            r@ == match *self {
                GroupError::ChildFound => "Child already exists in this group."@,
                GroupError::ChildNotFound => "Child not found in this group."@,
            },
    {
        match self {
            GroupError::ChildFound => "Child already exists in this group.".to_owned(),
            GroupError::ChildNotFound => "Child not found in this group.".to_owned(),
        }
    }
}

/// A group of document nodes.
#[derive(Debug, Clone)]
pub struct Group {
    pub id: Uuid,
    pub is_visible: bool,
    pub is_locked: bool,
    pub is_folded: bool,
    pub name: String,
    pub position: Vec2Bits,
    pub children: Vec<DocumentNode>,
}

impl View for Group {
    type V = GroupModel;

    open spec fn view(&self) -> GroupModel {
        GroupModel {
            id: self.id,
            is_visible: self.is_visible,
            is_locked: self.is_locked,
            is_folded: self.is_folded,
            name: self.name@,
            position: self.position,
            children: docs_view(self.children@),
        }
    }
}

pub open spec fn fold_patches(id: Uuid, folded: bool, old: bool) -> (PatchView, PatchView) {
    (
        PatchView::SetFold(SetFoldPatch { target: id, folded }),
        PatchView::SetFold(SetFoldPatch { target: id, folded: old }),
    )
}

/// The patch that puts `child` after the others, and the one that takes
/// it out again.
pub open spec fn add_child_patches(id: Uuid, child: DocumentModel, position: usize) -> (PatchView, PatchView) {
    (
        PatchView::AddChild { target: id, child, position },
        PatchView::RemoveChild(RemoveChildPatch { target: id, child_id: model_id(child) }),
    )
}

/// The patch that takes a child out, and the one that puts it back where
/// it was.
pub open spec fn remove_child_patches(id: Uuid, child_id: Uuid, child: DocumentModel, index: usize) -> (PatchView, PatchView) {
    (
        PatchView::RemoveChild(RemoveChildPatch { target: id, child_id }),
        PatchView::AddChild { target: id, child, position: index },
    )
}

/// The patch that moves a child, and the one that moves it back.
pub open spec fn move_child_patches(id: Uuid, child_id: Uuid, position: usize, index: usize) -> (PatchView, PatchView) {
    (
        PatchView::MoveChild(MoveChildPatch { target: id, child_id, position }),
        PatchView::MoveChild(MoveChildPatch { target: id, child_id, position: index }),
    )
}

/// Where the first child with identifier `id` sits, if any.
fn find_child(cs: &Vec<DocumentNode>, id: Uuid) -> (r: Option<usize>)
    ensures
        match r {
            Some(i) => is_first_doc(docs_view(cs@), id, i as int) && first_doc(docs_view(cs@), id) == Some(i as int),
            None => first_doc(docs_view(cs@), id) is None
                && forall|j: int| 0 <= j < cs@.len() ==> model_id(#[trigger] docs_view(cs@)[j]) != id,
        },
{
    proof { lemma_docs_view_index(cs@); }
    let mut k: usize = 0;
    while k < cs.len()
        invariant
            k <= cs.len(),
            docs_view(cs@).len() == cs@.len(),
            forall|i: int| 0 <= i < cs@.len() ==> #[trigger] docs_view(cs@)[i] == doc_view(cs@[i]),
            forall|j: int| 0 <= j < k ==> model_id(#[trigger] docs_view(cs@)[j]) != id,
        decreases cs.len() - k,
    {
        if cs[k].id() == id {
            proof { lemma_first_doc_found(docs_view(cs@), id, k as int); }
            return Some(k);
        }
        k = k + 1;
    }
    None
}

/// The views of a list equal a sequence that agrees with them one by one.
proof fn lemma_docs_view_ext(a: Seq<DocumentNode>, b: Seq<DocumentModel>)
    requires
        a.len() == b.len(),
        forall|i: int| 0 <= i < a.len() ==> doc_view(#[trigger] a[i]) == b[i],
    ensures
        docs_view(a) == b,
{
    lemma_docs_view_index(a);
    assert(docs_view(a) =~= b);
}

/// Put `child` into `children` at `position`, or after the others.
fn place(children: &mut Vec<DocumentNode>, position: usize, child: DocumentNode)
    ensures
        docs_view(final(children)@) == (if position > docs_view(old(children)@).len() {
            docs_view(old(children)@).push(child@)
        } else {
            docs_view(old(children)@).insert(position as int, child@)
        }),
{
    proof { lemma_docs_view_index(old(children)@); }
    let ghost before = children@;
    if position > children.len() {
        proof { lemma_docs_view_push(children@, child); }
        children.push(child);
    } else {
        let ghost c = child;
        children.insert(position, child);
        proof {
            let want = docs_view(before).insert(position as int, c@);
            assert forall|i: int| 0 <= i < children@.len() implies doc_view(#[trigger] children@[i]) == want[i] by {
                if i < position {
                } else if i > position {
                    assert(children@[i] == before[i - 1]);
                }
            }
            lemma_docs_view_ext(children@, want);
        }
    }
}

/// Take the child at `index` out of `children`.
fn take(children: &mut Vec<DocumentNode>, index: usize) -> (r: DocumentNode)
    requires
        index < old(children)@.len(),
    ensures
        r@ == docs_view(old(children)@)[index as int],
        docs_view(final(children)@) == docs_view(old(children)@).remove(index as int),
{
    proof { lemma_docs_view_index(old(children)@); }
    let ghost before = children@;
    let r = children.remove(index);
    proof {
        let want = docs_view(before).remove(index as int);
        assert forall|i: int| 0 <= i < children@.len() implies doc_view(#[trigger] children@[i]) == want[i] by {
            if i >= index {
                assert(children@[i] == before[i + 1]);
            }
        }
        lemma_docs_view_ext(children@, want);
    }
    r
}

impl Group {
    /// A visible, unlocked, unfolded group; with a random identifier when
    /// none is given.
    pub fn new(id: Option<Uuid>, name: &str, position: Vec2Bits, children: Vec<DocumentNode>) -> (r: Group)
        ensures
            id matches Some(i) ==> r.id == i,
            r.is_visible,
            !r.is_locked,
            !r.is_folded,
            r.name@ == name@,
            r.position == position,
            r.children@ == children@,
    {
        let fresh = new_v4();
        let id = match id {
            Some(i) => i,
            None => fresh,
        };
        Group {
            id,
            is_visible: true,
            is_locked: false,
            is_folded: false,
            name: name.to_owned(),
            position,
            children,
        }
    }

    /// The patches that put `child` after the other children and take it
    /// out again; `ChildFound` when a child with its identifier is there.
    /// Nodes are plain values here, with no shared identity: a child is
    /// taken to be `child` itself when it carries `child`'s identifier, so
    /// a different node that reuses an identifier is refused as well.
    pub fn add_child(&self, child: DocumentNode) -> (r: Result<PatchPair, GroupError>)
        ensures
            match r {
                Ok(p) => first_doc(self@.children, model_id(child@)) is None
                    && patch_pair_view(p) == add_child_patches(self.id, child@, self.children@.len() as usize),
                Err(e) => first_doc(self@.children, model_id(child@)) is Some && e == GroupError::ChildFound,
            },
    {
        let child_id = child.id();
        match find_child(&self.children, child_id) {
            Some(_) => Err(GroupError::ChildFound),
            None => Ok((
                Patch::AddChild(AddChildPatch { target: self.id, child, position: self.children.len() }),
                Patch::RemoveChild(RemoveChildPatch { target: self.id, child_id }),
            )),
        }
    }

    /// The patches that take the children with identifier `child_id` out
    /// and put the first of them back where it was; `ChildNotFound` when
    /// there is none.
    pub fn remove_child(&self, child_id: Uuid) -> (r: Result<PatchPair, GroupError>)
        ensures
            match r {
                Ok(p) => first_doc(self@.children, child_id) matches Some(i) && patch_pair_view(p)
                    == remove_child_patches(self.id, child_id, self@.children[i], i as usize),
                Err(e) => first_doc(self@.children, child_id) is None && e == GroupError::ChildNotFound,
            },
    {
        proof { lemma_docs_view_index(self.children@); }
        match find_child(&self.children, child_id) {
            Some(index) => Ok((
                Patch::RemoveChild(RemoveChildPatch { target: self.id, child_id }),
                Patch::AddChild(AddChildPatch { target: self.id, child: self.children[index].clone(), position: index }),
            )),
            None => Err(GroupError::ChildNotFound),
        }
    }

    /// The patches that move the child with identifier `child_id` to
    /// `position` and back; `ChildNotFound` when there is none.
    pub fn move_child(&self, child_id: Uuid, position: usize) -> (r: Result<PatchPair, GroupError>)
        ensures
            match r {
                Ok(p) => first_doc(self@.children, child_id) matches Some(i) && patch_pair_view(p)
                    == move_child_patches(self.id, child_id, position, i as usize),
                Err(e) => first_doc(self@.children, child_id) is None && e == GroupError::ChildNotFound,
            },
    {
        match find_child(&self.children, child_id) {
            Some(index) => Ok((
                Patch::MoveChild(MoveChildPatch { target: self.id, child_id, position }),
                Patch::MoveChild(MoveChildPatch { target: self.id, child_id, position: index }),
            )),
            None => Err(GroupError::ChildNotFound),
        }
    }

    /// The patches that rename the group and restore its name; an error
    /// when the name would not change.
    pub fn rename(&self, new_name: &str) -> (r: Result<PatchPair, RenameError>)
        ensures
            match r {
                Ok(p) => self.name@ != new_name@ && patch_pair_view(p) == rename_patches(self.id, new_name@, self.name@),
                Err(e) => self.name@ == new_name@ && e == RenameError::Unchanged,
            },
    {
        rename_pair(self.id, &self.name, new_name)
    }

    /// The patches that show or hide the group and undo that; an error
    /// when the visibility would not change.
    pub fn set_visibility(&self, visible: bool) -> (r: Result<PatchPair, SetVisibilityError>)
        ensures
            match r {
                Ok(p) => self.is_visible != visible && patch_pair_view(p) == visibility_patches(self.id, visible, self.is_visible),
                Err(e) => self.is_visible == visible && e == SetVisibilityError::Unchanged,
            },
    {
        visibility_pair(self.id, self.is_visible, visible)
    }

    /// The patches that lock or unlock the group and undo that; an error
    /// when the lock would not change.
    pub fn set_lock(&self, lock: bool) -> (r: Result<PatchPair, SetLockError>)
        ensures
            match r {
                Ok(p) => self.is_locked != lock && patch_pair_view(p) == lock_patches(self.id, lock, self.is_locked),
                Err(e) => self.is_locked == lock && e == SetLockError::Unchanged,
            },
    {
        lock_pair(self.id, self.is_locked, lock)
    }

    /// The patches that fold or unfold the group and undo that; an error
    /// when the fold would not change.
    pub fn set_fold(&self, folded: bool) -> (r: Result<PatchPair, SetFoldError>)
        ensures
            match r {
                Ok(p) => self.is_folded != folded && patch_pair_view(p) == fold_patches(self.id, folded, self.is_folded),
                Err(e) => self.is_folded == folded && e == SetFoldError::Unchanged,
            },
    {
        if self.is_folded == folded {
            Err(SetFoldError::Unchanged)
        } else {
            Ok((
                Patch::SetFold(SetFoldPatch { target: self.id, folded }),
                Patch::SetFold(SetFoldPatch { target: self.id, folded: self.is_folded }),
            ))
        }
    }

    fn with_children(&self, children: Vec<DocumentNode>) -> (r: Group)
        ensures
            r@ == (GroupModel { children: docs_view(children@), ..self@ }),
    {
        Group {
            id: self.id,
            is_visible: self.is_visible,
            is_locked: self.is_locked,
            is_folded: self.is_folded,
            name: self.name.clone(),
            position: self.position,
            children,
        }
    }

    /// The group after a patch: a patch meant for the group changes it; any
    /// other goes to each child, and the group comes back with the changed
    /// children when some child took it.
    pub fn patch(&self, patch: &Patch) -> (r: Option<Group>)
        requires
            patch_ok(DocumentModel::Group(self@), patch@),
        ensures
            match r {
                Some(g) => group_patch(self@, patch@) == Some(g@),
                None => group_patch(self@, patch@) is None,
            },
        decreases self,
    {
        proof { lemma_docs_view_index(self.children@); }
        if patch.target() == self.id {
            match patch {
                Patch::Rename(p) => {
                    let mut g = self.with_children(clone_docs(&self.children));
                    g.name = p.name.clone();
                    Some(g)
                },
                Patch::SetVisibility(p) => {
                    let mut g = self.with_children(clone_docs(&self.children));
                    g.is_visible = p.visibility;
                    Some(g)
                },
                Patch::SetLock(p) => {
                    let mut g = self.with_children(clone_docs(&self.children));
                    g.is_locked = p.lock;
                    Some(g)
                },
                Patch::SetFold(p) => {
                    let mut g = self.with_children(clone_docs(&self.children));
                    g.is_folded = p.folded;
                    Some(g)
                },
                Patch::AddChild(p) => {
                    let mut children = clone_docs(&self.children);
                    place(&mut children, p.position, p.child.clone());
                    Some(self.with_children(children))
                },
                Patch::RemoveChild(p) => {
                    let mut kept: Vec<DocumentNode> = Vec::new();
                    let ghost vs = docs_view(self.children@);
                    let mut k: usize = 0;
                    while k < self.children.len()
                        invariant
                            k <= self.children.len(),
                            vs == docs_view(self.children@),
                            vs.len() == self.children@.len(),
                            forall|i: int| 0 <= i < self.children@.len() ==> #[trigger] vs[i] == doc_view(self.children@[i]),
                            docs_view(kept@) == without_doc(vs.subrange(0, k as int), p.child_id),
                        decreases self.children.len() - k,
                    {
                        assert(vs.subrange(0, k + 1).drop_last() =~= vs.subrange(0, k as int));
                        if self.children[k].id() != p.child_id {
                            let child = self.children[k].clone();
                            proof { lemma_docs_view_push(kept@, child); }
                            kept.push(child);
                        }
                        k = k + 1;
                    }
                    assert(vs.subrange(0, self.children.len() as int) =~= vs);
                    Some(self.with_children(kept))
                },
                Patch::MoveChild(p) => {
                    let mut children = clone_docs(&self.children);
                    proof { lemma_docs_view_index(children@); }
                    let index = match find_child(&children, p.child_id) {
                        Some(i) => i,
                        None => {
                            return None;
                        },
                    };
                    let child = take(&mut children, index);
                    place(&mut children, p.position, child);
                    Some(self.with_children(children))
                },
            }
        } else {
            let ghost vs = docs_view(self.children@);
            let mut children: Vec<DocumentNode> = Vec::new();
            let mut mutated = false;
            let mut k: usize = 0;
            while k < self.children.len()
                invariant
                    k <= self.children.len(),
                    vs == docs_view(self.children@),
                    vs.len() == self.children@.len(),
                    forall|i: int| 0 <= i < self.children@.len() ==> #[trigger] vs[i] == doc_view(self.children@[i]),
                    docs_ok(vs, patch@),
                    docs_view(children@) == docs_patch(vs.subrange(0, k as int), patch@),
                    mutated == docs_touched(vs.subrange(0, k as int), patch@),
                decreases self.children.len() - k,
            {
                proof {
                    lemma_docs_step(vs, k as int, patch@);
                    lemma_docs_ok(vs, patch@, k as int);
                }
                let next = match self.children[k].patch(patch) {
                    Some(child) => {
                        mutated = true;
                        child
                    },
                    None => self.children[k].clone(),
                };
                proof { lemma_docs_view_push(children@, next); }
                children.push(next);
                k = k + 1;
            }
            assert(vs.subrange(0, self.children.len() as int) =~= vs);
            if mutated {
                Some(self.with_children(children))
            } else {
                None
            }
        }
    }
}

proof fn lemma_docs_step(vs: Seq<DocumentModel>, k: int, p: PatchView)
    requires
        0 <= k < vs.len(),
    ensures
        docs_patch(vs.subrange(0, k + 1), p) == docs_patch(vs.subrange(0, k), p).push(
            match doc_patch(vs[k], p) {
                Some(y) => y,
                None => vs[k],
            },
        ),
        docs_touched(vs.subrange(0, k + 1), p) == (docs_touched(vs.subrange(0, k), p)
            || doc_patch(vs[k], p) is Some),
{
    assert(vs.subrange(0, k + 1).subrange(0, k) =~= vs.subrange(0, k));
}

proof fn lemma_docs_ok(vs: Seq<DocumentModel>, p: PatchView, i: int)
    requires
        docs_ok(vs, p),
        0 <= i < vs.len(),
    ensures
        patch_ok(vs[i], p),
    decreases vs.len(),
{
    if i < vs.len() - 1 {
        lemma_docs_ok(vs.subrange(0, vs.len() - 1), p, i);
    }
}

impl IDocument for Group {
    fn position(&self) -> (r: Vec2Bits)
        ensures
            r == self.position,
    {
        self.position
    }
}

impl INode for Group {
    fn is_visible(&self) -> (r: bool)
        ensures
            r == self.is_visible,
    {
        self.is_visible
    }

    fn is_locked(&self) -> (r: bool)
        ensures
            r == self.is_locked,
    {
        self.is_locked
    }

    fn is_folded(&self) -> (r: bool)
        ensures
            r == self.is_folded,
    {
        self.is_folded
    }
}

} // verus!
