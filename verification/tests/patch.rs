use pxlr::document::document::{DocumentNode, Node};
use pxlr::document::group::{Group, GroupError};
use pxlr::document::label::Label;
use pxlr::document::math::{Uuid, Vec2Bits};
use pxlr::document::node::INode;
use pxlr::document::note::Note;
use pxlr::document::patch::{
    MoveChildPatch, Patch, RemoveChildPatch, RenameError, RenamePatch, SetFoldError, SetLockError,
    SetLockPatch,
    SetVisibilityError,
};

fn at(x: f32, y: f32) -> Vec2Bits {
    Vec2Bits { x: x.to_bits(), y: y.to_bits() }
}

fn note(id: u128, text: &str) -> DocumentNode {
    DocumentNode::Note(Note::new(Some(Uuid::from_u128(id)), text, at(0., 0.)))
}

fn ids(g: &Group) -> Vec<u128> {
    g.children.iter().map(|c| c.id().value).collect()
}

fn group_of(d: Option<Group>) -> Group {
    d.expect("Not a group")
}

#[test]
fn note_new_and_setters() {
    let n = Note::new(Some(Uuid::from_u128(1)), "Hello", at(1.5, 2.));
    assert_eq!(n.id, Uuid::from_u128(1));
    assert!(n.is_visible() && !n.is_locked());
    assert_eq!(n.position, at(1.5, 2.));
    assert_eq!(n.rename("Hello").err(), Some(RenameError::Unchanged));
    assert_eq!(n.set_visibility(true).err(), Some(SetVisibilityError::Unchanged));
    assert_eq!(n.set_lock(false).err(), Some(SetLockError::Unchanged));
    let (p, u) = n.rename("Bye").unwrap();
    let renamed = n.patch(&p).unwrap();
    assert_eq!(renamed.note, "Bye");
    assert_eq!(renamed.patch(&u).unwrap().note, "Hello");
    let (p, u) = n.set_lock(true).unwrap();
    let locked = n.patch(&p).unwrap();
    assert!(locked.is_locked);
    assert!(!locked.patch(&u).unwrap().is_locked);
    let other = Patch::Rename(RenamePatch { target: Uuid::from_u128(2), name: "X".into() });
    assert!(n.patch(&other).is_none());
    let random = Note::new(None, "Fresh", at(0., 0.));
    assert_eq!(random.note, "Fresh");
}

#[test]
fn group_children_patches_revert() {
    let g = Group::new(Some(Uuid::from_u128(1)), "Root", at(0., 0.), vec![note(2, "a"), note(3, "b"), note(4, "c")]);
    assert!(g.is_visible && !g.is_locked && !g.is_folded);
    assert_eq!(g.add_child(note(3, "again")).err(), Some(GroupError::ChildFound));
    assert_eq!(g.remove_child(Uuid::from_u128(9)).err(), Some(GroupError::ChildNotFound));
    assert_eq!(g.move_child(Uuid::from_u128(9), 0).err(), Some(GroupError::ChildNotFound));

    let (add, undo) = g.add_child(note(5, "d")).unwrap();
    let added = group_of(g.patch(&add));
    assert_eq!(ids(&added), vec![2, 3, 4, 5]);
    assert_eq!(ids(&group_of(added.patch(&undo))), vec![2, 3, 4]);

    let (rm, undo) = g.remove_child(Uuid::from_u128(3)).unwrap();
    let removed = group_of(g.patch(&rm));
    assert_eq!(ids(&removed), vec![2, 4]);
    assert_eq!(ids(&group_of(removed.patch(&undo))), vec![2, 3, 4]);

    let (mv, undo) = g.move_child(Uuid::from_u128(2), 2).unwrap();
    let moved = group_of(g.patch(&mv));
    assert_eq!(ids(&moved), vec![3, 4, 2]);
    assert_eq!(ids(&group_of(moved.patch(&undo))), vec![2, 3, 4]);

    let far = Patch::MoveChild(MoveChildPatch { target: Uuid::from_u128(1), child_id: Uuid::from_u128(3), position: 99 });
    assert_eq!(ids(&group_of(g.patch(&far))), vec![2, 4, 3]);
}

#[test]
fn group_setters_and_nested_patches() {
    let inner = Group::new(Some(Uuid::from_u128(10)), "Inner", at(0., 0.), vec![note(11, "deep")]);
    let g = Group::new(Some(Uuid::from_u128(1)), "Root", at(0., 0.), vec![note(2, "top"), DocumentNode::Group(inner)]);
    assert_eq!(g.set_fold(false).err(), Some(SetFoldError::Unchanged));
    let (fold, unfold) = g.set_fold(true).unwrap();
    let folded = group_of(g.patch(&fold));
    assert!(folded.is_folded());
    assert!(!group_of(folded.patch(&unfold)).is_folded());
    let (hide, _) = g.set_visibility(false).unwrap();
    assert!(!group_of(g.patch(&hide)).is_visible());

    let rename = Patch::Rename(RenamePatch { target: Uuid::from_u128(11), name: "renamed".into() });
    let changed = group_of(g.patch(&rename));
    match &changed.children[1] {
        DocumentNode::Group(inner) => match &inner.children[0] {
            DocumentNode::Note(n) => assert_eq!(n.note, "renamed"),
            _ => panic!("Not a note"),
        },
        _ => panic!("Not a group"),
    }
    let drop = Patch::RemoveChild(RemoveChildPatch { target: Uuid::from_u128(10), child_id: Uuid::from_u128(11) });
    let dropped = DocumentNode::Group(g.clone()).patch(&drop).unwrap();
    match dropped {
        DocumentNode::Group(root) => match &root.children[1] {
            DocumentNode::Group(inner) => assert!(inner.children.is_empty()),
            _ => panic!("Not a group"),
        },
        _ => panic!("Not a group"),
    }
    let missing = Patch::Rename(RenamePatch { target: Uuid::from_u128(99), name: "x".into() });
    assert!(g.patch(&missing).is_none());
    let (rename_root, restore) = g.rename("Top").unwrap();
    let renamed = group_of(g.patch(&rename_root));
    assert_eq!(renamed.name, "Top");
    assert_eq!(group_of(renamed.patch(&restore)).name, "Root");
}

#[test]
fn label_rename_and_patch() {
    let l = Label::new(Some(Uuid::from_u128(7)), "Title", at(3., 4.));
    assert_eq!(l.id(), Uuid::from_u128(7));
    assert_eq!(l.position, at(3., 4.));
    let (p, u) = l.rename("Caption");
    assert_eq!(p.target, Uuid::from_u128(7));
    assert_eq!(p.name, "Caption");
    assert_eq!(u.name, "Title");
    let renamed = l.patch(&Patch::Rename(p)).unwrap();
    assert_eq!(renamed.name, "Caption");
    assert_eq!(renamed.position, at(3., 4.));
    assert_eq!(renamed.patch(&Patch::Rename(u)).unwrap().name, "Title");
    let other = Patch::Rename(RenamePatch { target: Uuid::from_u128(8), name: "X".into() });
    assert!(l.patch(&other).is_none());
    let lock = Patch::SetLock(SetLockPatch { target: Uuid::from_u128(7), lock: true });
    assert!(l.patch(&lock).is_none());
    let fresh = Label::new(None, "Fresh", at(0., 0.));
    assert_eq!(fresh.name, "Fresh");
}

#[test]
fn nodes_become_document_nodes() {
    let unknown = Node::Unknown;
    assert_eq!(unknown.id(), Uuid::nil());
    assert!(!unknown.is_visible() && !unknown.is_locked() && !unknown.is_folded());
    assert_eq!(DocumentNode::try_from(Node::Unknown).err(), Some("Node is not a valid DocumentNode."));
    let n = Node::Note(Note::new(Some(Uuid::from_u128(3)), "Hi", at(0., 0.)));
    assert_eq!(n.id(), Uuid::from_u128(3));
    assert!(n.is_visible() && !n.is_folded());
    match DocumentNode::try_from(n) {
        Ok(DocumentNode::Note(note)) => assert_eq!(note.note, "Hi"),
        _ => panic!("Not a note"),
    }
    let g = Node::Group(Group::new(Some(Uuid::from_u128(4)), "G", at(0., 0.), vec![]));
    assert_eq!(g.id(), Uuid::from_u128(4));
    match DocumentNode::try_from(g) {
        Ok(DocumentNode::Group(group)) => assert_eq!(group.id, Uuid::from_u128(4)),
        _ => panic!("Not a group"),
    }
}

#[test]
fn group_errors_in_words() {
    assert_eq!(GroupError::ChildFound.to_string(), "Child already exists in this group.");
    assert_eq!(GroupError::ChildNotFound.to_string(), "Child not found in this group.");
}
