//! What the patch pairs of notes and groups promise: the second patch of a
//! pair undoes the first.
use vstd::prelude::*;
use crate::document::document::{
    DocumentModel, GroupModel, model_id, first_doc, is_first_doc, without_doc, placed, doc_patch,
    patch_ok, lemma_first_doc_found,
};
use crate::document::group::{fold_patches, add_child_patches, remove_child_patches, move_child_patches};
use crate::document::math::Uuid;
use crate::document::note::{rename_patches, visibility_patches, lock_patches};

verus! {

pub open spec fn doc_name(d: DocumentModel) -> Seq<char> {
    match d {
        DocumentModel::Note(n) => n.note,
        DocumentModel::Group(g) => g.name,
    }
}

pub open spec fn doc_visible(d: DocumentModel) -> bool {
    match d {
        DocumentModel::Note(n) => n.is_visible,
        DocumentModel::Group(g) => g.is_visible,
    }
}

pub open spec fn doc_locked(d: DocumentModel) -> bool {
    match d {
        DocumentModel::Note(n) => n.is_locked,
        DocumentModel::Group(g) => g.is_locked,
    }
}

/// Renaming, showing or hiding, or locking or unlocking a note or a group,
/// then applying the undo patch of the pair, gives the node back.
pub proof fn lemma_setters_revert(d: DocumentModel, name: Seq<char>, visible: bool, lock: bool)
    ensures
        ({
            let (p, u) = rename_patches(model_id(d), name, doc_name(d));
            doc_patch(d, p) matches Some(e) && doc_patch(e, u) == Some(d)
        }),
        ({
            let (p, u) = visibility_patches(model_id(d), visible, doc_visible(d));
            doc_patch(d, p) matches Some(e) && doc_patch(e, u) == Some(d)
        }),
        ({
            let (p, u) = lock_patches(model_id(d), lock, doc_locked(d));
            doc_patch(d, p) matches Some(e) && doc_patch(e, u) == Some(d)
        }),
{
}

/// Folding or unfolding a group, then undoing, gives the group back.
pub proof fn lemma_fold_revert(g: GroupModel, folded: bool)
    ensures
        ({
            let (p, u) = fold_patches(g.id, folded, g.is_folded);
            doc_patch(DocumentModel::Group(g), p) matches Some(e) && doc_patch(e, u) == Some(DocumentModel::Group(g))
        }),
{
}

/// No two children share an identifier.
pub open spec fn distinct_ids(cs: Seq<DocumentModel>) -> bool {
    forall|i: int, j: int| 0 <= i < j < cs.len() ==> model_id(cs[i]) != model_id(cs[j])
}

/// Taking out an identifier that no node of a list has leaves the list.
proof fn lemma_without_absent(cs: Seq<DocumentModel>, id: Uuid)
    requires
        forall|j: int| 0 <= j < cs.len() ==> model_id(cs[j]) != id,
    ensures
        without_doc(cs, id) == cs,
    decreases cs.len(),
{
    if cs.len() > 0 {
        lemma_without_absent(cs.drop_last(), id);
        assert(cs.drop_last().push(cs.last()) =~= cs);
    }
}

/// Taking out an identifier that only the node at `i` has removes that node.
proof fn lemma_without_single(cs: Seq<DocumentModel>, id: Uuid, i: int)
    requires
        0 <= i < cs.len(),
        model_id(cs[i]) == id,
        forall|j: int| 0 <= j < cs.len() && j != i ==> model_id(cs[j]) != id,
    ensures
        without_doc(cs, id) == cs.remove(i),
    decreases cs.len(),
{
    if i == cs.len() - 1 {
        lemma_without_absent(cs.drop_last(), id);
        assert(cs.drop_last() =~= cs.remove(i));
    } else {
        lemma_without_single(cs.drop_last(), id, i);
        assert(cs.drop_last().remove(i).push(cs.last()) =~= cs.remove(i));
    }
}

/// Putting a child into a group that has none with its identifier, then
/// undoing, gives the group back.
pub proof fn lemma_add_child_revert(g: GroupModel, child: DocumentModel)
    requires
        first_doc(g.children, model_id(child)) is None,
        g.children.len() <= usize::MAX,
    ensures
        ({
            let (p, u) = add_child_patches(g.id, child, g.children.len() as usize);
            doc_patch(DocumentModel::Group(g), p) matches Some(e) && doc_patch(e, u) == Some(DocumentModel::Group(g))
        }),
{
    let cs = g.children;
    let id = model_id(child);
    assert forall|j: int| 0 <= j < cs.len() implies model_id(cs[j]) != id by {
        if model_id(cs[j]) == id {
            lemma_some_first(cs, id, j);
            let k = choose|k: int| 0 <= k <= j && model_id(cs[k]) == id && forall|m: int| 0 <= m < k ==> model_id(cs[m]) != id;
            assert(is_first_doc(cs, id, k));
        }
    }
    assert(placed(cs, cs.len() as int, child) =~= cs.push(child));
    lemma_without_absent(cs, id);
    assert(cs.push(child).drop_last() =~= cs);
}

/// A node with `id` at `j` means some first one exists at or before `j`.
proof fn lemma_some_first(cs: Seq<DocumentModel>, id: Uuid, j: int)
    requires
        0 <= j < cs.len(),
        model_id(cs[j]) == id,
    ensures
        exists|k: int| 0 <= k <= j && model_id(cs[k]) == id && forall|m: int| 0 <= m < k ==> model_id(cs[m]) != id,
    decreases j,
{
    if exists|m: int| 0 <= m < j && model_id(cs[m]) == id {
        let m = choose|m: int| 0 <= m < j && model_id(cs[m]) == id;
        lemma_some_first(cs, id, m);
    } else {
        assert(0 <= j <= j && model_id(cs[j]) == id && forall|m: int| 0 <= m < j ==> model_id(cs[m]) != id);
    }
}

/// Taking a child out of a group whose children have distinct identifiers,
/// then undoing, gives the group back.
pub proof fn lemma_remove_child_revert(g: GroupModel, child_id: Uuid)
    requires
        distinct_ids(g.children),
        first_doc(g.children, child_id) is Some,
        first_doc(g.children, child_id)->Some_0 <= usize::MAX,
    ensures
        ({
            let i = first_doc(g.children, child_id)->Some_0;
            let (p, u) = remove_child_patches(g.id, child_id, g.children[i], i as usize);
            doc_patch(DocumentModel::Group(g), p) matches Some(e) && doc_patch(e, u) == Some(DocumentModel::Group(g))
        }),
{
    let cs = g.children;
    let i = first_doc(cs, child_id)->Some_0;
    assert(is_first_doc(cs, child_id, i)) by {
        assert(exists|j: int| is_first_doc(cs, child_id, j));
    }
    assert forall|j: int| 0 <= j < cs.len() && j != i implies model_id(cs[j]) != child_id by {
        if j < i {
        } else {
            assert(model_id(cs[i]) != model_id(cs[j]));
        }
    }
    lemma_without_single(cs, child_id, i);
    assert(placed(cs.remove(i), i, cs[i]) =~= cs);
}

/// Moving a child of a group whose children have distinct identifiers,
/// then undoing, gives the group back; both patches can run.
pub proof fn lemma_move_child_revert(g: GroupModel, child_id: Uuid, position: usize)
    requires
        distinct_ids(g.children),
        first_doc(g.children, child_id) is Some,
        first_doc(g.children, child_id)->Some_0 <= usize::MAX,
    ensures
        ({
            let i = first_doc(g.children, child_id)->Some_0;
            let (p, u) = move_child_patches(g.id, child_id, position, i as usize);
            &&& patch_ok(DocumentModel::Group(g), p)
            &&& doc_patch(DocumentModel::Group(g), p) matches Some(e)
            &&& patch_ok(e, u)
            &&& doc_patch(e, u) == Some(DocumentModel::Group(g))
        }),
{
    let cs = g.children;
    let i = first_doc(cs, child_id)->Some_0;
    assert(is_first_doc(cs, child_id, i)) by {
        assert(exists|j: int| is_first_doc(cs, child_id, j));
    }
    let x = cs[i];
    let rest = cs.remove(i);
    assert forall|j: int| 0 <= j < rest.len() implies model_id(rest[j]) != child_id by {
        if j < i {
        } else {
            assert(rest[j] == cs[j + 1]);
            assert(model_id(cs[i]) != model_id(cs[j + 1]));
        }
    }
    let q: int = if position > rest.len() { rest.len() as int } else { position as int };
    let t = placed(rest, position as int, x);
    assert(t[q] == x);
    assert forall|j: int| 0 <= j < q implies model_id(t[j]) != child_id by {
        assert(t[j] == rest[j]);
    }
    assert(is_first_doc(t, child_id, q));
    lemma_first_doc_found(t, child_id, q);
    assert(t.remove(q) =~= rest);
    assert(placed(rest, i, x) =~= cs);
}

} // verus!
