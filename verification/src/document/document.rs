//! Document trees of notes and groups, and how a patch changes them.
use vstd::prelude::*;
use crate::document::group::Group;
use crate::document::math::{Uuid, Vec2Bits};
use crate::document::node::INode;
use crate::document::note::Note;
use crate::document::patch::{Patch, PatchView, patch_target};

verus! {

/// A node of a document tree.
#[derive(Debug)]
pub enum DocumentNode {
    Note(Note),
    Group(Group),
}

/// A node of any kind a document file may hold; `Unknown` stands for one
/// of a kind this library does not read.
#[derive(Debug)]
pub enum Node {
    Unknown,
    Group(Group),
    Note(Note),
}

/// A note as values.
pub struct NoteModel {
    pub id: Uuid,
    pub is_visible: bool,
    pub is_locked: bool,
    pub note: Seq<char>,
    pub position: Vec2Bits,
}

/// A group as values, with its children as values.
pub struct GroupModel {
    pub id: Uuid,
    pub is_visible: bool,
    pub is_locked: bool,
    pub is_folded: bool,
    pub name: Seq<char>,
    pub position: Vec2Bits,
    pub children: Seq<DocumentModel>,
}

/// A document tree as values.
pub enum DocumentModel {
    Note(NoteModel),
    Group(GroupModel),
}

pub open spec fn doc_view(n: DocumentNode) -> DocumentModel
    decreases n,
{
    match n {
        DocumentNode::Note(x) => DocumentModel::Note(x@),
        DocumentNode::Group(g) => DocumentModel::Group(GroupModel {
            id: g.id,
            is_visible: g.is_visible,
            is_locked: g.is_locked,
            is_folded: g.is_folded,
            name: g.name@,
            position: g.position,
            children: docs_view(g.children@),
        }),
    }
}

pub open spec fn docs_view(cs: Seq<DocumentNode>) -> Seq<DocumentModel>
    decreases cs,
{
    if cs.len() == 0 {
        Seq::empty()
    } else {
        docs_view(cs.subrange(0, cs.len() - 1)).push(doc_view(cs[cs.len() - 1]))
    }
}

impl View for DocumentNode {
    type V = DocumentModel;

    open spec fn view(&self) -> DocumentModel {
        doc_view(*self)
    }
}

pub open spec fn model_id(d: DocumentModel) -> Uuid {
    match d {
        DocumentModel::Note(n) => n.id,
        DocumentModel::Group(g) => g.id,
    }
}

/// `cs` with `x` put at `position`, or after the others when the position
/// lies past them.
pub open spec fn placed(cs: Seq<DocumentModel>, position: int, x: DocumentModel) -> Seq<DocumentModel> {
    if position > cs.len() {
        cs.push(x)
    } else {
        cs.insert(position, x)
    }
}

/// `i` is where a node with identifier `id` first occurs in `cs`.
pub open spec fn is_first_doc(cs: Seq<DocumentModel>, id: Uuid, i: int) -> bool {
    &&& 0 <= i < cs.len()
    &&& model_id(cs[i]) == id
    &&& forall|j: int| 0 <= j < i ==> model_id(cs[j]) != id
}

/// Where a node with identifier `id` first occurs in `cs`, if one does.
pub open spec fn first_doc(cs: Seq<DocumentModel>, id: Uuid) -> Option<int> {
    if exists|i: int| is_first_doc(cs, id, i) {
        Some(choose|i: int| is_first_doc(cs, id, i))
    } else {
        None
    }
}

/// `cs` without the nodes whose identifier is `id`.
pub open spec fn without_doc(cs: Seq<DocumentModel>, id: Uuid) -> Seq<DocumentModel>
    decreases cs.len(),
{
    if cs.len() == 0 {
        cs
    } else if model_id(cs.last()) == id {
        without_doc(cs.drop_last(), id)
    } else {
        without_doc(cs.drop_last(), id).push(cs.last())
    }
}

/// What a patch does to a note: `None` unless it renames, shows or hides,
/// or locks or unlocks this very note.
pub open spec fn note_patch(n: NoteModel, p: PatchView) -> Option<NoteModel> {
    if patch_target(p) != n.id {
        None
    } else {
        match p {
            PatchView::Rename { name, .. } => Some(NoteModel { note: name, ..n }),
            PatchView::SetVisibility(v) => Some(NoteModel { is_visible: v.visibility, ..n }),
            PatchView::SetLock(l) => Some(NoteModel { is_locked: l.lock, ..n }),
            _ => None,
        }
    }
}

/// What a patch does to a tree: `None` when no node of the tree takes it.
pub open spec fn doc_patch(d: DocumentModel, p: PatchView) -> Option<DocumentModel>
    decreases d,
{
    match d {
        DocumentModel::Note(n) => match note_patch(n, p) {
            Some(m) => Some(DocumentModel::Note(m)),
            None => None,
        },
        DocumentModel::Group(g) => match group_patch(g, p) {
            Some(h) => Some(DocumentModel::Group(h)),
            None => None,
        },
    }
}

/// What a patch does to a group: a patch meant for the group changes it;
/// any other goes to each child, and the group comes back with the changed
/// children when some child took it.
pub open spec fn group_patch(g: GroupModel, p: PatchView) -> Option<GroupModel>
    decreases g,
{
    if patch_target(p) == g.id {
        match p {
            PatchView::Rename { name, .. } => Some(GroupModel { name, ..g }),
            PatchView::SetVisibility(v) => Some(GroupModel { is_visible: v.visibility, ..g }),
            PatchView::SetLock(l) => Some(GroupModel { is_locked: l.lock, ..g }),
            PatchView::SetFold(f) => Some(GroupModel { is_folded: f.folded, ..g }),
            PatchView::AddChild { child, position, .. } => Some(
                GroupModel { children: placed(g.children, position as int, child), ..g },
            ),
            PatchView::RemoveChild(r) => Some(GroupModel { children: without_doc(g.children, r.child_id), ..g }),
            PatchView::MoveChild(m) => match first_doc(g.children, m.child_id) {
                Some(i) => Some(GroupModel {
                    children: placed(g.children.remove(i), m.position as int, g.children[i]),
                    ..g
                }),
                None => None,
            },
        }
    } else if docs_touched(g.children, p) {
        Some(GroupModel { children: docs_patch(g.children, p), ..g })
    } else {
        None
    }
}

/// Each node after the patch, changed or not.
pub open spec fn docs_patch(cs: Seq<DocumentModel>, p: PatchView) -> Seq<DocumentModel>
    decreases cs,
{
    if cs.len() == 0 {
        cs
    } else {
        let last = cs[cs.len() - 1];
        docs_patch(cs.subrange(0, cs.len() - 1), p).push(
            match doc_patch(last, p) {
                Some(y) => y,
                None => last,
            },
        )
    }
}

/// Some node of the list takes the patch.
pub open spec fn docs_touched(cs: Seq<DocumentModel>, p: PatchView) -> bool
    decreases cs,
{
    if cs.len() == 0 {
        false
    } else {
        docs_touched(cs.subrange(0, cs.len() - 1), p) || doc_patch(cs[cs.len() - 1], p) is Some
    }
}

/// The patch can run on the tree: a group it is meant for has the child
/// it moves.
pub open spec fn patch_ok(d: DocumentModel, p: PatchView) -> bool
    decreases d,
{
    match d {
        DocumentModel::Group(g) => if patch_target(p) == g.id {
            p matches PatchView::MoveChild(m) ==> first_doc(g.children, m.child_id) is Some
        } else {
            docs_ok(g.children, p)
        },
        DocumentModel::Note(_) => true,
    }
}

pub open spec fn docs_ok(cs: Seq<DocumentModel>, p: PatchView) -> bool
    decreases cs,
{
    if cs.len() == 0 {
        true
    } else {
        docs_ok(cs.subrange(0, cs.len() - 1), p) && patch_ok(cs[cs.len() - 1], p)
    }
}

pub open spec fn opt_doc_view(r: Option<DocumentNode>) -> Option<DocumentModel> {
    match r {
        Some(n) => Some(n@),
        None => None,
    }
}

pub proof fn lemma_docs_view_push(s: Seq<DocumentNode>, x: DocumentNode)
    ensures
        docs_view(s.push(x)) == docs_view(s).push(doc_view(x)),
{
    assert(s.push(x).subrange(0, s.len() as int) =~= s);
}

pub proof fn lemma_docs_view_prefix(s: Seq<DocumentNode>, k: int)
    requires
        0 <= k < s.len(),
    ensures
        docs_view(s.subrange(0, k + 1)) == docs_view(s.subrange(0, k)).push(doc_view(s[k])),
{
    assert(s.subrange(0, k + 1).subrange(0, k) =~= s.subrange(0, k));
}

pub proof fn lemma_docs_view_index(s: Seq<DocumentNode>)
    ensures
        docs_view(s).len() == s.len(),
        forall|i: int| 0 <= i < s.len() ==> #[trigger] docs_view(s)[i] == doc_view(s[i]),
    decreases s.len(),
{
    if s.len() > 0 {
        lemma_docs_view_index(s.subrange(0, s.len() - 1));
        assert forall|i: int| 0 <= i < s.len() implies #[trigger] docs_view(s)[i] == doc_view(s[i]) by {
            if i < s.len() - 1 {
                assert(docs_view(s.subrange(0, s.len() - 1))[i] == doc_view(s.subrange(0, s.len() - 1)[i]));
            }
        }
    }
}

/// The first node with an identifier, once found, is the one `first_doc`
/// names.
pub proof fn lemma_first_doc_found(cs: Seq<DocumentModel>, id: Uuid, i: int)
    requires
        is_first_doc(cs, id, i),
    ensures
        first_doc(cs, id) == Some(i),
{
    let j = choose|j: int| is_first_doc(cs, id, j);
    assert(is_first_doc(cs, id, j));
    if j < i {
        assert(model_id(cs[j]) != id);
    } else if j > i {
        assert(model_id(cs[i]) != id);
    }
}

fn clone_doc(n: &DocumentNode) -> (r: DocumentNode)
    ensures
        r@ == n@,
    decreases n,
{
    match n {
        DocumentNode::Note(x) => DocumentNode::Note(Note {
            id: x.id,
            is_visible: x.is_visible,
            is_locked: x.is_locked,
            note: x.note.clone(),
            position: x.position,
        }),
        DocumentNode::Group(g) => DocumentNode::Group(Group {
            id: g.id,
            is_visible: g.is_visible,
            is_locked: g.is_locked,
            is_folded: g.is_folded,
            name: g.name.clone(),
            position: g.position,
            children: clone_docs(&g.children),
        }),
    }
}

/// Copy a list of document trees.
pub(crate) fn clone_docs(v: &Vec<DocumentNode>) -> (r: Vec<DocumentNode>)
    ensures
        docs_view(r@) == docs_view(v@),
    decreases v,
{
    let mut out: Vec<DocumentNode> = Vec::new();
    let mut k: usize = 0;
    while k < v.len()
        invariant
            k <= v.len(),
            docs_view(out@) == docs_view(v@.subrange(0, k as int)),
        decreases v.len() - k,
    {
        proof {
            lemma_docs_view_prefix(v@, k as int);
        }
        let c = clone_doc(&v[k]);
        proof {
            lemma_docs_view_push(out@, c);
        }
        out.push(c);
        k = k + 1;
    }
    assert(v@.subrange(0, v.len() as int) =~= v@);
    out
}

impl Clone for DocumentNode {
    fn clone(&self) -> (r: Self)
        ensures
            r@ == self@,
    {
        clone_doc(self)
    }
}

/// A node placed on the document plane.
pub trait IDocument {
    fn position(&self) -> Vec2Bits;
}

impl DocumentNode {
    pub fn id(&self) -> (r: Uuid)
        ensures
            r == model_id(self@),
    {
        match self {
            DocumentNode::Note(node) => node.id,
            DocumentNode::Group(node) => node.id,
        }
    }

    /// The tree after a patch; `None` when no node of the tree takes it.
    pub fn patch(&self, patch: &Patch) -> (r: Option<DocumentNode>)
        requires
            patch_ok(self@, patch@),
        ensures
            opt_doc_view(r) == doc_patch(self@, patch@),
        decreases self,
    {
        match self {
            DocumentNode::Note(node) => match node.patch(patch) {
                Some(n) => Some(DocumentNode::Note(n)),
                None => None,
            },
            DocumentNode::Group(node) => match node.patch(patch) {
                Some(g) => Some(DocumentNode::Group(g)),
                None => None,
            },
        }
    }
}

impl Node {
    /// The node's identifier; the nil identifier for an unknown node.
    pub fn id(&self) -> (r: Uuid)
        ensures
            r == (match self {
                Node::Unknown => Uuid { value: 0 },
                Node::Group(g) => g.id,
                Node::Note(n) => n.id,
            }),
    {
        match self {
            Node::Unknown => Uuid::nil(),
            Node::Group(node) => node.id,
            Node::Note(node) => node.id,
        }
    }
}

impl INode for Node {
    fn is_visible(&self) -> (r: bool)
        ensures
            r == (match self {
                Node::Unknown => false,
                Node::Group(g) => g.is_visible,
                Node::Note(n) => n.is_visible,
            }),
    {
        match self {
            Node::Unknown => false,
            Node::Group(node) => node.is_visible,
            Node::Note(node) => node.is_visible,
        }
    }

    fn is_locked(&self) -> (r: bool)
        ensures
            r == (match self {
                Node::Unknown => false,
                Node::Group(g) => g.is_locked,
                Node::Note(n) => n.is_locked,
            }),
    {
        match self {
            Node::Unknown => false,
            Node::Group(node) => node.is_locked,
            Node::Note(node) => node.is_locked,
        }
    }

    fn is_folded(&self) -> (r: bool)
        ensures
            r == (self matches Node::Group(g) && g.is_folded),
    {
        match self {
            Node::Group(node) => node.is_folded,
            _ => false,
        }
    }
}

impl DocumentNode {
    /// The document node a node is, when it is a group or a note.
    pub fn try_from(node: Node) -> (r: Result<DocumentNode, &'static str>)
        ensures
            match node {
                Node::Unknown => r matches Err(e) && e@ == "Node is not a valid DocumentNode."@,
                Node::Group(g) => r == Ok::<DocumentNode, &'static str>(DocumentNode::Group(g)),
                Node::Note(n) => r == Ok::<DocumentNode, &'static str>(DocumentNode::Note(n)),
            },
    {
        match node {
            Node::Group(node) => Ok(DocumentNode::Group(node)),
            Node::Note(node) => Ok(DocumentNode::Note(node)),
            Node::Unknown => Err("Node is not a valid DocumentNode."),
        }
    }
}

impl INode for DocumentNode {
    fn is_visible(&self) -> (r: bool)
        ensures
            r == (match self@ {
                DocumentModel::Note(n) => n.is_visible,
                DocumentModel::Group(g) => g.is_visible,
            }),
    {
        match self {
            DocumentNode::Note(node) => node.is_visible,
            DocumentNode::Group(node) => node.is_visible,
        }
    }

    fn is_locked(&self) -> (r: bool)
        ensures
            r == (match self@ {
                DocumentModel::Note(n) => n.is_locked,
                DocumentModel::Group(g) => g.is_locked,
            }),
    {
        match self {
            DocumentNode::Note(node) => node.is_locked,
            DocumentNode::Group(node) => node.is_locked,
        }
    }

    fn is_folded(&self) -> (r: bool)
        ensures
            r == (self@ matches DocumentModel::Group(g) && g.is_folded),
    {
        match self {
            DocumentNode::Note(_) => false,
            DocumentNode::Group(node) => node.is_folded,
        }
    }
}

impl IDocument for DocumentNode {
    fn position(&self) -> (r: Vec2Bits)
        ensures
            r == (match self@ {
                DocumentModel::Note(n) => n.position,
                DocumentModel::Group(g) => g.position,
            }),
    {
        match self {
            DocumentNode::Note(node) => node.position,
            DocumentNode::Group(node) => node.position,
        }
    }
}

} // verus!
