//! Document nodes: their kinds, the tree they form, and how a command
//! changes them.
use vstd::prelude::*;
use crate::document::color::{Channel, RGB};
use crate::document::math::{Vec2, Extent2, Uuid};
use crate::document::command::{
    CommandType, CommandView, CommandPair, target_of, RenameCommand, TranslateCommand,
    SetVisibleCommand, SetLockCommand, SetFoldCommand,
};

pub mod note;
pub mod palette;
pub mod chunk;
pub mod group;
pub mod undo;

pub use note::NoteNode;
pub use palette::PaletteNode;
pub use group::GroupNode;

verus! {

/// The kinds of node a document holds.
#[derive(Debug, Clone, Copy, PartialEq, Eq, Structural)]
pub enum NodeKind {
    Note,
    Group,
    Palette,
    Sprite,
    Canvas,
}

/// A node of a document tree.
#[derive(Debug)]
pub enum NodeType {
    Note(NoteNode),
    Group(GroupNode),
    Palette(PaletteNode),
}

/// A note node as values.
pub struct NoteView {
    pub id: Uuid,
    pub position: Vec2,
    pub display: bool,
    pub locked: bool,
    pub name: Seq<char>,
}

/// A palette node as values.
pub struct PaletteView {
    pub id: Uuid,
    pub position: Vec2,
    pub display: bool,
    pub locked: bool,
    pub name: Seq<char>,
    pub colors: Seq<RGB>,
}

/// A group node as values, with its children as values.
pub struct GroupView {
    pub id: Uuid,
    pub position: Vec2,
    pub display: bool,
    pub locked: bool,
    pub folded: bool,
    pub name: Seq<char>,
    pub children: Seq<NodeView>,
}

/// A node of a document tree as values.
pub enum NodeView {
    Note(NoteView),
    Group(GroupView),
    Palette(PaletteView),
}

/// A node tree as values.
pub open spec fn node_view(n: NodeType) -> NodeView
    decreases n,
{
    match n {
        NodeType::Note(x) => NodeView::Note(x@),
        NodeType::Palette(x) => NodeView::Palette(x@),
        NodeType::Group(g) => NodeView::Group(GroupView {
            id: g.id,
            position: g.position,
            display: g.display,
            locked: g.locked,
            folded: g.folded,
            name: g.name@,
            children: nodes_view(g.children@),
        }),
    }
}

/// A list of node trees as values.
pub open spec fn nodes_view(cs: Seq<NodeType>) -> Seq<NodeView>
    decreases cs,
{
    if cs.len() == 0 {
        Seq::empty()
    } else {
        nodes_view(cs.subrange(0, cs.len() - 1)).push(node_view(cs[cs.len() - 1]))
    }
}

impl View for NodeType {
    type V = NodeView;

    open spec fn view(&self) -> NodeView {
        node_view(*self)
    }
}

impl View for GroupNode {
    type V = GroupView;

    open spec fn view(&self) -> GroupView {
        GroupView {
            id: self.id,
            position: self.position,
            display: self.display,
            locked: self.locked,
            folded: self.folded,
            name: self.name@,
            children: nodes_view(self.children@),
        }
    }
}

/// An optional node as values.
pub open spec fn opt_view(r: Option<NodeType>) -> Option<NodeView> {
    match r {
        Some(n) => Some(n@),
        None => None,
    }
}

/// A command pair as values.
pub open spec fn pair_view(p: Option<CommandPair>) -> Option<(CommandView, CommandView)> {
    match p {
        Some((a, b)) => Some((a@, b@)),
        None => None,
    }
}

pub open spec fn view_id(n: NodeView) -> Uuid {
    match n {
        NodeView::Note(x) => x.id,
        NodeView::Group(x) => x.id,
        NodeView::Palette(x) => x.id,
    }
}

pub open spec fn view_name(n: NodeView) -> Seq<char> {
    match n {
        NodeView::Note(x) => x.name,
        NodeView::Group(x) => x.name,
        NodeView::Palette(x) => x.name,
    }
}

pub open spec fn view_position(n: NodeView) -> Vec2 {
    match n {
        NodeView::Note(x) => x.position,
        NodeView::Group(x) => x.position,
        NodeView::Palette(x) => x.position,
    }
}

pub open spec fn view_display(n: NodeView) -> bool {
    match n {
        NodeView::Note(x) => x.display,
        NodeView::Group(x) => x.display,
        NodeView::Palette(x) => x.display,
    }
}

pub open spec fn view_locked(n: NodeView) -> bool {
    match n {
        NodeView::Note(x) => x.locked,
        NodeView::Group(x) => x.locked,
        NodeView::Palette(x) => x.locked,
    }
}

/// What a command does to a note: `None` when it is meant for another
/// node or does not apply to notes.
pub open spec fn note_exec(n: NoteView, c: CommandView) -> Option<NoteView> {
    if target_of(c) != n.id {
        None
    } else {
        match c {
            CommandView::Rename { name, .. } => Some(NoteView { name, ..n }),
            CommandView::Translate(t) => Some(NoteView { position: t.position, ..n }),
            CommandView::SetVisible(v) => Some(NoteView { display: v.visibility, ..n }),
            CommandView::SetLock(l) => Some(NoteView { locked: l.locked, ..n }),
            _ => None,
        }
    }
}

/// `i` is where `c` first occurs in `s`.
pub open spec fn is_first_color(s: Seq<RGB>, c: RGB, i: int) -> bool {
    &&& 0 <= i < s.len()
    &&& s[i] == c
    &&& forall|j: int| 0 <= j < i ==> s[j] != c
}

/// Where `c` first occurs in `s`, if it occurs.
pub open spec fn first_color(s: Seq<RGB>, c: RGB) -> Option<int> {
    if exists|i: int| is_first_color(s, c, i) {
        Some(choose|i: int| is_first_color(s, c, i))
    } else {
        None
    }
}

/// `s` with every occurrence of `c` taken out.
pub open spec fn without_color(s: Seq<RGB>, c: RGB) -> Seq<RGB>
    decreases s.len(),
{
    if s.len() == 0 {
        s
    } else if s.last() == c {
        without_color(s.drop_last(), c)
    } else {
        without_color(s.drop_last(), c).push(s.last())
    }
}

/// `s` with the first occurrence of `c` moved to `position`, or to the
/// end when `position` lies past the others.
pub open spec fn moved_color(s: Seq<RGB>, c: RGB, position: int) -> Option<Seq<RGB>> {
    match first_color(s, c) {
        Some(i) => {
            let rest = s.remove(i);
            Some(if position > rest.len() { rest.push(c) } else { rest.insert(position, c) })
        },
        None => None,
    }
}

/// What a command does to a palette: `None` when it is meant for another
/// node, does not apply to palettes, or moves a colour the palette lacks.
pub open spec fn palette_exec(p: PaletteView, c: CommandView) -> Option<PaletteView> {
    if target_of(c) != p.id {
        None
    } else {
        match c {
            CommandView::Rename { name, .. } => Some(PaletteView { name, ..p }),
            CommandView::Translate(t) => Some(PaletteView { position: t.position, ..p }),
            CommandView::SetVisible(v) => Some(PaletteView { display: v.visibility, ..p }),
            CommandView::SetLock(l) => Some(PaletteView { locked: l.locked, ..p }),
            CommandView::AddColor(a) => Some(PaletteView { colors: p.colors.push(a.color), ..p }),
            CommandView::RemoveColor(r) => Some(PaletteView { colors: without_color(p.colors, r.color), ..p }),
            CommandView::MoveColor(m) => match moved_color(p.colors, m.color, m.position as int) {
                Some(colors) => Some(PaletteView { colors, ..p }),
                None => None,
            },
            _ => None,
        }
    }
}

/// `cs` without the children whose identifier is `id`.
pub open spec fn without_child(cs: Seq<NodeView>, id: Uuid) -> Seq<NodeView>
    decreases cs.len(),
{
    if cs.len() == 0 {
        cs
    } else if view_id(cs.last()) == id {
        without_child(cs.drop_last(), id)
    } else {
        without_child(cs.drop_last(), id).push(cs.last())
    }
}

/// What a command does to a node tree: `None` when no node of the tree
/// takes it. A group takes a command meant for it, or passes it to each
/// child and takes the children that changed.
pub open spec fn node_exec(n: NodeView, c: CommandView) -> Option<NodeView>
    decreases n,
{
    match n {
        NodeView::Note(x) => match note_exec(x, c) {
            Some(y) => Some(NodeView::Note(y)),
            None => None,
        },
        NodeView::Palette(x) => match palette_exec(x, c) {
            Some(y) => Some(NodeView::Palette(y)),
            None => None,
        },
        NodeView::Group(g) => match group_exec(g, c) {
            Some(y) => Some(NodeView::Group(y)),
            None => None,
        },
    }
}

pub open spec fn group_exec(g: GroupView, c: CommandView) -> Option<GroupView>
    decreases g,
{
    if target_of(c) == g.id {
        match c {
            CommandView::Rename { name, .. } => Some(GroupView { name, ..g }),
            CommandView::Translate(t) => Some(GroupView { position: t.position, ..g }),
            CommandView::SetVisible(v) => Some(GroupView { display: v.visibility, ..g }),
            CommandView::SetLock(l) => Some(GroupView { locked: l.locked, ..g }),
            CommandView::SetFold(f) => Some(GroupView { folded: f.folded, ..g }),
            CommandView::AddChild { child, .. } => Some(GroupView { children: g.children.push(child), ..g }),
            CommandView::RemoveChild(r) => Some(GroupView { children: without_child(g.children, r.child_id), ..g }),
            CommandView::MoveChild(_) => Some(g),
            _ => None,
        }
    } else if children_touched(g.children, c) {
        Some(GroupView { children: children_exec(g.children, c), ..g })
    } else {
        None
    }
}

/// Each child after the command, changed or not.
pub open spec fn children_exec(cs: Seq<NodeView>, c: CommandView) -> Seq<NodeView>
    decreases cs,
{
    if cs.len() == 0 {
        cs
    } else {
        let last = cs[cs.len() - 1];
        children_exec(cs.subrange(0, cs.len() - 1), c).push(
            match node_exec(last, c) {
                Some(y) => y,
                None => last,
            },
        )
    }
}

/// Some child takes the command.
pub open spec fn children_touched(cs: Seq<NodeView>, c: CommandView) -> bool
    decreases cs,
{
    if cs.len() == 0 {
        false
    } else {
        children_touched(cs.subrange(0, cs.len() - 1), c) || node_exec(cs[cs.len() - 1], c) is Some
    }
}

/// The command can run on the tree: a group it is meant for moves a
/// child only to a position it has.
pub open spec fn exec_ok(n: NodeView, c: CommandView) -> bool
    decreases n,
{
    match n {
        NodeView::Group(g) => if target_of(c) == g.id {
            c matches CommandView::MoveChild(m) ==> m.position < g.children.len()
        } else {
            children_ok(g.children, c)
        },
        _ => true,
    }
}

pub open spec fn children_ok(cs: Seq<NodeView>, c: CommandView) -> bool
    decreases cs,
{
    if cs.len() == 0 {
        true
    } else {
        children_ok(cs.subrange(0, cs.len() - 1), c) && exec_ok(cs[cs.len() - 1], c)
    }
}

/// The views of a list grow with it.
pub proof fn lemma_nodes_view_push(s: Seq<NodeType>, x: NodeType)
    ensures
        nodes_view(s.push(x)) == nodes_view(s).push(node_view(x)),
{
    assert(s.push(x).subrange(0, s.len() as int) =~= s);
}

/// Taking a prefix one element longer adds that element's view.
pub proof fn lemma_nodes_view_prefix(s: Seq<NodeType>, k: int)
    requires
        0 <= k < s.len(),
    ensures
        nodes_view(s.subrange(0, k + 1)) == nodes_view(s.subrange(0, k)).push(node_view(s[k])),
{
    assert(s.subrange(0, k + 1).subrange(0, k) =~= s.subrange(0, k));
}

/// A list's views: as many as its nodes, each the view of its node.
pub proof fn lemma_nodes_view_index(s: Seq<NodeType>)
    ensures
        nodes_view(s).len() == s.len(),
        forall|i: int| 0 <= i < s.len() ==> #[trigger] nodes_view(s)[i] == node_view(s[i]),
    decreases s.len(),
{
    if s.len() > 0 {
        lemma_nodes_view_index(s.subrange(0, s.len() - 1));
        assert forall|i: int| 0 <= i < s.len() implies #[trigger] nodes_view(s)[i] == node_view(s[i]) by {
            if i < s.len() - 1 {
                assert(nodes_view(s.subrange(0, s.len() - 1))[i] == node_view(s.subrange(0, s.len() - 1)[i]));
            }
        }
    }
}

pub(crate) fn copy_colors(v: &Vec<RGB>) -> (r: Vec<RGB>)
    ensures
        r@ == v@,
{
    let mut out: Vec<RGB> = Vec::new();
    let mut k: usize = 0;
    while k < v.len()
        invariant
            k <= v.len(),
            out@ == v@.subrange(0, k as int),
        decreases v.len() - k,
    {
        out.push(v[k]);
        k = k + 1;
        assert(out@ =~= v@.subrange(0, k as int));
    }
    assert(v@.subrange(0, v.len() as int) =~= v@);
    out
}

fn clone_node(n: &NodeType) -> (r: NodeType)
    ensures
        r@ == n@,
    decreases n,
{
    match n {
        NodeType::Note(x) => NodeType::Note(NoteNode {
            id: x.id,
            position: x.position,
            display: x.display,
            locked: x.locked,
            name: x.name.clone(),
        }),
        NodeType::Palette(x) => NodeType::Palette(PaletteNode {
            id: x.id,
            position: x.position,
            display: x.display,
            locked: x.locked,
            name: x.name.clone(),
            colors: copy_colors(&x.colors),
        }),
        NodeType::Group(g) => NodeType::Group(GroupNode {
            id: g.id,
            position: g.position,
            display: g.display,
            locked: g.locked,
            folded: g.folded,
            name: g.name.clone(),
            children: clone_nodes(&g.children),
        }),
    }
}

/// Copy a list of node trees.
pub(crate) fn clone_nodes(v: &Vec<NodeType>) -> (r: Vec<NodeType>)
    ensures
        nodes_view(r@) == nodes_view(v@),
    decreases v,
{
    let mut out: Vec<NodeType> = Vec::new();
    let mut k: usize = 0;
    while k < v.len()
        invariant
            k <= v.len(),
            nodes_view(out@) == nodes_view(v@.subrange(0, k as int)),
        decreases v.len() - k,
    {
        proof {
            lemma_nodes_view_prefix(v@, k as int);
        }
        let c = clone_node(&v[k]);
        proof {
            lemma_nodes_view_push(out@, c);
        }
        out.push(c);
        k = k + 1;
    }
    assert(v@.subrange(0, v.len() as int) =~= v@);
    out
}

impl Clone for NodeType {
    fn clone(&self) -> (r: Self)
        ensures
            r@ == self@,
    {
        clone_node(self)
    }
}

/// A node with a name.
pub trait Named {
    fn name(&self) -> (r: String)
        default_ensures
            r@ == Seq::<char>::empty(),
    {
        String::new()
    }

    /// The command that renames the node and the one that undoes it.
    fn rename(&self, name: String) -> (r: Option<CommandPair>)
        default_ensures
            r is None,
    {
        None
    }
}

/// A node placed at a position.
pub trait Positioned {
    fn position(&self) -> (r: Vec2)
        default_ensures
            r == (Vec2 { x: 0, y: 0 }),
    {
        Vec2 { x: 0, y: 0 }
    }

    /// The command that moves the node and the one that undoes it.
    fn translate(&self, target: Vec2) -> (r: Option<CommandPair>)
        default_ensures
            r is None,
    {
        None
    }
}

/// A node that can be shown or hidden.
pub trait Displayed {
    fn display(&self) -> (r: bool)
        default_ensures
            r,
    {
        true
    }

    /// The command that shows or hides the node and the one that undoes it.
    fn set_display(&self, display: bool) -> (r: Option<CommandPair>)
        default_ensures
            r is None,
    {
        None
    }
}

/// A node that can be locked.
pub trait Locked {
    fn locked(&self) -> (r: bool)
        default_ensures
            !r,
    {
        false
    }

    /// The command that locks or unlocks the node and the one that undoes it.
    fn set_lock(&self, locked: bool) -> (r: Option<CommandPair>)
        default_ensures
            r is None,
    {
        None
    }
}

/// A node that can be folded.
pub trait Folded {
    fn folded(&self) -> (r: bool)
        default_ensures
            !r,
    {
        false
    }

    /// The command that folds or unfolds the node and the one that undoes it.
    fn set_fold(&self, folded: bool) -> (r: Option<CommandPair>)
        default_ensures
            r is None,
    {
        None
    }
}

/// A node whose pixels have colour channels.
pub trait HasColorMode {
    fn color_mode(&self) -> Channel;
}

/// A node that holds pixels.
pub trait SpriteNode: Named + Displayed + Locked + Folded + HasColorMode {}

/// Visibility, lock and fold of a node, for nodes that track them.
pub trait INode {
    fn is_visible(&self) -> (r: bool)
        default_ensures
            r,
    {
        true
    }

    fn is_locked(&self) -> (r: bool)
        default_ensures
            !r,
    {
        false
    }

    fn is_folded(&self) -> (r: bool)
        default_ensures
            !r,
    {
        false
    }
}

/// A command pair that sets a name, and the one that restores the old name.
pub open spec fn rename_pair(id: Uuid, name: Seq<char>, old: Seq<char>) -> (CommandView, CommandView) {
    (CommandView::Rename { target: id, name }, CommandView::Rename { target: id, name: old })
}

pub open spec fn translate_pair(id: Uuid, position: Vec2, old: Vec2) -> (CommandView, CommandView) {
    (
        CommandView::Translate(TranslateCommand { target: id, position }),
        CommandView::Translate(TranslateCommand { target: id, position: old }),
    )
}

pub open spec fn display_pair(id: Uuid, visibility: bool, old: bool) -> (CommandView, CommandView) {
    (
        CommandView::SetVisible(SetVisibleCommand { target: id, visibility }),
        CommandView::SetVisible(SetVisibleCommand { target: id, visibility: old }),
    )
}

pub open spec fn lock_pair(id: Uuid, locked: bool, old: bool) -> (CommandView, CommandView) {
    (
        CommandView::SetLock(SetLockCommand { target: id, locked }),
        CommandView::SetLock(SetLockCommand { target: id, locked: old }),
    )
}

pub open spec fn fold_pair(id: Uuid, folded: bool, old: bool) -> (CommandView, CommandView) {
    (
        CommandView::SetFold(SetFoldCommand { target: id, folded }),
        CommandView::SetFold(SetFoldCommand { target: id, folded: old }),
    )
}

pub(crate) fn rename_commands(id: Uuid, name: String, old: &String) -> (r: Option<CommandPair>)
    ensures
        pair_view(r) == Some(rename_pair(id, name@, old@)),
{
    Some((
        CommandType::Rename(RenameCommand { target: id, name }),
        CommandType::Rename(RenameCommand { target: id, name: old.clone() }),
    ))
}

pub(crate) fn translate_commands(id: Uuid, position: Vec2, old: Vec2) -> (r: Option<CommandPair>)
    ensures
        pair_view(r) == Some(translate_pair(id, position, old)),
{
    Some((
        CommandType::Translate(TranslateCommand { target: id, position }),
        CommandType::Translate(TranslateCommand { target: id, position: old }),
    ))
}

pub(crate) fn display_commands(id: Uuid, visibility: bool, old: bool) -> (r: Option<CommandPair>)
    ensures
        pair_view(r) == Some(display_pair(id, visibility, old)),
{
    Some((
        CommandType::SetVisible(SetVisibleCommand { target: id, visibility }),
        CommandType::SetVisible(SetVisibleCommand { target: id, visibility: old }),
    ))
}

pub(crate) fn lock_commands(id: Uuid, locked: bool, old: bool) -> (r: Option<CommandPair>)
    ensures
        pair_view(r) == Some(lock_pair(id, locked, old)),
{
    Some((
        CommandType::SetLock(SetLockCommand { target: id, locked }),
        CommandType::SetLock(SetLockCommand { target: id, locked: old }),
    ))
}

pub(crate) fn fold_commands(id: Uuid, folded: bool, old: bool) -> (r: Option<CommandPair>)
    ensures
        pair_view(r) == Some(fold_pair(id, folded, old)),
{
    Some((
        CommandType::SetFold(SetFoldCommand { target: id, folded }),
        CommandType::SetFold(SetFoldCommand { target: id, folded: old }),
    ))
}

/// The first occurrence, once found, is the one `first_color` names.
pub proof fn lemma_first_color_found(s: Seq<RGB>, c: RGB, i: int)
    requires
        is_first_color(s, c, i),
    ensures
        first_color(s, c) == Some(i),
{
    let j = choose|j: int| is_first_color(s, c, j);
    assert(is_first_color(s, c, j));
    if j < i {
        assert(s[j] != c);
    } else if j > i {
        assert(s[i] != c);
    }
}

/// A colour that does not occur has no first occurrence.
pub proof fn lemma_first_color_absent(s: Seq<RGB>, c: RGB)
    requires
        forall|j: int| 0 <= j < s.len() ==> s[j] != c,
    ensures
        first_color(s, c) is None,
{
}

impl NodeType {
    /// The node's identifier.
    pub fn id(&self) -> (r: Uuid)
        ensures
            r == view_id(self@),
    {
        match self {
            NodeType::Note(n) => n.id,
            NodeType::Group(g) => g.id,
            NodeType::Palette(p) => p.id,
        }
    }

    /// The tree after a command; `None` when no node of the tree takes it.
    pub fn execute(&self, command: &CommandType) -> (r: Option<NodeType>)
        requires
            exec_ok(self@, command@),
        ensures
            opt_view(r) == node_exec(self@, command@),
        decreases self,
    {
        match self {
            NodeType::Note(n) => n.execute(command),
            NodeType::Palette(p) => p.execute(command),
            NodeType::Group(g) => g.execute(command),
        }
    }
}

impl INode for NodeType {
    fn is_visible(&self) -> (r: bool)
        ensures
            r == view_display(self@),
    {
        match self {
            NodeType::Note(n) => n.display,
            NodeType::Group(g) => g.display,
            NodeType::Palette(p) => p.display,
        }
    }

    fn is_locked(&self) -> (r: bool)
        ensures
            r == view_locked(self@),
    {
        match self {
            NodeType::Note(n) => n.locked,
            NodeType::Group(g) => g.locked,
            NodeType::Palette(p) => p.locked,
        }
    }

    fn is_folded(&self) -> (r: bool)
        ensures
            r == (self@ matches NodeView::Group(g) && g.folded),
    {
        match self {
            NodeType::Group(g) => g.folded,
            _ => false,
        }
    }
}

} // verus!
