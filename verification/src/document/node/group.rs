use vstd::prelude::*;
use crate::document::command::{
    CommandType, CommandView, CommandPair, AddChildCommand, RemoveChildCommand, MoveChildCommand,
    target_of,
};
use crate::document::math::{Vec2, Uuid};
use crate::document::node::{
    NodeType, NodeView, GroupView, Named, Positioned, Displayed, Locked, Folded, opt_view,
    pair_view, node_exec, node_view, nodes_view, view_id, exec_ok, children_ok, children_exec,
    children_touched, without_child, rename_pair, translate_pair, display_pair, lock_pair,
    fold_pair, rename_commands, translate_commands, display_commands, lock_commands,
    fold_commands, clone_nodes, lemma_nodes_view_index, lemma_nodes_view_push,
    lemma_nodes_view_prefix,
};

verus! {

/// A group of nodes.
#[derive(Debug, Clone)]
pub struct GroupNode {
    pub id: Uuid,
    pub position: Vec2,
    pub display: bool,
    pub locked: bool,
    pub folded: bool,
    pub name: String,
    pub children: Vec<NodeType>,
}

impl Named for GroupNode {
    fn name(&self) -> (r: String)
        ensures
            r@ == self.name@,
    {
        self.name.clone()
    }

    fn rename(&self, name: String) -> (r: Option<CommandPair>)
        ensures
            pair_view(r) == Some(rename_pair(self.id, name@, self.name@)),
    {
        rename_commands(self.id, name, &self.name)
    }
}

impl Positioned for GroupNode {
    fn position(&self) -> (r: Vec2)
        ensures
            r == self.position,
    {
        self.position
    }

    fn translate(&self, position: Vec2) -> (r: Option<CommandPair>)
        ensures
            pair_view(r) == Some(translate_pair(self.id, position, self.position)),
    {
        translate_commands(self.id, position, self.position)
    }
}

impl Displayed for GroupNode {
    fn display(&self) -> (r: bool)
        ensures
            r == self.display,
    {
        self.display
    }

    fn set_display(&self, visibility: bool) -> (r: Option<CommandPair>)
        ensures
            pair_view(r) == Some(display_pair(self.id, visibility, self.display)),
    {
        display_commands(self.id, visibility, self.display)
    }
}

impl Locked for GroupNode {
    fn locked(&self) -> (r: bool)
        ensures
            r == self.locked,
    {
        self.locked
    }

    fn set_lock(&self, locked: bool) -> (r: Option<CommandPair>)
        ensures
            pair_view(r) == Some(lock_pair(self.id, locked, self.locked)),
    {
        lock_commands(self.id, locked, self.locked)
    }
}

impl Folded for GroupNode {
    fn folded(&self) -> (r: bool)
        ensures
            r == self.folded,
    {
        self.folded
    }

    fn set_fold(&self, folded: bool) -> (r: Option<CommandPair>)
        ensures
            pair_view(r) == Some(fold_pair(self.id, folded, self.folded)),
    {
        fold_commands(self.id, folded, self.folded)
    }
}

/// A command and its undo are each meant for the given group.
pub open spec fn add_child_pair(id: Uuid, child: NodeView) -> (CommandView, CommandView) {
    (
        CommandView::AddChild { target: id, child },
        CommandView::RemoveChild(RemoveChildCommand { target: id, child_id: view_id(child) }),
    )
}

pub open spec fn remove_child_pair(id: Uuid, child_id: Uuid, restored: NodeView) -> (CommandView, CommandView) {
    (
        CommandView::RemoveChild(RemoveChildCommand { target: id, child_id }),
        CommandView::AddChild { target: id, child: restored },
    )
}

pub open spec fn move_child_pair(id: Uuid, child_id: Uuid, position: usize, old: usize) -> (CommandView, CommandView) {
    (
        CommandView::MoveChild(MoveChildCommand { target: id, child_id, position }),
        CommandView::MoveChild(MoveChildCommand { target: id, child_id, position: old }),
    )
}

/// `i` is where a child with identifier `id` first occurs.
pub open spec fn is_first_child(cs: Seq<NodeView>, id: Uuid, i: int) -> bool {
    &&& 0 <= i < cs.len()
    &&& view_id(cs[i]) == id
    &&& forall|j: int| 0 <= j < i ==> view_id(cs[j]) != id
}

/// A child does not decide whether a command reaches its siblings: the
/// children's outcome is the one of each child in turn.
proof fn lemma_children_step(vs: Seq<NodeView>, k: int, c: CommandView)
    requires
        0 <= k < vs.len(),
    ensures
        children_exec(vs.subrange(0, k + 1), c) == children_exec(vs.subrange(0, k), c).push(
            match node_exec(vs[k], c) {
                Some(y) => y,
                None => vs[k],
            },
        ),
        children_touched(vs.subrange(0, k + 1), c) == (children_touched(vs.subrange(0, k), c)
            || node_exec(vs[k], c) is Some),
        children_ok(vs.subrange(0, k + 1), c) == (children_ok(vs.subrange(0, k), c) && exec_ok(vs[k], c)),
{
    assert(vs.subrange(0, k + 1).subrange(0, k) =~= vs.subrange(0, k));
}

/// Each child of a list the command can run on can take it.
proof fn lemma_children_ok(vs: Seq<NodeView>, c: CommandView, i: int)
    requires
        children_ok(vs, c),
        0 <= i < vs.len(),
    ensures
        exec_ok(vs[i], c),
    decreases vs.len(),
{
    if i < vs.len() - 1 {
        lemma_children_ok(vs.subrange(0, vs.len() - 1), c, i);
    }
}

impl GroupNode {
    /// The commands that append `child` and take it out again. A group
    /// that already has a child refuses any new one.
    pub fn add_child(&self, child: NodeType) -> (r: Option<CommandPair>)
        ensures
            r is None <==> self.children@.len() > 0,
            r is Some ==> pair_view(r) == Some(add_child_pair(self.id, child@)),
    {
        if self.children.len() > 0 {
            None
        } else {
            let child_id = child.id();
            Some((
                CommandType::AddChild(AddChildCommand { target: self.id, child }),
                CommandType::RemoveChild(RemoveChildCommand { target: self.id, child_id }),
            ))
        }
    }

    /// The commands that take the children with identifier `child_id` out
    /// and, as the undo, append the group's first child again; `None` when
    /// the group has no children.
    pub fn remove_child(&self, child_id: Uuid) -> (r: Option<CommandPair>)
        ensures
            r is None <==> self.children@.len() == 0,
            r is Some ==> pair_view(r) == Some(
                remove_child_pair(self.id, child_id, node_view(self.children@[0])),
            ),
    {
        if self.children.len() == 0 {
            None
        } else {
            let first = self.children[0].clone();
            Some((
                CommandType::RemoveChild(RemoveChildCommand { target: self.id, child_id }),
                CommandType::AddChild(AddChildCommand { target: self.id, child: first }),
            ))
        }
    }

    /// The commands that move the child with identifier `child_id` to
    /// `position` and back to where it first occurs now; `None` when no
    /// child has that identifier.
    pub fn move_child(&self, child_id: Uuid, position: usize) -> (r: Option<CommandPair>)
        ensures
            match r {
                Some(_) => exists|i: int| #[trigger] is_first_child(self@.children, child_id, i)
                    && pair_view(r) == Some(move_child_pair(self.id, child_id, position, i as usize)),
                None => forall|j: int| 0 <= j < self@.children.len() ==> view_id(#[trigger] self@.children[j]) != child_id,
            },
    {
        proof { lemma_nodes_view_index(self.children@); }
        let mut k: usize = 0;
        while k < self.children.len()
            invariant
                k <= self.children.len(),
                nodes_view(self.children@).len() == self.children@.len(),
                forall|i: int| 0 <= i < self.children@.len() ==> #[trigger] nodes_view(self.children@)[i] == node_view(self.children@[i]),
                forall|j: int| 0 <= j < k ==> view_id(#[trigger] nodes_view(self.children@)[j]) != child_id,
            decreases self.children.len() - k,
        {
            if self.children[k].id() == child_id {
                assert(is_first_child(self@.children, child_id, k as int));
                return Some((
                    CommandType::MoveChild(MoveChildCommand { target: self.id, child_id, position }),
                    CommandType::MoveChild(MoveChildCommand { target: self.id, child_id, position: k }),
                ));
            }
            k = k + 1;
        }
        None
    }

    /// The group after a command: a command meant for the group changes
    /// it; any other is passed to each child, and the group comes back
    /// with the changed children when some child took it. `None` when the
    /// command does not apply to the group and no child took it.
    pub fn execute(&self, command: &CommandType) -> (r: Option<NodeType>)
        requires
            exec_ok(NodeView::Group(self@), command@),
        ensures
            opt_view(r) == node_exec(NodeView::Group(self@), command@),
        decreases self,
    {
        proof { lemma_nodes_view_index(self.children@); }
        if command.target() == self.id {
            let mut patched = GroupNode {
                id: self.id,
                position: self.position,
                display: self.display,
                locked: self.locked,
                folded: self.folded,
                name: self.name.clone(),
                children: clone_nodes(&self.children),
            };
            match command {
                CommandType::Rename(c) => {
                    patched.name = c.name.clone();
                },
                CommandType::Translate(c) => {
                    patched.position = c.position;
                },
                CommandType::SetVisible(c) => {
                    patched.display = c.visibility;
                },
                CommandType::SetLock(c) => {
                    patched.locked = c.locked;
                },
                CommandType::SetFold(c) => {
                    patched.folded = c.folded;
                },
                CommandType::AddChild(c) => {
                    let child = c.child.clone();
                    proof { lemma_nodes_view_push(patched.children@, child); }
                    patched.children.push(child);
                },
                CommandType::RemoveChild(c) => {
                    let mut kept: Vec<NodeType> = Vec::new();
                    let ghost vs = nodes_view(self.children@);
                    let mut k: usize = 0;
                    while k < self.children.len()
                        invariant
                            k <= self.children.len(),
                            vs == nodes_view(self.children@),
                            vs.len() == self.children@.len(),
                            forall|i: int| 0 <= i < self.children@.len() ==> #[trigger] vs[i] == node_view(self.children@[i]),
                            nodes_view(kept@) == without_child(vs.subrange(0, k as int), c.child_id),
                        decreases self.children.len() - k,
                    {
                        assert(vs.subrange(0, k + 1).drop_last() =~= vs.subrange(0, k as int));
                        if self.children[k].id() != c.child_id {
                            let child = self.children[k].clone();
                            proof { lemma_nodes_view_push(kept@, child); }
                            kept.push(child);
                        }
                        k = k + 1;
                    }
                    assert(vs.subrange(0, self.children.len() as int) =~= vs);
                    patched.children = kept;
                },
                CommandType::MoveChild(c) => {
                    let ghost before = patched.children@;
                    proof {
                        lemma_nodes_view_index(patched.children@);
                        assert(c.position < before.len());
                    }
                    let child = patched.children.remove(c.position);
                    if c.position > patched.children.len() {
                        patched.children.push(child);
                    } else {
                        patched.children.insert(c.position, child);
                    }
                    assert forall|i: int| 0 <= i < before.len() implies patched.children@[i] == before[i] by {
                        if i < c.position {
                        } else if i > c.position {
                        }
                    }
                    assert(patched.children@ =~= before);
                },
                _ => {
                    return None;
                },
            }
            Some(NodeType::Group(patched))
        } else {
            let ghost vs = nodes_view(self.children@);
            let mut children: Vec<NodeType> = Vec::new();
            let mut mutated = false;
            let mut k: usize = 0;
            while k < self.children.len()
                invariant
                    k <= self.children.len(),
                    vs == nodes_view(self.children@),
                    vs.len() == self.children@.len(),
                    forall|i: int| 0 <= i < self.children@.len() ==> #[trigger] vs[i] == node_view(self.children@[i]),
                    children_ok(vs, command@),
                    nodes_view(children@) == children_exec(vs.subrange(0, k as int), command@),
                    mutated == children_touched(vs.subrange(0, k as int), command@),
                decreases self.children.len() - k,
            {
                proof {
                    lemma_children_step(vs, k as int, command@);
                    lemma_children_ok(vs, command@, k as int);
                }
                let next = match self.children[k].execute(command) {
                    Some(child) => {
                        mutated = true;
                        child
                    },
                    None => self.children[k].clone(),
                };
                proof { lemma_nodes_view_push(children@, next); }
                children.push(next);
                k = k + 1;
            }
            assert(vs.subrange(0, self.children.len() as int) =~= vs);
            if mutated {
                Some(NodeType::Group(GroupNode {
                    id: self.id,
                    position: self.position,
                    display: self.display,
                    locked: self.locked,
                    folded: self.folded,
                    name: self.name.clone(),
                    children,
                }))
            } else {
                None
            }
        }
    }
}

} // verus!
