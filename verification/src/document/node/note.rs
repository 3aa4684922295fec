use vstd::prelude::*;
use crate::document::command::{CommandType, CommandPair};
use crate::document::math::{Vec2, Uuid};
use crate::document::node::{
    NodeType, NodeView, NoteView, Named, Positioned, Displayed, Locked, Folded, opt_view,
    pair_view, node_exec, rename_pair, translate_pair, display_pair, lock_pair,
    rename_commands, translate_commands, display_commands, lock_commands,
};

verus! {

/// A text note placed on the document.
#[derive(Debug, Clone, Default)]
pub struct NoteNode {
    pub id: Uuid,
    pub position: Vec2,
    pub display: bool,
    pub locked: bool,
    pub name: String,
}

impl View for NoteNode {
    type V = NoteView;

    open spec fn view(&self) -> NoteView {
        NoteView {
            id: self.id,
            position: self.position,
            display: self.display,
            locked: self.locked,
            name: self.name@,
        }
    }
}

impl Named for NoteNode {
    fn name(&self) -> (r: String)
        ensures
            r@ == self.name@,
    {
        self.name.clone()
    }

    fn rename(&self, name: String) -> (r: Option<CommandPair>)
        ensures
            pair_view(r) == Some(rename_pair(self.id, name@, self.name@)),
    {
        rename_commands(self.id, name, &self.name)
    }
}

impl Positioned for NoteNode {
    fn position(&self) -> (r: Vec2)
        ensures
            r == self.position,
    {
        self.position
    }

    fn translate(&self, position: Vec2) -> (r: Option<CommandPair>)
        ensures
            pair_view(r) == Some(translate_pair(self.id, position, self.position)),
    {
        translate_commands(self.id, position, self.position)
    }
}

impl Displayed for NoteNode {
    fn display(&self) -> (r: bool)
        ensures
            r == self.display,
    {
        self.display
    }

    fn set_display(&self, visibility: bool) -> (r: Option<CommandPair>)
        ensures
            pair_view(r) == Some(display_pair(self.id, visibility, self.display)),
    {
        display_commands(self.id, visibility, self.display)
    }
}

impl Locked for NoteNode {
    fn locked(&self) -> (r: bool)
        ensures
            r == self.locked,
    {
        self.locked
    }

    fn set_lock(&self, locked: bool) -> (r: Option<CommandPair>)
        ensures
            pair_view(r) == Some(lock_pair(self.id, locked, self.locked)),
    {
        lock_commands(self.id, locked, self.locked)
    }
}

impl Folded for NoteNode {}

impl NoteNode {
    /// The note after a command meant for it; `None` when the command is
    /// meant for another node or does not apply to notes.
    pub fn execute(&self, command: &CommandType) -> (r: Option<NodeType>)
        ensures
            opt_view(r) == node_exec(NodeView::Note(self@), command@),
    {
        if command.target() != self.id {
            return None;
        }
        let mut patched = NoteNode {
            id: self.id,
            position: self.position,
            display: self.display,
            locked: self.locked,
            name: self.name.clone(),
        };
        match command {
            CommandType::Rename(c) => {
                patched.name = c.name.clone();
            },
            CommandType::Translate(c) => {
                patched.position = c.position;
            },
            CommandType::SetVisible(c) => {
                patched.display = c.visibility;
            },
            CommandType::SetLock(c) => {
                patched.locked = c.locked;
            },
            _ => {
                return None;
            },
        }
        Some(NodeType::Note(patched))
    }
}

} // verus!
