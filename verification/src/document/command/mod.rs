//! Commands that change document nodes. Each command names the node it
//! is meant for by its identifier.
use vstd::prelude::*;
use crate::document::color::RGB;
use crate::document::math::{Vec2, Extent2, Uuid};
use crate::document::node::{NodeType, NodeView};

pub mod canvas;
pub mod sprite;

pub use canvas::{SetComponentsCommand, CropCommand, FlipCommand};
pub use sprite::SetChannelsCommand;

verus! {

/// Move a node to a position.
#[derive(Debug, Clone, Copy, PartialEq, Eq, Structural)]
pub struct TranslateCommand {
    pub target: Uuid,
    pub position: Vec2,
}

/// Give a node a size.
#[derive(Debug, Clone, Copy, PartialEq, Eq, Structural)]
pub struct ResizeCommand {
    pub target: Uuid,
    pub size: Extent2,
}

/// Show or hide a node.
#[derive(Debug, Clone, Copy, PartialEq, Eq, Structural)]
pub struct SetVisibleCommand {
    pub target: Uuid,
    pub visibility: bool,
}

/// Lock or unlock a node.
#[derive(Debug, Clone, Copy, PartialEq, Eq, Structural)]
pub struct SetLockCommand {
    pub target: Uuid,
    pub locked: bool,
}

/// Fold or unfold a node.
#[derive(Debug, Clone, Copy, PartialEq, Eq, Structural)]
pub struct SetFoldCommand {
    pub target: Uuid,
    pub folded: bool,
}

/// Give a node a name.
#[derive(Debug, Clone)]
pub struct RenameCommand {
    pub target: Uuid,
    pub name: String,
}

/// Append a child to a group.
#[derive(Debug, Clone)]
pub struct AddChildCommand {
    pub target: Uuid,
    pub child: NodeType,
}

/// Take the children with an identifier out of a group.
#[derive(Debug, Clone, Copy, PartialEq, Eq, Structural)]
pub struct RemoveChildCommand {
    pub target: Uuid,
    pub child_id: Uuid,
}

/// Move a child of a group to a position.
#[derive(Debug, Clone, Copy, PartialEq, Eq, Structural)]
pub struct MoveChildCommand {
    pub target: Uuid,
    pub child_id: Uuid,
    pub position: usize,
}

/// Append a colour to a palette.
#[derive(Debug, Clone, Copy, PartialEq, Eq, Structural)]
pub struct AddColorCommand {
    pub target: Uuid,
    pub color: RGB,
}

/// Take a colour out of a palette.
#[derive(Debug, Clone, Copy, PartialEq, Eq, Structural)]
pub struct RemoveColorCommand {
    pub target: Uuid,
    pub color: RGB,
}

/// Move a colour of a palette to a position.
#[derive(Debug, Clone, Copy, PartialEq, Eq, Structural)]
pub struct MoveColorCommand {
    pub target: Uuid,
    pub color: RGB,
    pub position: usize,
}

/// Any command.
#[derive(Debug, Clone)]
pub enum CommandType {
    Translate(TranslateCommand),
    Resize(ResizeCommand),
    SetVisible(SetVisibleCommand),
    SetLock(SetLockCommand),
    SetFold(SetFoldCommand),
    Rename(RenameCommand),
    AddChild(AddChildCommand),
    RemoveChild(RemoveChildCommand),
    MoveChild(MoveChildCommand),
    AddColor(AddColorCommand),
    RemoveColor(RemoveColorCommand),
    MoveColor(MoveColorCommand),
    SetComponents(SetComponentsCommand),
    Crop(CropCommand),
    Flip(FlipCommand),
}

/// A command and the command that undoes it.
pub type CommandPair = (CommandType, CommandType);

/// A command as values.
pub enum CommandView {
    Translate(TranslateCommand),
    Resize(ResizeCommand),
    SetVisible(SetVisibleCommand),
    SetLock(SetLockCommand),
    SetFold(SetFoldCommand),
    Rename { target: Uuid, name: Seq<char> },
    AddChild { target: Uuid, child: NodeView },
    RemoveChild(RemoveChildCommand),
    MoveChild(MoveChildCommand),
    AddColor(AddColorCommand),
    RemoveColor(RemoveColorCommand),
    MoveColor(MoveColorCommand),
    SetComponents(SetComponentsCommand),
    Crop(CropCommand),
    Flip(FlipCommand),
}

impl View for CommandType {
    type V = CommandView;

    open spec fn view(&self) -> CommandView {
        match self {
            CommandType::Translate(c) => CommandView::Translate(*c),
            CommandType::Resize(c) => CommandView::Resize(*c),
            CommandType::SetVisible(c) => CommandView::SetVisible(*c),
            CommandType::SetLock(c) => CommandView::SetLock(*c),
            CommandType::SetFold(c) => CommandView::SetFold(*c),
            CommandType::Rename(c) => CommandView::Rename { target: c.target, name: c.name@ },
            CommandType::AddChild(c) => CommandView::AddChild { target: c.target, child: c.child@ },
            CommandType::RemoveChild(c) => CommandView::RemoveChild(*c),
            CommandType::MoveChild(c) => CommandView::MoveChild(*c),
            CommandType::AddColor(c) => CommandView::AddColor(*c),
            CommandType::RemoveColor(c) => CommandView::RemoveColor(*c),
            CommandType::MoveColor(c) => CommandView::MoveColor(*c),
            CommandType::SetComponents(c) => CommandView::SetComponents(*c),
            CommandType::Crop(c) => CommandView::Crop(*c),
            CommandType::Flip(c) => CommandView::Flip(*c),
        }
    }
}

/// The node a command is meant for.
pub open spec fn target_of(c: CommandView) -> Uuid {
    match c {
        CommandView::Translate(c) => c.target,
        CommandView::Resize(c) => c.target,
        CommandView::SetVisible(c) => c.target,
        CommandView::SetLock(c) => c.target,
        CommandView::SetFold(c) => c.target,
        CommandView::Rename { target, .. } => target,
        CommandView::AddChild { target, .. } => target,
        CommandView::RemoveChild(c) => c.target,
        CommandView::MoveChild(c) => c.target,
        CommandView::AddColor(c) => c.target,
        CommandView::RemoveColor(c) => c.target,
        CommandView::MoveColor(c) => c.target,
        CommandView::SetComponents(c) => c.target,
        CommandView::Crop(c) => c.target,
        CommandView::Flip(c) => c.target,
    }
}

impl CommandType {
    /// The node this command is meant for.
    pub fn target(&self) -> (r: Uuid)
        ensures
            r == target_of(self@),
    {
        match self {
            CommandType::Translate(c) => c.target,
            CommandType::Resize(c) => c.target,
            CommandType::SetVisible(c) => c.target,
            CommandType::SetLock(c) => c.target,
            CommandType::SetFold(c) => c.target,
            CommandType::Rename(c) => c.target,
            CommandType::AddChild(c) => c.target,
            CommandType::RemoveChild(c) => c.target,
            CommandType::MoveChild(c) => c.target,
            CommandType::AddColor(c) => c.target,
            CommandType::RemoveColor(c) => c.target,
            CommandType::MoveColor(c) => c.target,
            CommandType::SetComponents(c) => c.target,
            CommandType::Crop(c) => c.target,
            CommandType::Flip(c) => c.target,
        }
    }
}

} // verus!
