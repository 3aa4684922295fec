use vstd::prelude::*;
use crate::document::color::RGB;
use crate::document::command::{
    CommandType, CommandView, CommandPair, AddColorCommand, RemoveColorCommand, MoveColorCommand,
};
use crate::document::math::{Vec2, Uuid};
use crate::document::node::{
    NodeType, NodeView, PaletteView, Named, Positioned, Displayed, Locked, Folded, opt_view,
    pair_view, node_exec, rename_pair, translate_pair, display_pair, lock_pair, is_first_color,
    without_color, rename_commands, translate_commands, display_commands, lock_commands,
    copy_colors, lemma_first_color_found, lemma_first_color_absent, first_color,
};

verus! {

/// A palette: an ordered list of colours.
#[derive(Debug, Clone)]
pub struct PaletteNode {
    pub id: Uuid,
    pub position: Vec2,
    pub display: bool,
    pub locked: bool,
    pub name: String,
    pub colors: Vec<RGB>,
}

impl View for PaletteNode {
    type V = PaletteView;

    open spec fn view(&self) -> PaletteView {
        PaletteView {
            id: self.id,
            position: self.position,
            display: self.display,
            locked: self.locked,
            name: self.name@,
            colors: self.colors@,
        }
    }
}

/// Where `color` first occurs in `colors`, if it does.
fn find_color(colors: &Vec<RGB>, color: RGB) -> (r: Option<usize>)
    ensures
        match r {
            Some(i) => is_first_color(colors@, color, i as int),
            None => forall|j: int| 0 <= j < colors@.len() ==> colors@[j] != color,
        },
        r matches Some(i) ==> first_color(colors@, color) == Some(i as int),
        r is None ==> first_color(colors@, color) is None,
{
    let mut k: usize = 0;
    while k < colors.len()
        invariant
            k <= colors.len(),
            forall|j: int| 0 <= j < k ==> colors@[j] != color,
        decreases colors.len() - k,
    {
        if colors[k] == color {
            proof { lemma_first_color_found(colors@, color, k as int); }
            return Some(k);
        }
        k = k + 1;
    }
    proof { lemma_first_color_absent(colors@, color); }
    None
}

impl Named for PaletteNode {
    fn name(&self) -> (r: String)
        ensures
            r@ == self.name@,
    {
        self.name.clone()
    }

    fn rename(&self, name: String) -> (r: Option<CommandPair>)
        ensures
            pair_view(r) == Some(rename_pair(self.id, name@, self.name@)),
    {
        rename_commands(self.id, name, &self.name)
    }
}

impl Positioned for PaletteNode {
    fn position(&self) -> (r: Vec2)
        ensures
            r == self.position,
    {
        self.position
    }

    fn translate(&self, position: Vec2) -> (r: Option<CommandPair>)
        ensures
            pair_view(r) == Some(translate_pair(self.id, position, self.position)),
    {
        translate_commands(self.id, position, self.position)
    }
}

impl Displayed for PaletteNode {
    fn display(&self) -> (r: bool)
        ensures
            r == self.display,
    {
        self.display
    }

    fn set_display(&self, visibility: bool) -> (r: Option<CommandPair>)
        ensures
            pair_view(r) == Some(display_pair(self.id, visibility, self.display)),
    {
        display_commands(self.id, visibility, self.display)
    }
}

impl Locked for PaletteNode {
    fn locked(&self) -> (r: bool)
        ensures
            r == self.locked,
    {
        self.locked
    }

    fn set_lock(&self, locked: bool) -> (r: Option<CommandPair>)
        ensures
            pair_view(r) == Some(lock_pair(self.id, locked, self.locked)),
    {
        lock_commands(self.id, locked, self.locked)
    }
}

impl Folded for PaletteNode {}

/// The command that appends a colour and the one that takes it out again.
pub open spec fn add_color_pair(id: Uuid, color: RGB) -> (CommandView, CommandView) {
    (
        CommandView::AddColor(AddColorCommand { target: id, color }),
        CommandView::RemoveColor(RemoveColorCommand { target: id, color }),
    )
}

/// The command that takes a colour out and the one that appends it again.
pub open spec fn remove_color_pair(id: Uuid, color: RGB) -> (CommandView, CommandView) {
    (
        CommandView::RemoveColor(RemoveColorCommand { target: id, color }),
        CommandView::AddColor(AddColorCommand { target: id, color }),
    )
}

/// The command that moves a colour and the one that moves it back.
pub open spec fn move_color_pair(id: Uuid, color: RGB, position: usize, old: usize) -> (CommandView, CommandView) {
    (
        CommandView::MoveColor(MoveColorCommand { target: id, color, position }),
        CommandView::MoveColor(MoveColorCommand { target: id, color, position: old }),
    )
}

impl PaletteNode {
    /// The commands that append `color` and take it out again; `None`
    /// when the palette already holds it.
    pub fn add_color(&self, color: RGB) -> (r: Option<CommandPair>)
        ensures
            r is None <==> self.colors@.contains(color),
            r is Some ==> pair_view(r) == Some(add_color_pair(self.id, color)),
    {
        match find_color(&self.colors, color) {
            Some(_) => None,
            None => Some((
                CommandType::AddColor(AddColorCommand { target: self.id, color }),
                CommandType::RemoveColor(RemoveColorCommand { target: self.id, color }),
            )),
        }
    }

    /// The commands that take `color` out and append it again; `None`
    /// when the palette lacks it.
    pub fn remove_color(&self, color: RGB) -> (r: Option<CommandPair>)
        ensures
            r is None <==> !self.colors@.contains(color),
            r is Some ==> pair_view(r) == Some(remove_color_pair(self.id, color)),
    {
        match find_color(&self.colors, color) {
            Some(i) => {
                let found = self.colors[i];
                Some((
                    CommandType::RemoveColor(RemoveColorCommand { target: self.id, color: found }),
                    CommandType::AddColor(AddColorCommand { target: self.id, color: found }),
                ))
            },
            None => None,
        }
    }

    /// The commands that move `color` to `position` and back to where it
    /// first occurs now; `None` when the palette lacks it.
    pub fn move_color(&self, color: RGB, position: usize) -> (r: Option<CommandPair>)
        ensures
            r is None <==> first_color(self.colors@, color) is None,
            r is Some ==> pair_view(r) == Some(
                move_color_pair(self.id, color, position, first_color(self.colors@, color)->Some_0 as usize),
            ),
    {
        match find_color(&self.colors, color) {
            Some(old_position) => Some((
                CommandType::MoveColor(MoveColorCommand { target: self.id, color, position }),
                CommandType::MoveColor(MoveColorCommand { target: self.id, color, position: old_position }),
            )),
            None => None,
        }
    }

    /// The palette after a command meant for it; `None` when the command is
    /// meant for another node, does not apply to palettes, or moves a
    /// colour the palette lacks.
    pub fn execute(&self, command: &CommandType) -> (r: Option<NodeType>)
        ensures
            opt_view(r) == node_exec(NodeView::Palette(self@), command@),
    {
        if command.target() != self.id {
            return None;
        }
        let mut patched = PaletteNode {
            id: self.id,
            position: self.position,
            display: self.display,
            locked: self.locked,
            name: self.name.clone(),
            colors: copy_colors(&self.colors),
        };
        match command {
            CommandType::Rename(c) => {
                patched.name = c.name.clone();
            },
            CommandType::Translate(c) => {
                patched.position = c.position;
            },
            CommandType::SetVisible(c) => {
                patched.display = c.visibility;
            },
            CommandType::SetLock(c) => {
                patched.locked = c.locked;
            },
            CommandType::AddColor(c) => {
                patched.colors.push(c.color);
            },
            CommandType::RemoveColor(c) => {
                let mut kept: Vec<RGB> = Vec::new();
                let mut k: usize = 0;
                while k < self.colors.len()
                    invariant
                        k <= self.colors.len(),
                        kept@ == without_color(self.colors@.subrange(0, k as int), c.color),
                    decreases self.colors.len() - k,
                {
                    assert(self.colors@.subrange(0, k + 1).drop_last() =~= self.colors@.subrange(0, k as int));
                    if self.colors[k] != c.color {
                        kept.push(self.colors[k]);
                    }
                    k = k + 1;
                }
                assert(self.colors@.subrange(0, self.colors.len() as int) =~= self.colors@);
                patched.colors = kept;
            },
            CommandType::MoveColor(c) => {
                match find_color(&patched.colors, c.color) {
                    Some(index) => {
                        let color = patched.colors.remove(index);
                        if c.position > patched.colors.len() {
                            patched.colors.push(color);
                        } else {
                            patched.colors.insert(c.position, color);
                        }
                    },
                    None => {
                        return None;
                    },
                }
            },
            _ => {
                return None;
            },
        }
        Some(NodeType::Palette(patched))
    }
}

} // verus!
