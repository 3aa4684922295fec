//! What the command pairs of the nodes promise: the second command of a
//! pair undoes the first, and a command reaches only the node it names.
use vstd::prelude::*;
use crate::document::color::RGB;
use crate::document::command::{CommandView, target_of};
use crate::document::math::{Vec2, Uuid};
use crate::document::node::{
    NodeView, PaletteView, GroupView, node_exec, group_exec, children_touched, view_id, view_name,
    view_position, view_display, view_locked, rename_pair, translate_pair, display_pair, lock_pair,
    fold_pair, without_color, first_color, is_first_color,
};
use crate::document::node::palette::{add_color_pair, move_color_pair, remove_color_pair};
use crate::document::node::group::{add_child_pair, move_child_pair};

verus! {

/// Renaming, moving, showing or hiding, and locking or unlocking a node,
/// then running the undo command of the same pair, gives the node back.
pub proof fn lemma_setters_undo(n: NodeView, name: Seq<char>, position: Vec2, display: bool, locked: bool)
    ensures
        ({
            let (c, u) = rename_pair(view_id(n), name, view_name(n));
            node_exec(n, c) matches Some(m) && node_exec(m, u) == Some(n)
        }),
        ({
            let (c, u) = translate_pair(view_id(n), position, view_position(n));
            node_exec(n, c) matches Some(m) && node_exec(m, u) == Some(n)
        }),
        ({
            let (c, u) = display_pair(view_id(n), display, view_display(n));
            node_exec(n, c) matches Some(m) && node_exec(m, u) == Some(n)
        }),
        ({
            let (c, u) = lock_pair(view_id(n), locked, view_locked(n));
            node_exec(n, c) matches Some(m) && node_exec(m, u) == Some(n)
        }),
{
}

/// Folding or unfolding a group, then undoing, gives the group back.
pub proof fn lemma_fold_undo(g: GroupView, folded: bool)
    ensures
        ({
            let (c, u) = fold_pair(g.id, folded, g.folded);
            node_exec(NodeView::Group(g), c) matches Some(m) && node_exec(m, u) == Some(NodeView::Group(g))
        }),
{
}

/// A command changes a node but never which node it is.
pub proof fn lemma_exec_keeps_id(n: NodeView, c: CommandView)
    ensures
        node_exec(n, c) matches Some(m) ==> view_id(m) == view_id(n),
{
}

/// Some node of the tree has identifier `id`.
pub open spec fn holds_id(n: NodeView, id: Uuid) -> bool
    decreases n,
{
    view_id(n) == id || (n matches NodeView::Group(g) && children_hold_id(g.children, id))
}

pub open spec fn children_hold_id(cs: Seq<NodeView>, id: Uuid) -> bool
    decreases cs,
{
    cs.len() > 0 && (children_hold_id(cs.subrange(0, cs.len() - 1), id) || holds_id(cs[cs.len() - 1], id))
}

/// A command meant for a node the tree lacks leaves the tree unchanged.
pub proof fn lemma_exec_absent(n: NodeView, c: CommandView)
    requires
        !holds_id(n, target_of(c)),
    ensures
        node_exec(n, c) is None,
    decreases n,
{
    if let NodeView::Group(g) = n {
        lemma_children_absent(g.children, c);
    }
}

/// No child of a list that lacks the command's node takes it.
pub proof fn lemma_children_absent(cs: Seq<NodeView>, c: CommandView)
    requires
        !children_hold_id(cs, target_of(c)),
    ensures
        !children_touched(cs, c),
    decreases cs,
{
    if cs.len() > 0 {
        lemma_children_absent(cs.subrange(0, cs.len() - 1), c);
        lemma_exec_absent(cs[cs.len() - 1], c);
    }
}

/// Taking a colour out of a list that lacks it leaves the list as it is.
pub proof fn lemma_without_absent(s: Seq<RGB>, c: RGB)
    requires
        !s.contains(c),
    ensures
        without_color(s, c) == s,
    decreases s.len(),
{
    if s.len() > 0 {
        assert(!s.drop_last().contains(c)) by {
            if s.drop_last().contains(c) {
                let i = choose|i: int| 0 <= i < s.drop_last().len() && s.drop_last()[i] == c;
                assert(s[i] == c);
            }
        }
        lemma_without_absent(s.drop_last(), c);
        assert(s.drop_last().push(s.last()) =~= s);
    }
}

/// Adding a colour a palette lacks, then undoing, gives the palette back.
pub proof fn lemma_add_color_undo(p: PaletteView, color: RGB)
    requires
        !p.colors.contains(color),
    ensures
        ({
            let (c, u) = add_color_pair(p.id, color);
            node_exec(NodeView::Palette(p), c) matches Some(m) && node_exec(m, u) == Some(NodeView::Palette(p))
        }),
{
    lemma_without_absent(p.colors, color);
    assert(p.colors.push(color).drop_last() =~= p.colors);
}

/// Taking a colour out of a palette, then undoing, appends the colour
/// after the others: the palette comes back as it was exactly when the
/// colour was its last one and occurred once.
pub proof fn lemma_remove_color_undo(p: PaletteView, color: RGB)
    ensures
        ({
            let (c, u) = remove_color_pair(p.id, color);
            node_exec(NodeView::Palette(p), c) matches Some(m)
                && node_exec(m, u) == Some(NodeView::Palette(
                    PaletteView { colors: without_color(p.colors, color).push(color), ..p },
                ))
        }),
        forall|rest: Seq<RGB>| p.colors == rest.push(color) && !rest.contains(color)
            ==> without_color(p.colors, color).push(color) == p.colors,
{
    assert forall|rest: Seq<RGB>| p.colors == rest.push(color) && !rest.contains(color)
        implies without_color(p.colors, color).push(color) == p.colors by {
        assert(p.colors.drop_last() =~= rest);
        lemma_without_absent(rest, color);
    }
}

/// No colour occurs twice.
pub open spec fn distinct_colors(s: Seq<RGB>) -> bool {
    forall|i: int, j: int| 0 <= i < j < s.len() ==> s[i] != s[j]
}

/// Moving a colour of a palette whose colours are distinct, then undoing,
/// gives the palette back.
pub proof fn lemma_move_color_undo(p: PaletteView, color: RGB, position: usize)
    requires
        distinct_colors(p.colors),
        first_color(p.colors, color) is Some,
        first_color(p.colors, color)->Some_0 <= usize::MAX,
    ensures
        ({
            let (c, u) = move_color_pair(p.id, color, position, first_color(p.colors, color)->Some_0 as usize);
            node_exec(NodeView::Palette(p), c) matches Some(m) && node_exec(m, u) == Some(NodeView::Palette(p))
        }),
{
    let s = p.colors;
    let i = first_color(s, color)->Some_0;
    assert(is_first_color(s, color, i)) by {
        assert(exists|j: int| is_first_color(s, color, j));
    }
    let rest = s.remove(i);
    assert(!rest.contains(color)) by {
        if rest.contains(color) {
            let j = choose|j: int| 0 <= j < rest.len() && rest[j] == color;
            if j < i {
                assert(s[j] == color);
            } else {
                assert(s[j + 1] == s[i]);
            }
        }
    }
    let q: int = if position > rest.len() { rest.len() as int } else { position as int };
    let t = if position > rest.len() { rest.push(color) } else { rest.insert(position as int, color) };
    assert(t[q] == color);
    assert forall|j: int| 0 <= j < q implies t[j] != color by {
        assert(t[j] == rest[j]);
    }
    assert(is_first_color(t, color, q));
    crate::document::node::lemma_first_color_found(t, color, q);
    assert(t.remove(q) =~= rest);
    assert(rest.insert(i, color) =~= s);
}

/// Adding a child to an empty group, then undoing, gives the group back.
pub proof fn lemma_add_child_undo(g: GroupView, child: NodeView)
    requires
        g.children.len() == 0,
    ensures
        ({
            let (c, u) = add_child_pair(g.id, child);
            node_exec(NodeView::Group(g), c) matches Some(m) && node_exec(m, u) == Some(NodeView::Group(g))
        }),
{
    let cs = g.children.push(child);
    assert(cs.drop_last() =~= g.children);
    assert(g.children =~= Seq::<NodeView>::empty());
    assert(crate::document::node::without_child(g.children, view_id(child)) == g.children);
    assert(cs.last() == child);
    assert(crate::document::node::without_child(cs, view_id(child)) == g.children);
}

/// Moving a child of a group, then undoing, gives the group back.
pub proof fn lemma_move_child_undo(g: GroupView, child_id: Uuid, position: usize, old: usize)
    ensures
        ({
            let (c, u) = move_child_pair(g.id, child_id, position, old);
            node_exec(NodeView::Group(g), c) matches Some(m) && node_exec(m, u) == Some(NodeView::Group(g))
        }),
{
}

} // verus!
