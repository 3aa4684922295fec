//! How nodes are stored: each node writes its chunk's bytes and its index
//! row, and is read back from its row, its chunk and its children.
use vstd::prelude::*;
use crate::document::color::RGB;
use crate::document::math::{Extent2, Uuid, Vec2};
use crate::document::node::{
    NodeType, NodeView, NoteView, PaletteView, GroupView, NodeKind, NoteNode, PaletteNode,
    GroupNode, nodes_view, view_id, clone_nodes, lemma_nodes_view_push, lemma_nodes_view_prefix,
};
use crate::document::parser::{IndexRow, IndexRowView, ParseError};

verus! {

/// `n` colours stored as three bytes each (red, green, blue) from `at`.
pub open spec fn colors_at(s: Seq<u8>, at: int, n: nat) -> Seq<RGB> {
    Seq::new(n, |k: int| RGB { r: s[at + 3 * k], g: s[at + 3 * k + 1], b: s[at + 3 * k + 2] })
}

/// Colours stored as three bytes each.
pub open spec fn colors_bytes(cs: Seq<RGB>) -> Seq<u8>
    decreases cs.len(),
{
    if cs.len() == 0 {
        seq![]
    } else {
        colors_bytes(cs.drop_last()) + seq![cs.last().r, cs.last().g, cs.last().b]
    }
}

/// What a node's chunk holds: nothing for notes and groups; for a palette,
/// its colour count as one byte (the count's low eight bits), then its
/// colours.
pub open spec fn chunk_of_node(n: NodeView) -> Seq<u8> {
    match n {
        NodeView::Palette(p) => seq![(p.colors.len() % 256) as u8] + colors_bytes(p.colors),
        _ => seq![],
    }
}

/// The index row a node writes, with its chunk at `offset`. A palette's
/// row points past the colours it wrote, with a zero chunk size.
pub open spec fn row_of_node(n: NodeView, offset: u64) -> IndexRowView {
    let base = IndexRowView {
        id: Uuid { value: 0 },
        chunk_type: NodeKind::Group,
        chunk_offset: offset,
        chunk_size: 0,
        display: false,
        locked: false,
        folded: false,
        position: Vec2 { x: 0, y: 0 },
        size: Extent2 { w: 0, h: 0 },
        name: Seq::empty(),
        children: Seq::empty(),
        dependencies: Seq::empty(),
    };
    match n {
        NodeView::Note(x) => IndexRowView {
            id: x.id,
            chunk_type: NodeKind::Note,
            display: x.display,
            locked: x.locked,
            position: x.position,
            name: x.name,
            ..base
        },
        NodeView::Palette(x) => IndexRowView {
            id: x.id,
            chunk_type: NodeKind::Palette,
            chunk_offset: (offset + chunk_of_node(n).len()) as u64,
            display: x.display,
            locked: x.locked,
            position: x.position,
            name: x.name,
            ..base
        },
        NodeView::Group(x) => IndexRowView {
            id: x.id,
            chunk_type: NodeKind::Group,
            display: x.display,
            locked: x.locked,
            folded: x.folded,
            position: x.position,
            name: x.name,
            children: Seq::new(x.children.len(), |i: int| view_id(x.children[i])),
            ..base
        },
    }
}

/// The nodes a node hands on to be written after it: a group's children.
pub open spec fn deps_of_node(n: NodeView) -> Seq<NodeView> {
    match n {
        NodeView::Group(g) => g.children,
        _ => Seq::empty(),
    }
}

/// What a row, its children and its chunk read as: a note or a group from
/// the row (a group with the given children), a palette from the row and
/// the colours its chunk holds. Other kinds are not node kinds this tree
/// holds.
pub open spec fn node_parse(row: IndexRowView, children: Seq<NodeView>, s: Seq<u8>) -> Result<(nat, NodeView), ParseError> {
    match row.chunk_type {
        NodeKind::Note => Ok((0, NodeView::Note(NoteView {
            id: row.id,
            position: row.position,
            display: row.display,
            locked: row.locked,
            name: row.name,
        }))),
        NodeKind::Group => Ok((0, NodeView::Group(GroupView {
            id: row.id,
            position: row.position,
            display: row.display,
            locked: row.locked,
            folded: row.folded,
            name: row.name,
            children,
        }))),
        NodeKind::Palette => if s.len() < 1 || s.len() < 1 + 3 * (s[0] as int) {
            Err(ParseError::Eof)
        } else {
            Ok(((1 + 3 * (s[0] as int)) as nat, NodeView::Palette(PaletteView {
                id: row.id,
                position: row.position,
                display: row.display,
                locked: row.locked,
                name: row.name,
                colors: colors_at(s, 1, s[0] as nat),
            })))
        },
        _ => Err(ParseError::NoneOf),
    }
}

fn parse_colors(bytes: &[u8], at: usize, n: u8) -> (r: Vec<RGB>)
    requires
        at + 3 * n <= bytes@.len(),
    ensures
        r@ == colors_at(bytes@, at as int, n as nat),
{
    let _blen = bytes.len();
    let mut out: Vec<RGB> = Vec::new();
    let mut k: usize = 0;
    while k < n as usize
        invariant
            k <= n,
            at + 3 * n <= bytes@.len(),
            bytes@.len() <= usize::MAX,
            out@ == colors_at(bytes@, at as int, k as nat),
        decreases n - k,
    {
        assert(at + 3 * k + 3 <= at + 3 * n) by (nonlinear_arith)
            requires k < n;
        let p = at + 3 * k;
        out.push(RGB { r: bytes[p], g: bytes[p + 1], b: bytes[p + 2] });
        k = k + 1;
        assert(out@ =~= colors_at(bytes@, at as int, k as nat));
    }
    out
}

/// The identifiers of some nodes.
fn ids_of(nodes: &Vec<NodeType>) -> (r: Vec<Uuid>)
    ensures
        r@ == Seq::new(nodes@.len(), |i: int| view_id(nodes_view(nodes@)[i])),
{
    proof { crate::document::node::lemma_nodes_view_index(nodes@); }
    let mut out: Vec<Uuid> = Vec::new();
    let mut k: usize = 0;
    while k < nodes.len()
        invariant
            k <= nodes@.len(),
            nodes_view(nodes@).len() == nodes@.len(),
            forall|i: int| 0 <= i < nodes@.len() ==> #[trigger] nodes_view(nodes@)[i] == nodes@[i]@,
            out@ == Seq::new(k as nat, |i: int| view_id(nodes_view(nodes@)[i])),
        decreases nodes@.len() - k,
    {
        out.push(nodes[k].id());
        k = k + 1;
        assert(out@ =~= Seq::new(k as nat, |i: int| view_id(nodes_view(nodes@)[i])));
    }
    out
}

impl NodeType {
    /// Read a node from its index row, its children, and its chunk's
    /// bytes; gives back the bytes after what it read.
    pub fn parse_node<'a>(row: &IndexRow, children: Vec<NodeType>, dependencies: Vec<NodeType>, bytes: &'a [u8]) -> (r: Result<(&'a [u8], NodeType), ParseError>)
        ensures
            match node_parse(row@, nodes_view(children@), bytes@) {
                Ok((n, v)) => r matches Ok((rest, node)) && rest@ == bytes@.skip(n as int) && node@ == v,
                Err(e) => r == Err::<(&[u8], NodeType), ParseError>(e),
            },
    {
        match row.chunk_type {
            NodeKind::Note => Ok((bytes, NodeType::Note(NoteNode {
                id: row.id,
                position: row.position,
                display: row.display,
                locked: row.locked,
                name: row.name.clone(),
            }))),
            NodeKind::Group => {
                let node = NodeType::Group(GroupNode {
                    id: row.id,
                    position: row.position,
                    display: row.display,
                    locked: row.locked,
                    folded: row.folded,
                    name: row.name.clone(),
                    children,
                });
                assert(bytes@.skip(0) =~= bytes@);
                Ok((bytes, node))
            },
            NodeKind::Palette => {
                if bytes.len() < 1 {
                    return Err(ParseError::Eof);
                }
                let n = bytes[0];
                if bytes.len() - 1 < 3 * (n as usize) {
                    return Err(ParseError::Eof);
                }
                let colors = parse_colors(bytes, 1, n);
                let end = 1 + 3 * (n as usize);
                Ok((&bytes[end..bytes.len()], NodeType::Palette(PaletteNode {
                    id: row.id,
                    position: row.position,
                    display: row.display,
                    locked: row.locked,
                    name: row.name.clone(),
                    colors,
                })))
            },
            _ => Err(ParseError::NoneOf),
        }
    }

    /// Write the node: its chunk's bytes go to `out`, whose first byte lies
    /// at `offset`; its index row goes to `rows`; the nodes to write after
    /// it go to `dependencies`. Gives back 0, whatever it wrote.
    pub fn write_node(&self, out: &mut Vec<u8>, offset: u64, rows: &mut Vec<IndexRow>, dependencies: &mut Vec<NodeType>) -> (r: usize)
        requires
            offset + old(out)@.len() + chunk_of_node(self@).len() <= u64::MAX,
        ensures
            final(out)@ == old(out)@ + chunk_of_node(self@),
            final(rows)@.len() == old(rows)@.len() + 1,
            final(rows)@.drop_last() == old(rows)@,
            final(rows)@.last()@ == row_of_node(self@, (offset + old(out)@.len()) as u64),
            nodes_view(final(dependencies)@) == nodes_view(old(dependencies)@) + deps_of_node(self@),
            r == 0,
    {
        let ghost start = out@;
        let here: u64 = offset + out.len() as u64;
        match self {
            NodeType::Note(x) => {
                let mut row = IndexRow::new(x.id);
                row.chunk_type = NodeKind::Note;
                row.chunk_offset = here;
                row.display = x.display;
                row.locked = x.locked;
                row.position = x.position;
                row.name = x.name.clone();
                assert(row@ == row_of_node(self@, (offset + old(out)@.len()) as u64));
                let ghost pushed = row;
                rows.push(row);
                assert(rows@.last() == pushed);
                assert(nodes_view(dependencies@) =~= nodes_view(old(dependencies)@) + deps_of_node(self@));
                assert(out@ =~= start + chunk_of_node(self@));
                0
            },
            NodeType::Palette(x) => {
                let count: u8 = (x.colors.len() % 256) as u8;
                out.push(count);
                let mut k: usize = 0;
                while k < x.colors.len()
                    invariant
                        k <= x.colors@.len(),
                        out@ == start + seq![(x.colors@.len() % 256) as u8] + colors_bytes(x.colors@.subrange(0, k as int)),
                    decreases x.colors@.len() - k,
                {
                    let c = x.colors[k];
                    out.push(c.r);
                    out.push(c.g);
                    out.push(c.b);
                    assert(x.colors@.subrange(0, k + 1).drop_last() =~= x.colors@.subrange(0, k as int));
                    k = k + 1;
                    assert(out@ =~= start + seq![(x.colors@.len() % 256) as u8] + colors_bytes(x.colors@.subrange(0, k as int)));
                }
                assert(x.colors@.subrange(0, x.colors@.len() as int) =~= x.colors@);
                assert(out@ =~= start + chunk_of_node(self@));
                let mut row = IndexRow::new(x.id);
                row.chunk_type = NodeKind::Palette;
                row.chunk_offset = offset + out.len() as u64;
                row.display = x.display;
                row.locked = x.locked;
                row.position = x.position;
                row.name = x.name.clone();
                assert(row@ == row_of_node(self@, (offset + old(out)@.len()) as u64));
                rows.push(row);
                assert(nodes_view(dependencies@) =~= nodes_view(old(dependencies)@) + deps_of_node(self@));
                0
            },
            NodeType::Group(x) => {
                let copies = clone_nodes(&x.children);
                let mut k: usize = 0;
                let ghost before = dependencies@;
                while k < copies.len()
                    invariant
                        k <= copies@.len(),
                        nodes_view(dependencies@) == nodes_view(before) + nodes_view(copies@.subrange(0, k as int)),
                    decreases copies@.len() - k,
                {
                    proof {
                        lemma_nodes_view_prefix(copies@, k as int);
                        lemma_nodes_view_push(dependencies@, copies@[k as int]);
                    }
                    let c = copies[k].clone();
                    let ghost prev = dependencies@;
                    dependencies.push(c);
                    proof {
                        lemma_nodes_view_push(prev, c);
                        assert(nodes_view(dependencies@) =~= nodes_view(before) + nodes_view(copies@.subrange(0, k + 1)));
                    }
                    k = k + 1;
                }
                assert(copies@.subrange(0, copies@.len() as int) =~= copies@);
                let mut row = IndexRow::new(x.id);
                row.chunk_type = NodeKind::Group;
                row.chunk_offset = here;
                row.display = x.display;
                row.locked = x.locked;
                row.folded = x.folded;
                row.position = x.position;
                row.name = x.name.clone();
                row.children = ids_of(&x.children);
                proof { crate::document::node::lemma_nodes_view_index(x.children@); }
                assert(row@.children =~= row_of_node(self@, (offset + old(out)@.len()) as u64).children);
                assert(row@ == row_of_node(self@, (offset + old(out)@.len()) as u64));
                rows.push(row);
                assert(out@ =~= start + chunk_of_node(self@));
                0
            },
        }
    }
}

proof fn lemma_colors_bytes_len(cs: Seq<RGB>)
    ensures
        colors_bytes(cs).len() == 3 * cs.len(),
    decreases cs.len(),
{
    if cs.len() > 0 {
        lemma_colors_bytes_len(cs.drop_last());
    }
}

/// Colours read back from where they were stored.
proof fn lemma_colors_read_back(s: Seq<u8>, at: int, cs: Seq<RGB>)
    requires
        0 <= at,
        at + 3 * cs.len() <= s.len(),
        s.subrange(at, at + 3 * cs.len()) == colors_bytes(cs),
    ensures
        colors_at(s, at, cs.len()) == cs,
    decreases cs.len(),
{
    if cs.len() > 0 {
        let m = cs.len() - 1;
        let head = cs.drop_last();
        lemma_colors_bytes_len(head);
        assert(s.subrange(at, at + 3 * m) =~= colors_bytes(cs).subrange(0, 3 * m));
        assert(colors_bytes(cs).subrange(0, 3 * m) =~= colors_bytes(head));
        lemma_colors_read_back(s, at, head);
        let whole = s.subrange(at, at + 3 * cs.len());
        assert(whole[3 * m] == cs.last().r);
        assert(whole[3 * m + 1] == cs.last().g);
        assert(whole[3 * m + 2] == cs.last().b);
        assert forall|k: int| 0 <= k < cs.len() implies #[trigger] colors_at(s, at, cs.len())[k] == cs[k] by {
            if k < m {
                assert(colors_at(s, at, head.len())[k] == head[k]);
            } else {
                assert(s[at + 3 * k] == whole[3 * m]);
                assert(s[at + 3 * k + 1] == whole[3 * m + 1]);
                assert(s[at + 3 * k + 2] == whole[3 * m + 2]);
            }
        }
        assert(colors_at(s, at, cs.len()) =~= cs);
    }
}

/// A node reads back as itself from the row and the chunk it wrote (a
/// group given its own children): notes and groups always, palettes of
/// fewer than 256 colours, whose count fits the count byte.
pub proof fn lemma_node_chunk_roundtrip(n: NodeView, offset: u64, rest: Seq<u8>)
    requires
        n matches NodeView::Palette(p) ==> p.colors.len() < 256,
    ensures
        node_parse(row_of_node(n, offset), deps_of_node(n), chunk_of_node(n) + rest)
            == Ok::<(nat, NodeView), ParseError>((chunk_of_node(n).len(), n)),
{
    match n {
        NodeView::Palette(p) => {
            lemma_colors_bytes_len(p.colors);
            let s = chunk_of_node(n) + rest;
            assert(s[0] == p.colors.len());
            assert(s.subrange(1, 1 + 3 * p.colors.len() as int) =~= colors_bytes(p.colors));
            lemma_colors_read_back(s, 1, p.colors);
        },
        _ => {},
    }
}

} // verus!
