use pxlr::document::color::RGB;
use pxlr::document::math::{Uuid, Vec2};
use pxlr::document::node::group::GroupNode;
use pxlr::document::node::{NodeKind, NodeType, NoteNode, PaletteNode};
use pxlr::document::parser::{IndexRow, ParseError};

fn note(id: u128, name: &str) -> NodeType {
    NodeType::Note(NoteNode {
        id: Uuid::from_u128(id),
        position: Vec2::new(3, 4),
        display: true,
        locked: true,
        name: name.into(),
    })
}

#[test]
fn notes_write_a_row_and_no_chunk() {
    let n = note(5, "Hi");
    let mut out = vec![0u8; 3];
    let mut rows = Vec::new();
    let mut deps = Vec::new();
    assert_eq!(n.write_node(&mut out, 100, &mut rows, &mut deps), 0);
    assert_eq!(out, vec![0u8; 3]);
    assert!(deps.is_empty());
    let row = &rows[0];
    assert_eq!(row.id, Uuid::from_u128(5));
    assert_eq!(row.chunk_type, NodeKind::Note);
    assert_eq!(row.chunk_offset, 103);
    assert_eq!(row.chunk_size, 0);
    assert!(row.display && row.locked && !row.folded);
    assert_eq!(row.position, Vec2::new(3, 4));
    assert_eq!(row.name, "Hi");
    let (rest, back) = NodeType::parse_node(row, vec![], vec![], &[9, 9]).unwrap();
    assert_eq!(rest, [9, 9]);
    match back {
        NodeType::Note(b) => {
            assert_eq!((b.id, b.position, b.display, b.locked), (Uuid::from_u128(5), Vec2::new(3, 4), true, true));
            assert_eq!(b.name, "Hi");
        }
        _ => panic!("Not a note"),
    }
}

#[test]
fn groups_hand_their_children_on() {
    let g = NodeType::Group(GroupNode {
        id: Uuid::from_u128(1),
        position: Vec2::new(0, 0),
        display: true,
        locked: false,
        folded: true,
        name: "G".into(),
        children: vec![note(2, "a"), note(3, "b")],
    });
    let mut out = Vec::new();
    let mut rows = Vec::new();
    let mut deps = vec![note(9, "before")];
    g.write_node(&mut out, 0, &mut rows, &mut deps);
    assert!(out.is_empty());
    assert_eq!(rows[0].chunk_type, NodeKind::Group);
    assert!(rows[0].folded);
    assert_eq!(rows[0].children, vec![Uuid::from_u128(2), Uuid::from_u128(3)]);
    assert_eq!(deps.iter().map(|d| d.id().value).collect::<Vec<_>>(), vec![9, 2, 3]);
    let (_, back) = NodeType::parse_node(&rows[0], vec![note(2, "a")], vec![], &[]).unwrap();
    match back {
        NodeType::Group(b) => {
            assert!(b.folded && b.display && !b.locked);
            assert_eq!(b.children.len(), 1);
        }
        _ => panic!("Not a group"),
    }
}

#[test]
fn palettes_write_their_colours_before_their_row() {
    let p = NodeType::Palette(PaletteNode {
        id: Uuid::from_u128(7),
        position: Vec2::new(1, 1),
        display: false,
        locked: false,
        name: "P".into(),
        colors: vec![RGB::new(1, 2, 3), RGB::new(4, 5, 6)],
    });
    let mut out = vec![0xEE];
    let mut rows = Vec::new();
    let mut deps = Vec::new();
    assert_eq!(p.write_node(&mut out, 10, &mut rows, &mut deps), 0);
    assert_eq!(out, vec![0xEE, 2, 1, 2, 3, 4, 5, 6]);
    assert_eq!(rows[0].chunk_type, NodeKind::Palette);
    assert_eq!(rows[0].chunk_offset, 18);
    assert_eq!(rows[0].chunk_size, 0);
    let (rest, back) = NodeType::parse_node(&rows[0], vec![], vec![], &out[1..]).unwrap();
    assert!(rest.is_empty());
    match back {
        NodeType::Palette(b) => assert_eq!(b.colors, vec![RGB::new(1, 2, 3), RGB::new(4, 5, 6)]),
        _ => panic!("Not a palette"),
    }
    assert_eq!(NodeType::parse_node(&rows[0], vec![], vec![], &[2, 1, 2, 3]).err(), Some(ParseError::Eof));
    assert_eq!(NodeType::parse_node(&rows[0], vec![], vec![], &[]).err(), Some(ParseError::Eof));
}

#[test]
fn sprite_rows_are_not_read_as_nodes() {
    let mut row = IndexRow::new(Uuid::from_u128(1));
    row.chunk_type = NodeKind::Sprite;
    assert_eq!(NodeType::parse_node(&row, vec![], vec![], &[]).err(), Some(ParseError::NoneOf));
}
