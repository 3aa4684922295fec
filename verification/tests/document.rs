use pxlr::cli::{find_id_lazy, map_format_to_channel};
use pxlr::document::canvas::canvas::{CanvasError, FlipAxis};
use pxlr::document::canvas::interpolation::Interpolation;
use pxlr::document::color::{Channel, Color, A, I, RGB, UV, XYZ};
use pxlr::document::command::{CommandType, MoveChildCommand, RenameCommand};
use pxlr::document::math::{Extent2, Uuid, Vec2};
use pxlr::document::node::group::GroupNode;
use pxlr::document::node::{
    Displayed, Folded, INode, Locked, Named, NodeKind, NodeType, NoteNode, PaletteNode, Positioned,
};
use pxlr::document::parser::{
    parse_string, Header, Index, IndexRow, ParseError, Write,
};

fn f(v: f32) -> u32 {
    v.to_bits()
}

fn id(s: &str) -> Uuid {
    Uuid::from_u128(uuid::Uuid::parse_str(s).unwrap().as_u128())
}

fn note(id: Uuid, name: &str) -> NoteNode {
    NoteNode { id, position: Vec2::new(0, 0), display: true, locked: false, name: name.into() }
}

fn node_name(n: &NodeType) -> String {
    match n {
        NodeType::Note(n) => n.name(),
        NodeType::Group(g) => g.name(),
        NodeType::Palette(p) => p.name(),
    }
}

fn palette(colors: Vec<RGB>) -> PaletteNode {
    PaletteNode {
        id: Uuid::from_u128(7),
        position: Vec2::new(0, 0),
        display: true,
        locked: false,
        name: "Colors".into(),
        colors,
    }
}

fn colors_of(n: Option<NodeType>) -> Vec<RGB> {
    match n {
        Some(NodeType::Palette(p)) => p.colors,
        _ => panic!("Not a palette"),
    }
}

#[test]
fn test_interpolate_cubic() {
    assert_ne!(Interpolation::Nearest, Interpolation::Bilinear);
}

#[test]
fn test_channels() {
    let channels = Channel::from_bits(Channel::I | Channel::RGB | Channel::A | Channel::UV);
    let buffer: &[u8] = &[1, 1, 2, 3, 2, 0, 0, 128, 63, 0, 0, 0, 64];
    assert_eq!(channels.size(), 13);
    assert_eq!(channels.i(buffer).unwrap(), I::new(1));
    assert_eq!(channels.rgb(buffer).unwrap(), RGB::new(1, 2, 3));
    assert_eq!(channels.a(buffer).unwrap(), A::new(2));
    assert_eq!(channels.uv(buffer).unwrap(), UV::new(f(1.), f(2.)));
    assert!(channels.xyz(buffer).is_none());

    let buffer: &mut [u8] = &mut [1, 1, 2, 3, 2, 0, 0, 128, 63, 0, 0, 0, 64];
    assert_eq!(channels.size(), 13);
    assert_eq!(channels.i_mut(buffer, I::new(1)).unwrap(), I::new(1));
    assert_eq!(channels.rgb_mut(buffer, RGB::new(1, 2, 3)).unwrap(), RGB::new(1, 2, 3));
    assert_eq!(channels.a_mut(buffer, A::new(2)).unwrap(), A::new(2));
    assert_eq!(channels.uv_mut(buffer, UV::new(f(1.), f(2.))).unwrap(), UV::new(f(1.), f(2.)));
    assert!(channels.xyz_mut(buffer, XYZ::default()).is_none());
}

#[test]
fn test_channels_mut() {
    let channels = Channel::from_bits(Channel::I | Channel::RGB | Channel::A | Channel::UV);

    let mut buffer: Vec<u8> = vec![0u8; channels.size()];
    channels.i_mut(&mut buffer[..], I::new(1)).unwrap();
    channels.rgb_mut(&mut buffer[..], RGB::new(1, 2, 3)).unwrap();
    channels.a_mut(&mut buffer[..], A::new(2)).unwrap();
    channels.uv_mut(&mut buffer[..], UV::new(f(1.), f(2.))).unwrap();
    assert_eq!(buffer, &[1, 1, 2, 3, 2, 0, 0, 128, 63, 0, 0, 0, 64][..]);

    let buffer: &mut [u8] = &mut [1, 1, 2, 3, 2, 0, 0, 128, 63, 0, 0, 0, 64];
    {
        let mut rgb = channels.rgb(buffer).unwrap();
        rgb.r = 4;
        channels.rgb_mut(buffer, rgb).unwrap();
        assert_eq!(channels.rgb(buffer).unwrap(), RGB::new(4, 2, 3));
    }
    {
        let mut uv = channels.uv(buffer).unwrap();
        uv.u = f(3.);
        channels.uv_mut(buffer, uv).unwrap();
        assert_eq!(channels.uv(buffer).unwrap(), UV::new(f(3.), f(2.)));
    }
    assert_eq!(buffer, &[1, 4, 2, 3, 2, 0, 0, 64, 64, 0, 0, 0, 64]);
}

#[test]
fn channel_offsets_follow_component_order() {
    let c = Channel::from_bits(Channel::RGB | Channel::XYZ);
    assert_eq!(c.size(), 15);
    assert_eq!(c.offset_of(Channel::from_bits(Channel::RGB)), 0);
    assert_eq!(c.offset_of(Channel::from_bits(Channel::XYZ)), 3);
    let buffer: &[u8] = &[9, 8, 7, 1, 0, 0, 0, 2, 0, 0, 0, 3, 0, 0, 0];
    assert_eq!(c.xyz(buffer), Some(XYZ::new(1, 2, 3)));
    assert_eq!(c.i(buffer), None);
}

#[test]
fn test_execute() {
    let note = NoteNode {
        id: Uuid::from_u128(uuid::Uuid::new_v4().as_u128()),
        position: Vec2::new(0, 0),
        display: true,
        locked: false,
        name: "Foo".into(),
    };
    let (command, _) = note.rename("Bar".into()).unwrap();
    let node = note.execute(&command).unwrap();
    let note2 = match node {
        NodeType::Note(n) => n,
        _ => panic!("Not a node"),
    };
    assert_eq!(note.name, "Foo");
    assert_eq!(note2.name, "Bar");

    let group = GroupNode {
        id: id("fc2c9e3e-2cd7-4375-a6fe-49403cc9f82b"),
        position: Vec2::new(0, 0),
        display: true,
        locked: false,
        folded: false,
        name: "Foo".into(),
        children: vec![NodeType::Note(NoteNode {
            id: id("1c3deaf3-3c7f-444d-9e05-9ddbcc2b9391"),
            position: Vec2::new(0, 0),
            display: true,
            locked: false,
            name: "Foo".into(),
        })],
    };
    let (command, _) = match group.children.get(0).unwrap() {
        NodeType::Note(n) => n.rename("Bar".into()).unwrap(),
        _ => panic!("Not a note"),
    };
    let node = group.execute(&command).unwrap();
    let group2 = match node {
        NodeType::Group(n) => n,
        _ => panic!("Not a GroupNode"),
    };
    assert_eq!(node_name(group.children.get(0).unwrap()), "Foo");
    assert_eq!(node_name(group2.children.get(0).unwrap()), "Bar");
}

#[test]
fn setters_are_undone_by_their_pair() {
    let n = note(Uuid::from_u128(1), "Foo");
    let (doit, undo) = n.translate(Vec2::new(3, 4)).unwrap();
    let moved = match n.execute(&doit).unwrap() {
        NodeType::Note(m) => m,
        _ => panic!("Not a note"),
    };
    assert_eq!(moved.position(), Vec2::new(3, 4));
    let back = match moved.execute(&undo).unwrap() {
        NodeType::Note(m) => m,
        _ => panic!("Not a note"),
    };
    assert_eq!(back.position(), Vec2::new(0, 0));

    let (doit, undo) = n.set_lock(true).unwrap();
    let locked = NodeType::Note(n.clone()).execute(&doit).unwrap();
    assert!(locked.is_locked());
    assert!(!locked.execute(&undo).unwrap().is_locked());

    let (doit, _) = n.set_display(false).unwrap();
    assert!(!NodeType::Note(n.clone()).execute(&doit).unwrap().is_visible());
    assert!(n.set_fold(true).is_none());
    assert!(!n.folded());
    assert!(n.display() && !n.locked());
}

#[test]
fn command_for_another_node_is_ignored() {
    let n = note(Uuid::from_u128(1), "Foo");
    let other = CommandType::Rename(RenameCommand { target: Uuid::from_u128(2), name: "Bar".into() });
    assert!(n.execute(&other).is_none());
    let fold = CommandType::SetFold(pxlr::document::command::SetFoldCommand { target: Uuid::from_u128(1), folded: true });
    assert!(n.execute(&fold).is_none());
}

#[test]
fn group_passes_commands_to_children() {
    let inner = GroupNode {
        id: Uuid::from_u128(10),
        position: Vec2::new(0, 0),
        display: true,
        locked: false,
        folded: false,
        name: "Inner".into(),
        children: vec![NodeType::Note(note(Uuid::from_u128(11), "Deep"))],
    };
    let root = GroupNode {
        id: Uuid::from_u128(1),
        position: Vec2::new(0, 0),
        display: true,
        locked: false,
        folded: false,
        name: "Root".into(),
        children: vec![NodeType::Note(note(Uuid::from_u128(2), "Top")), NodeType::Group(inner)],
    };
    let rename = CommandType::Rename(RenameCommand { target: Uuid::from_u128(11), name: "Renamed".into() });
    let root2 = match root.execute(&rename).unwrap() {
        NodeType::Group(g) => g,
        _ => panic!("Not a GroupNode"),
    };
    assert_eq!(node_name(&root2.children[0]), "Top");
    match &root2.children[1] {
        NodeType::Group(g) => assert_eq!(node_name(&g.children[0]), "Renamed"),
        _ => panic!("Not a GroupNode"),
    }
    let missing = CommandType::Rename(RenameCommand { target: Uuid::from_u128(99), name: "X".into() });
    assert!(root.execute(&missing).is_none());

    let (fold, unfold) = root.set_fold(true).unwrap();
    let folded = NodeType::Group(root.clone()).execute(&fold).unwrap();
    assert!(folded.is_folded());
    assert!(!folded.execute(&unfold).unwrap().is_folded());
}

#[test]
fn group_child_commands() {
    let g = GroupNode {
        id: Uuid::from_u128(1),
        position: Vec2::new(0, 0),
        display: true,
        locked: false,
        folded: false,
        name: "G".into(),
        children: vec![],
    };
    let (add, undo) = g.add_child(NodeType::Note(note(Uuid::from_u128(5), "N"))).unwrap();
    let g2 = match g.execute(&add).unwrap() {
        NodeType::Group(g) => g,
        _ => panic!("Not a GroupNode"),
    };
    assert_eq!(g2.children.len(), 1);
    assert!(g2.add_child(NodeType::Note(note(Uuid::from_u128(6), "M"))).is_none());
    let (mv, mv_back) = g2.move_child(Uuid::from_u128(5), 0).unwrap();
    assert!(g2.move_child(Uuid::from_u128(9), 0).is_none());
    let moved = match g2.execute(&mv).unwrap() {
        NodeType::Group(g) => g,
        _ => panic!("Not a GroupNode"),
    };
    assert_eq!(moved.children[0].id(), Uuid::from_u128(5));
    assert!(matches!(mv_back, CommandType::MoveChild(MoveChildCommand { position: 0, .. })));
    let g3 = match g2.execute(&undo).unwrap() {
        NodeType::Group(g) => g,
        _ => panic!("Not a GroupNode"),
    };
    assert!(g3.children.is_empty());
    assert!(g3.remove_child(Uuid::from_u128(5)).is_none());
    let (rm, restore) = g2.remove_child(Uuid::from_u128(5)).unwrap();
    assert!(matches!(rm, CommandType::RemoveChild(_)));
    assert!(matches!(restore, CommandType::AddChild(_)));
}

#[test]
fn palette_add_remove_move() {
    let red = RGB::new(255, 0, 0);
    let green = RGB::new(0, 255, 0);
    let blue = RGB::new(0, 0, 255);
    let p = palette(vec![red, green]);
    assert!(p.add_color(red).is_none());
    let (add, undo) = p.add_color(blue).unwrap();
    let added = colors_of(p.execute(&add));
    assert_eq!(added, vec![red, green, blue]);
    assert_eq!(colors_of(palette(added).execute(&undo)), vec![red, green]);

    assert!(p.remove_color(blue).is_none());
    let (rm, undo) = p.remove_color(red).unwrap();
    let removed = colors_of(p.execute(&rm));
    assert_eq!(removed, vec![green]);
    assert_eq!(colors_of(palette(removed).execute(&undo)), vec![green, red]);

    let p = palette(vec![red, green, blue]);
    assert!(p.move_color(RGB::new(1, 1, 1), 0).is_none());
    let (mv, undo) = p.move_color(red, 2).unwrap();
    let moved = colors_of(p.execute(&mv));
    assert_eq!(moved, vec![green, blue, red]);
    assert_eq!(colors_of(palette(moved).execute(&undo)), vec![red, green, blue]);
    let (far, _) = p.move_color(green, 10).unwrap();
    assert_eq!(colors_of(p.execute(&far)), vec![red, blue, green]);
}

#[test]
fn it_parse_header() {
    let header = Header { version: 1 };
    let mut writer: Vec<u8> = Vec::new();
    let len = header.write(&mut writer);
    assert_eq!(len, 5);

    let buffer = &writer[..];
    let (buffer, header2) = Header::parse(buffer).unwrap();
    assert_eq!(header.version, header2.version);
    assert_eq!(buffer, []);
}

#[test]
fn header_errors() {
    assert_eq!(Header::parse(b"PXL").err(), Some(ParseError::Tag));
    assert_eq!(Header::parse(b"PNGR1").err(), Some(ParseError::Tag));
    assert_eq!(Header::parse(b"PXLR").err(), Some(ParseError::Eof));
}

#[test]
fn index_round_trip() {
    let index = Index { hash: Uuid::from_u128(3), root: Uuid::from_u128(4), size: 2, prev_offset: 77 };
    let mut out = Vec::new();
    assert_eq!(index.write(&mut out), 44);
    out.push(9);
    let (rest, back) = Index::parse(&out).unwrap();
    assert_eq!(back, index);
    assert_eq!(rest, [9]);
    assert_eq!(Index::parse(&out[..43]).err(), Some(ParseError::Eof));
}

#[test]
fn index_row_round_trip() {
    let mut row = IndexRow::new(Uuid::from_u128(0x0102));
    row.chunk_type = NodeKind::Palette;
    row.chunk_offset = 1234;
    row.chunk_size = 56;
    row.display = true;
    row.folded = true;
    row.position = Vec2::new(3, 4);
    row.size = Extent2::new(16, 8);
    row.name = "Foo".into();
    row.children = vec![Uuid::from_u128(1), Uuid::from_u128(2)];
    row.dependencies = vec![Uuid::from_u128(3)];
    let mut out = Vec::new();
    let n = row.write(&mut out);
    assert_eq!(n, 55 + 4 + 3 + 16 * 3);
    assert_eq!(n, out.len());
    assert_eq!(out[30], 1 | 4);
    let (rest, back) = IndexRow::parse(&out).unwrap();
    assert!(rest.is_empty());
    assert_eq!(back.id, row.id);
    assert_eq!(back.chunk_type, NodeKind::Palette);
    assert_eq!(back.chunk_offset, 1234);
    assert_eq!(back.chunk_size, 56);
    assert!(back.display && !back.locked && back.folded);
    assert_eq!(back.position, Vec2::new(3, 4));
    assert_eq!(back.size, Extent2::new(16, 8));
    assert_eq!(back.name, "Foo");
    assert_eq!(back.children, row.children);
    assert_eq!(back.dependencies, row.dependencies);
    assert_eq!(IndexRow::parse(&out[..out.len() - 1]).err(), Some(ParseError::Eof));
    let mut bad = out.clone();
    bad[16] = 9;
    assert_eq!(IndexRow::parse(&bad).err(), Some(ParseError::NoneOf));
}

#[test]
fn strings_and_kinds() {
    let s = String::from("héllo");
    let mut out = Vec::new();
    assert_eq!(s.write(&mut out), 4 + 6);
    let (rest, back) = parse_string(&out).unwrap();
    assert_eq!(back, "héllo");
    assert!(rest.is_empty());
    assert_eq!(parse_string(&[5, 0, 0, 0, b'a']).err(), Some(ParseError::Eof));
    let mut out = Vec::new();
    NodeKind::Canvas.write(&mut out);
    assert_eq!(out, vec![4, 0]);
    assert_eq!(NodeKind::parse(&out).unwrap().1, NodeKind::Canvas);
    assert_eq!(NodeKind::parse(&[5, 0]).err(), Some(ParseError::NoneOf));
    let mut out = Vec::new();
    Vec2::new(1, 2).write(&mut out);
    Extent2::new(3, 4).write(&mut out);
    Uuid::from_u128(5).write(&mut out);
    let (rest, v) = Vec2::parse(&out).unwrap();
    let (rest, e) = Extent2::parse(rest).unwrap();
    let (rest, u) = Uuid::parse(rest).unwrap();
    assert_eq!((v, e, u), (Vec2::new(1, 2), Extent2::new(3, 4), Uuid::from_u128(5)));
    assert!(rest.is_empty());
}

#[test]
fn formats_map_to_channels() {
    assert_eq!(map_format_to_channel("I"), Ok(Channel::from_bits(Channel::I)));
    assert_eq!(map_format_to_channel("IXYZ"), Ok(Channel::from_bits(Channel::I | Channel::XYZ)));
    assert_eq!(map_format_to_channel("RGB"), Ok(Channel::from_bits(Channel::RGB)));
    assert_eq!(map_format_to_channel("RGBXYZ"), Ok(Channel::from_bits(Channel::RGB | Channel::XYZ)));
    assert_eq!(map_format_to_channel("RGBA"), Ok(Channel::from_bits(Channel::RGB | Channel::A)));
    assert_eq!(
        map_format_to_channel("RGBAXYZ"),
        Ok(Channel::from_bits(Channel::RGB | Channel::A | Channel::XYZ))
    );
    assert_eq!(map_format_to_channel("UV"), Ok(Channel::from_bits(Channel::UV)));
    assert_eq!(map_format_to_channel("rgb"), Err("unknown format"));
    assert_eq!(map_format_to_channel(""), Err("unknown format"));
}

#[test]
fn canvas_vocabulary() {
    assert_ne!(FlipAxis::Horizontal, FlipAxis::Both);
    assert_ne!(CanvasError::ChannelMismatch, CanvasError::RegionNotContained);
}

fn parsed_id(text: &str) -> Uuid {
    let u = uuid::Uuid::parse_str(text).unwrap();
    Uuid::from_u128(u128::from_le_bytes(*u.as_bytes()))
}

#[test]
fn ids_are_found_by_the_start_of_their_text() {
    let a = parsed_id("fc2c9e3e-2cd7-4375-a6fe-49403cc9f82b");
    let b = parsed_id("1c3deaf3-3c7f-444d-9e05-9ddbcc2b9391");
    let ids = vec![a, b];
    assert_eq!(find_id_lazy(&ids, "1c3d"), Ok(b));
    assert_eq!(find_id_lazy(&ids, "fc2c9e3e-2cd7"), Ok(a));
    assert_eq!(find_id_lazy(&ids, "1c3deaf3-3c7f-444d-9e05-9ddbcc2b9391"), Ok(b));
    assert_eq!(find_id_lazy(&ids, ""), Ok(a));
    assert_eq!(find_id_lazy(&ids, "1C3D"), Err("Could not find node."));
    assert_eq!(find_id_lazy(&ids, "9"), Err("Could not find node."));
    let none: Vec<Uuid> = vec![];
    assert_eq!(find_id_lazy(&none, "1c3d"), Err("Could not find node."));
}

#[test]
fn document_errors_in_words() {
    assert_eq!(CanvasError::ChannelMismatch.to_string(), "Channel mismatch.");
    assert_eq!(CanvasError::RegionNotContained.to_string(), "Region not contained in this Canvas");
    assert_eq!(pxlr::document::canvas::CanvasError::ComponentMismatch.to_string(), "Component mismatch.");
    assert_eq!(pxlr::document::canvas::CanvasError::SizeMismatch.to_string(), "Size mismatch.");
}

#[test]
fn colors_count_their_values() {
    assert_eq!(I::components(), 1);
    assert_eq!(RGB::components(), 3);
    assert_eq!(A::components(), 1);
    assert_eq!(UV::components(), 2);
    assert_eq!(XYZ::components(), 3);
    assert_eq!((I::size(), RGB::size(), A::size(), UV::size(), XYZ::size()), (1, 3, 1, 8, 12));
}
