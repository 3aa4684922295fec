use pxlr::document::color::RGB;
use pxlr::document::file::{File, FileError};
use pxlr::document::math::{Uuid, Vec2};
use pxlr::document::node::group::GroupNode;
use pxlr::document::node::{NodeKind, NodeType, NoteNode, PaletteNode};
use pxlr::document::parser::ParseError;

fn note(id: u128, name: &str) -> NodeType {
    NodeType::Note(NoteNode { id: Uuid::from_u128(id), position: Vec2::new(1, 2), display: true, locked: false, name: name.into() })
}

fn tree() -> NodeType {
    NodeType::Group(GroupNode {
        id: Uuid::from_u128(1),
        position: Vec2::new(0, 0),
        display: true,
        locked: false,
        folded: false,
        name: "Root".into(),
        children: vec![
            note(2, "Foo"),
            NodeType::Palette(PaletteNode {
                id: Uuid::from_u128(3),
                position: Vec2::new(0, 0),
                display: true,
                locked: false,
                name: "Colors".into(),
                colors: vec![RGB::new(1, 2, 3)],
            }),
        ],
    })
}

fn ids(f: &File) -> Vec<u128> {
    f.rows.iter().map(|r| r.id.value).collect()
}

#[test]
fn new_file_is_empty() {
    let f = File::new();
    assert_eq!(f.header.version, 0);
    assert_eq!(f.index.root, Uuid::nil());
    assert_eq!((f.index.size, f.index.prev_offset), (0, 0));
    assert!(f.rows.is_empty() && f.uuid_index.is_empty());
}

#[test]
fn written_file_reads_back() {
    let mut f = File::new();
    let mut out = vec![0xAB; 3];
    let size = f.write(&mut out, &tree());
    assert_eq!(ids(&f), vec![1, 3, 2]);
    assert_eq!(&out[0..5], b"PXLR\0");
    assert_eq!(f.rows[0].chunk_offset, 5);
    assert_eq!(f.rows[1].chunk_type, NodeKind::Palette);
    assert_eq!(f.rows[1].chunk_offset, 9);
    assert_eq!(f.rows[2].chunk_offset, 9);
    assert_eq!(size, 5 + f.index.size as usize + 44);
    assert_eq!(out.len(), 5 + 4 + f.index.size as usize + 44);
    assert_eq!(f.index.root, Uuid::from_u128(1));
    assert_eq!(f.uuid_index.get(&2), Some(&2));

    let g = File::read_at(&out, out.len() as u64).unwrap();
    assert_eq!(ids(&g), vec![1, 3, 2]);
    assert_eq!(g.rows[0].name, "Root");
    assert_eq!(g.rows[0].children, vec![Uuid::from_u128(2), Uuid::from_u128(3)]);
    assert_eq!(g.index.root, Uuid::from_u128(1));
    assert_eq!(g.index.size, f.index.size);
    assert_eq!(g.index.hash, f.index.hash);
    assert_eq!(g.uuid_index.get(&3), Some(&1));
    assert_eq!(g.read_previous(&out).err(), Some(FileError::NoPreviousVersionFound));
}

#[test]
fn updated_file_keeps_previous_revision() {
    let mut f = File::new();
    let mut out = Vec::new();
    f.write(&mut out, &tree());
    let end = out.len();
    let size = f.update(&mut out, &note(2, "Bar"));
    assert_eq!(size, f.index.size as usize + 44);
    assert_eq!(f.index.prev_offset, end as u64);
    assert_eq!(ids(&f), vec![1, 3, 2]);
    assert_eq!(f.rows[2].name, "Bar");
    f.update(&mut out, &note(4, "New"));
    assert_eq!(ids(&f), vec![1, 3, 2, 4]);

    let last = File::read_at(&out, out.len() as u64).unwrap();
    assert_eq!(ids(&last), vec![1, 3, 2, 4]);
    let before = last.read_previous(&out).unwrap();
    assert_eq!(before.rows[2].name, "Bar");
    let first = before.read_previous(&out).unwrap();
    assert_eq!(first.rows[2].name, "Foo");
}

#[test]
fn reading_bad_files_fails() {
    let mut f = File::new();
    let mut out = Vec::new();
    f.write(&mut out, &note(7, "x"));
    let end = out.len() as u64;
    assert_eq!(File::read_at(&out[..4], 44).err(), Some(FileError::Unknown));
    assert_eq!(File::read_at(&out, end + 1).err(), Some(FileError::Unknown));
    let mut bad = out.clone();
    bad[0] = b'Q';
    assert_eq!(File::read_at(&bad, end).err(), Some(FileError::Parse(ParseError::Tag)));
    let mut newer = out.clone();
    newer[4] = 1;
    assert_eq!(File::read_at(&newer, end).err(), Some(FileError::VersionNotSupported(1)));
}

fn notes_tree() -> NodeType {
    NodeType::Group(GroupNode {
        id: Uuid::from_u128(1),
        position: Vec2::new(5, 6),
        display: true,
        locked: true,
        folded: true,
        name: "Root".into(),
        children: vec![
            note(2, "Foo"),
            NodeType::Group(GroupNode {
                id: Uuid::from_u128(3),
                position: Vec2::new(0, 0),
                display: false,
                locked: false,
                folded: false,
                name: "Inner".into(),
                children: vec![note(4, "Bar")],
            }),
        ],
    })
}

fn names(n: &NodeType) -> Vec<String> {
    match n {
        NodeType::Note(x) => vec![x.name.clone()],
        NodeType::Palette(x) => vec![x.name.clone()],
        NodeType::Group(g) => {
            let mut v = vec![g.name.clone()];
            for c in g.children.iter() {
                v.extend(names(c));
            }
            v
        }
    }
}

#[test]
fn nodes_are_got_back_from_a_written_file() {
    let mut f = File::new();
    let mut out = Vec::new();
    f.write(&mut out, &notes_tree());
    let mut g = File::read_at(&out, out.len() as u64).unwrap();
    let root = g.get(&out, Uuid::from_u128(1)).unwrap();
    assert_eq!(names(&root), vec!["Root", "Foo", "Inner", "Bar"]);
    match &root {
        NodeType::Group(r) => assert!(r.display && r.locked && r.folded && r.position == Vec2::new(5, 6)),
        _ => panic!("Not a group"),
    }
    assert_eq!(g.cache_node.len(), 4);
    let bar = g.get(&out, Uuid::from_u128(4)).unwrap();
    assert_eq!(names(&bar), vec!["Bar"]);
    assert_eq!(g.get(&out, Uuid::from_u128(99)).err(), Some(FileError::NodeNotFound(Uuid::from_u128(99))));
}

#[test]
fn palettes_are_not_got_back() {
    let mut f = File::new();
    let mut out = Vec::new();
    let p = NodeType::Palette(PaletteNode {
        id: Uuid::from_u128(8),
        position: Vec2::new(0, 0),
        display: true,
        locked: false,
        name: "P".into(),
        colors: vec![RGB::new(1, 2, 3)],
    });
    f.write(&mut out, &p);
    let mut g = File::read_at(&out, out.len() as u64).unwrap();
    assert_eq!(g.get(&out, Uuid::from_u128(8)).err(), Some(FileError::NodeNotFound(Uuid::from_u128(8))));
}

#[test]
fn getting_from_a_truncated_file_fails() {
    let mut f = File::new();
    let mut out = Vec::new();
    f.write(&mut out, &notes_tree());
    let mut g = File::read_at(&out, out.len() as u64).unwrap();
    g.rows[0].chunk_offset = out.len() as u64 + 1;
    assert_eq!(g.get(&out, Uuid::from_u128(1)).err(), Some(FileError::Unknown));
    assert_eq!(g.cache_node.len(), 3);
}

use pxlr::cli::load_file_at;

fn hash_text(id: Uuid) -> String {
    uuid::Uuid::from_bytes(id.value.to_le_bytes()).to_string()
}

#[test]
fn revisions_are_found_by_the_start_of_their_hash() {
    // Revisions written through one file share its hash; a second file
    // appends a revision with a hash of its own.
    let mut f = File::new();
    let mut g = File::new();
    let mut out = Vec::new();
    f.write(&mut out, &tree());
    g.update(&mut out, &note(2, "Bar"));
    f.update(&mut out, &note(4, "New"));

    let last = File::read(&out).unwrap();
    assert_eq!(ids(&last), vec![1, 3, 2, 4]);
    assert_eq!(last.index.hash, f.index.hash);
    let latest = load_file_at(&out, None).unwrap();
    assert_eq!(latest.index, last.index);
    let middle = last.read_previous(&out).unwrap();
    assert_eq!(middle.index.hash, g.index.hash);
    let first = middle.read_previous(&out).unwrap();
    assert_eq!(first.index.hash, f.index.hash);

    let text = hash_text(g.index.hash);
    let found = load_file_at(&out, Some(&text[..8])).unwrap();
    assert_eq!(found.index, middle.index);
    assert_eq!(ids(&found), vec![2]);
    assert_eq!(found.rows[0].name, "Bar");
    let found = load_file_at(&out, Some(&text)).unwrap();
    assert_eq!(found.index, middle.index);

    let text = hash_text(f.index.hash);
    let found = load_file_at(&out, Some(&text[..12])).unwrap();
    assert_eq!(found.index, last.index);
    let found = load_file_at(&out, Some("")).unwrap();
    assert_eq!(found.index, last.index);

    let hashes = [hash_text(f.index.hash), hash_text(g.index.hash)];
    let missing = ["0", "1", "2", "3", "4", "5", "6", "7", "8", "9", "a", "b", "c", "d", "e", "f"]
        .iter()
        .find(|p| hashes.iter().all(|h| !h.starts_with(*p)))
        .unwrap();
    assert_eq!(load_file_at(&out, Some(missing)).err(), Some("Could not find revision."));
}

#[test]
fn got_nodes_stay_cached_under_their_identifiers() {
    let mut f = File::new();
    let mut out = Vec::new();
    f.write(&mut out, &notes_tree());
    let mut g = File::read_at(&out, out.len() as u64).unwrap();
    assert!(g.cache_node.is_empty());
    let root = g.get(&out, Uuid::from_u128(1)).unwrap();
    for (key, node) in g.cache_node.iter() {
        assert_eq!(node.id().value, *key);
    }
    // Once cached, a node comes back without the file's bytes.
    let again = g.get(&[], Uuid::from_u128(1)).unwrap();
    assert_eq!(names(&again), names(&root));
    assert_eq!(again.id(), Uuid::from_u128(1));
}
