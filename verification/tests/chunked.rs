use pxlr::document::chunked::{Error, File};
use pxlr::document::document::{DocumentNode, Node};
use pxlr::document::group::Group;
use pxlr::document::math::{Uuid, Vec2Bits};
use pxlr::document::note::Note;
use pxlr::document::parser::ParseError;
use pxlr::document::part::ChunkType;

fn id(text: &str) -> Uuid {
    Uuid::from_u128(u128::from_le_bytes(*uuid::Uuid::parse_str(text).unwrap().as_bytes()))
}

fn origin() -> Vec2Bits {
    Vec2Bits { x: 0f32.to_bits(), y: 0f32.to_bits() }
}

fn empty_file() -> Vec<u8> {
    vec![
        0x50, 0x58, 0x4C, 0x52, 0x00, 0x00, 0x00, 0x00, 0x00, 0x4B, 0x26, 0xC4, 0x71, 0x30,
        0x98, 0x4C, 0xCE, 0x9C, 0xDB, 0x9E, 0x77, 0xDB, 0xD3, 0x02, 0xEF,
    ]
}

fn doc() -> Group {
    Group::new(
        Some(id("fc2c9e3e-2cd7-4375-a6fe-49403cc9f82b")),
        "Root",
        origin(),
        vec![DocumentNode::Note(Note::new(
            Some(id("1c3deaf3-3c7f-444d-9e05-9ddbcc2b9391")),
            "Foo",
            origin(),
        ))],
    )
}

#[test]
fn it_reads_empty_file() {
    let buffer = empty_file();
    let file = File::from(&buffer).unwrap();
    println!("Version {}", file.header.version);
    println!("Table hash={:?}, size={}", file.table.hash, file.table.size);
    println!("Table rows {:?}", file.rows);
}

#[test]
fn it_writes_file() {
    let buffer = empty_file();
    println!("len:{} : {:X?}", buffer.len(), buffer);
    let mut file = File::from(&buffer).unwrap();

    let mut buffer = buffer;
    file.append(&Node::Group(doc()), &mut buffer).unwrap();

    println!("len:{} : {:X?}", buffer.len(), buffer);

    let file = File::from(&buffer).unwrap();
    println!("Version {}", file.header.version);
    println!("Table hash={:?}, size={}", file.table.hash, file.table.size);
    println!("Table rows {:?}", file.rows);
}

#[test]
fn appended_revisions_read_back() {
    let mut buffer = empty_file();
    let mut file = File::from(&buffer).unwrap();
    assert!(file.rows.is_empty());
    assert_eq!(file.table.size, 0);
    let size = file.append(&Node::Group(doc()), &mut buffer).unwrap();
    assert_eq!(size, 61 + 66 + 5);
    assert_eq!(buffer.len(), 25 + 61 + 66 + 20);
    assert_eq!(file.rows.len(), 2);
    assert_eq!(file.rows[0].chunk_type, ChunkType::Note);
    assert_eq!(file.rows[0].name, "Foo");
    assert_eq!(file.rows[1].chunk_type, ChunkType::Group);
    assert_eq!(file.rows[1].children, vec![0]);
    assert_eq!(file.rows[1].chunk_offset, 25);
    assert_eq!(file.table.size, 127);

    let back = File::from(&buffer).unwrap();
    assert_eq!(back.rows, file.rows);
    assert_eq!(back.table, file.table);
    assert_eq!(back.chunks.get(&id("fc2c9e3e-2cd7-4375-a6fe-49403cc9f82b").value), Some(&1));

    let end = buffer.len() as u64;
    let mut again = back;
    again.append(&Node::Group(doc()), &mut buffer).unwrap();
    assert_eq!(again.rows.len(), 2);
    assert_eq!(again.rows[0].chunk_offset, end);
    assert_eq!(again.rows[1].chunk_offset, end);
    assert_eq!(again.append(&Node::Unknown, &mut buffer), Ok(127 + 5));
}

#[test]
fn partition_files_that_cannot_be_read() {
    assert_eq!(File::from(&[0x50, 0x58]).err(), Some(Error::ParseError(ParseError::Tag)));
    assert_eq!(File::from(b"PXLR\0").err(), Some(Error::Unknown));
    let mut short = empty_file();
    short[5] = 200;
    assert_eq!(File::from(&short).err(), Some(Error::Unknown));
    assert_eq!(Error::VersionNotSupported.to_string(), "Version not supported.");
    assert_eq!(Error::ParseError(ParseError::Eof).to_string(), "Could not parse the file.");
}
