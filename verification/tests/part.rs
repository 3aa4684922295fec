use pxlr::document::math::{Extent2, Uuid, Vec2Bits};
use pxlr::document::part::{rows_from_bytes, ChunkType, PartitionTable, PartitionTableRow};
use pxlr::document::writer::Writer;

fn random_id() -> Uuid {
    Uuid::from_u128(u128::from_le_bytes(*uuid::Uuid::new_v4().as_bytes()))
}

fn at(x: f32, y: f32) -> Vec2Bits {
    Vec2Bits { x: x.to_bits(), y: y.to_bits() }
}

fn row(name: &str, y: f32) -> PartitionTableRow {
    PartitionTableRow {
        id: random_id(),
        chunk_type: ChunkType::Note,
        chunk_offset: 0,
        chunk_size: 8,
        position: at(10., y),
        size: Extent2::new(0, 0),
        name: name.into(),
        children: vec![],
        preview: vec![],
    }
}

#[test]
fn it_parse_partition_table_row() {
    let row = row("Foo", 10.);
    let mut writer: Vec<u8> = Vec::new();
    let len = row.write_to(&mut writer);
    assert_eq!(len, 61);

    let (buffer, row2) = PartitionTableRow::from_bytes(&writer).unwrap();
    assert_eq!(row.id, row2.id);
    assert_eq!(row.chunk_type, row2.chunk_type);
    assert_eq!(row.chunk_offset, row2.chunk_offset);
    assert_eq!(row.chunk_size, row2.chunk_size);
    assert_eq!(row.position, row2.position);
    assert_eq!(row.size, row2.size);
    assert_eq!(row.name, row2.name);
    assert_eq!(row.children, row2.children);
    assert_eq!(row.preview, row2.preview);
    assert_eq!(buffer, []);
}

#[test]
fn it_parse_partition_table_rows() {
    let rows = vec![row("Foo", 10.), row("Bar", 20.)];
    let mut writer: Vec<u8> = Vec::new();
    let len = rows.write_to(&mut writer);
    assert_eq!(len, 122);

    let (buffer, rows2) = rows_from_bytes(&writer);
    assert_eq!(rows, rows2);
    assert_eq!(buffer, []);
}

#[test]
fn partition_rows_keep_children_and_preview() {
    let mut r = row("Été", 1.5);
    r.chunk_type = ChunkType::CanvasRGBAXYZ;
    r.chunk_offset = 1 << 40;
    r.size = Extent2::new(3, 4);
    r.children = vec![7, 70000];
    r.preview = vec![1, 2, 3];
    let mut out = vec![9u8];
    let len = r.write_to(&mut out);
    assert_eq!(len, 58 + 5 + 8 + 3);
    assert_eq!(out.len(), 1 + len);
    assert_eq!(out[0], 9);
    out.extend_from_slice(&[0xAA, 0xBB]);
    let (rest, back) = PartitionTableRow::from_bytes(&out[1..]).unwrap();
    assert_eq!(back, r);
    assert_eq!(rest, [0xAA, 0xBB]);
    // Too few bytes for the preview.
    assert!(PartitionTableRow::from_bytes(&out[1..out.len() - 3]).is_err());
    // Reading rows stops at bytes that hold no whole row.
    let (rest, rows) = rows_from_bytes(&out[1..]);
    assert_eq!(rows, vec![r]);
    assert_eq!(rest, [0xAA, 0xBB]);
}

#[test]
fn partition_table_record() {
    let t = PartitionTable { hash: Uuid::from_u128(0x0102), size: 3 };
    let mut out = Vec::new();
    assert_eq!(t.write_to(&mut out), 5);
    assert_eq!(out.len(), 20);
    assert_eq!(&out[0..6], &[3, 0, 0, 0, 0x02, 0x01]);
    let (rest, back) = PartitionTable::from_bytes(&out).unwrap();
    assert_eq!(back, t);
    assert!(rest.is_empty());
    assert!(PartitionTable::from_bytes(&out[..19]).is_err());
}

#[test]
fn chunk_type_numbers() {
    let mut out = Vec::new();
    assert_eq!(ChunkType::CanvasIXYZ.write_to(&mut out), 2);
    assert_eq!(out, vec![4, 0]);
    assert_eq!(ChunkType::from_bytes(&[5, 0]).unwrap().1, ChunkType::CanvasIXYZ);
    assert_eq!(ChunkType::from_bytes(&[7, 0]).unwrap().1, ChunkType::CanvasRGBA);
    assert_eq!(ChunkType::from_bytes(&[8, 0, 1]).unwrap(), (&[1u8][..], ChunkType::CanvasRGBAXYZ));
    assert!(ChunkType::from_bytes(&[1]).is_err());
}

#[test]
fn lists_write_their_values_in_turn() {
    let tables = vec![
        PartitionTable { hash: Uuid::from_u128(1), size: 2 },
        PartitionTable { hash: Uuid::from_u128(3), size: 4 },
    ];
    let mut out = vec![9u8];
    assert_eq!(tables.write_to(&mut out), 10);
    assert_eq!(out.len(), 41);
    let (rest, first) = PartitionTable::from_bytes(&out[1..]).unwrap();
    assert_eq!(first, tables[0]);
    let (rest, second) = PartitionTable::from_bytes(rest).unwrap();
    assert_eq!(second, tables[1]);
    assert!(rest.is_empty());

    let mut out = Vec::new();
    assert_eq!(vec![ChunkType::Note, ChunkType::CanvasRGBA].write_to(&mut out), 4);
    assert_eq!(out, vec![1, 0, 7, 0]);
    let empty: Vec<ChunkType> = Vec::new();
    assert_eq!(empty.write_to(&mut out), 0);
    assert_eq!(out, vec![1, 0, 7, 0]);
}
