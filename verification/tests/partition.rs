use pxlr::document::math::{Extent2, Uuid, Vec2Bits};
use pxlr::document::partition::{ChunkType, PartitionIndex, PartitionTable, PartitionTableRow};

fn row(id: u128, name: &str) -> PartitionTableRow {
    PartitionTableRow {
        id: Uuid::from_u128(id),
        chunk_type: ChunkType::LayerGroup,
        chunk_offset: 12,
        chunk_size: 34,
        is_root: false,
        is_visible: true,
        is_locked: false,
        is_folded: false,
        position: Vec2Bits { x: 1.5f32.to_bits(), y: (-2f32).to_bits() },
        size: Extent2::new(5, 6),
        name: name.into(),
        children: vec![1, 2],
        preview: vec![0xFF],
    }
}

#[test]
fn index_rows_write_and_read_back_with_flags_set() {
    let r = row(0x77, "Layer");
    let mut out = Vec::new();
    let n = r.write(&mut out);
    assert_eq!(n, 59 + 5 + 8 + 1);
    assert_eq!(out.len(), n);
    assert_eq!(out[30], 2);
    out.push(0x42);
    let (rest, back) = PartitionTableRow::parse(&out).unwrap();
    assert_eq!(rest, [0x42]);
    assert_eq!(back.id, r.id);
    assert_eq!(back.chunk_type, ChunkType::LayerGroup);
    assert_eq!((back.chunk_offset, back.chunk_size), (12, 34));
    assert_eq!(back.position, r.position);
    assert_eq!(back.size, r.size);
    assert_eq!(back.name, "Layer");
    assert_eq!(back.children, vec![1, 2]);
    assert_eq!(back.preview, vec![0xFF]);
    assert!(back.is_root && back.is_visible && back.is_locked && back.is_folded);
    assert!(PartitionTableRow::parse(&out[..58]).is_err());
}

#[test]
fn index_table_and_chunk_types() {
    let t = PartitionTable { hash: Uuid::from_u128(9), size: 2, root_child: 1 };
    let mut out = Vec::new();
    assert_eq!(t.write(&mut out), 24);
    assert_eq!(&out[0..8], &[1, 0, 0, 0, 2, 0, 0, 0]);
    assert_eq!(PartitionTable::parse(&out).unwrap().1, t);
    let mut c = Vec::new();
    assert_eq!(ChunkType::CanvasRGB.write(&mut c), 2);
    assert_eq!(c, vec![7, 0]);
    assert_eq!(ChunkType::parse(&[9, 0]).unwrap().1, ChunkType::CanvasRGBAXYZ);
    assert_eq!(ChunkType::parse(&[3, 0]).unwrap().1, ChunkType::LayerGroup);
}

#[test]
fn partition_index_finds_last_row_of_each_id() {
    let table = PartitionTable { hash: Uuid::from_u128(1), size: 3, root_child: 0 };
    let mut index = PartitionIndex::new(table, vec![row(10, "a"), row(20, "b"), row(10, "c")]);
    assert_eq!(index.index_uuid.len(), 2);
    assert_eq!(index.index_uuid.get(&10), Some(&2));
    assert_eq!(index.index_uuid.get(&20), Some(&1));
    index.rows.remove(2);
    index.reindex_rows();
    assert_eq!(index.index_uuid.get(&10), Some(&0));
    assert_eq!(index.table, table);
}
