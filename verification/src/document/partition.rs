//! The partition index of a revision: its table record, one row per node
//! with the node's flags, and a map from node identifiers to rows.
use vstd::prelude::*;
use vstd::bytes::*;
use vstd::utf8::{valid_utf8, decode_utf8, encode_utf8, encode_utf8_valid_utf8, encode_utf8_decode_utf8};
use vstd::slice::slice_to_vec;
use std::collections::HashMap;
use crate::document::math::{Extent2, Uuid, Vec2Bits};
use crate::document::parser::{
    ParseError, SpecParse, Write, parsed, u16_at, u32_at, u64_at, u128_at, uuid_bytes,
    extent2_bytes, string_bytes, parse_string, read_u16_at, read_u32_at, read_u64_at,
    parse_uuid_at, append,
};
use crate::document::part::{
    u32s_at, u32s_bytes, parse_u32s, write_u32s, lemma_u32s_bytes_len, lemma_u32s_read_back,
};

verus! {

/// The table record: the row of the root's first child, how many rows
/// follow, and the revision's hash.
#[derive(Debug, Clone, Copy, PartialEq, Eq, Structural)]
pub struct PartitionTable {
    pub hash: Uuid,
    pub size: u32,
    pub root_child: u32,
}

impl View for PartitionTable {
    type V = PartitionTable;

    open spec fn view(&self) -> PartitionTable {
        *self
    }
}

pub open spec fn table_parse(s: Seq<u8>) -> SpecParse<PartitionTable> {
    if s.len() < 24 {
        Err(ParseError::Eof)
    } else {
        Ok((24, PartitionTable {
            root_child: u32_at(s, 0),
            size: u32_at(s, 4),
            hash: Uuid { value: u128_at(s, 8) },
        }))
    }
}

pub open spec fn table_bytes(t: PartitionTable) -> Seq<u8> {
    spec_u32_to_le_bytes(t.root_child) + spec_u32_to_le_bytes(t.size) + uuid_bytes(t.hash)
}

impl PartitionTable {
    pub fn parse(bytes: &[u8]) -> (r: Result<(&[u8], PartitionTable), ParseError>)
        ensures
            parsed(bytes@, r, table_parse(bytes@)),
    {
        if bytes.len() < 24 {
            return Err(ParseError::Eof);
        }
        let t = PartitionTable {
            root_child: read_u32_at(bytes, 0),
            size: read_u32_at(bytes, 4),
            hash: parse_uuid_at(bytes, 8),
        };
        Ok((&bytes[24..bytes.len()], t))
    }

    /// Append the record's 24 bytes; gives back 24.
    pub fn write(&self, out: &mut Vec<u8>) -> (r: usize)
        ensures
            final(out)@ == old(out)@ + table_bytes(*self),
            r == 24,
    {
        proof {
            lemma_auto_spec_u32_to_from_le_bytes();
            lemma_auto_spec_u128_to_from_le_bytes();
        }
        append(out, u32_to_le_bytes(self.root_child));
        append(out, u32_to_le_bytes(self.size));
        append(out, u128_to_le_bytes(self.hash.value));
        assert(out@ =~= old(out)@ + table_bytes(*self));
        24
    }
}

/// What a table record reads back as.
pub proof fn lemma_table_roundtrip(t: PartitionTable, rest: Seq<u8>)
    ensures
        table_parse(table_bytes(t) + rest) == Ok::<(nat, PartitionTable), ParseError>((24, t)),
{
    lemma_auto_spec_u32_to_from_le_bytes();
    lemma_auto_spec_u128_to_from_le_bytes();
    let s = table_bytes(t) + rest;
    assert(s.subrange(0, 4) =~= spec_u32_to_le_bytes(t.root_child));
    assert(s.subrange(4, 8) =~= spec_u32_to_le_bytes(t.size));
    assert(s.subrange(8, 24) =~= uuid_bytes(t.hash));
}

/// What a chunk holds.
#[derive(Debug, Clone, Copy, PartialEq, Eq, Structural)]
pub enum ChunkType {
    Group,
    Note,
    Sprite,
    LayerGroup,
    CanvasI,
    CanvasIXYZ,
    CanvasUV,
    CanvasRGB,
    CanvasRGBA,
    CanvasRGBAXYZ,
}

impl View for ChunkType {
    type V = ChunkType;

    open spec fn view(&self) -> ChunkType {
        *self
    }
}

/// The chunk type stored as `code`, which runs from 0 to 9.
pub open spec fn chunk_of(code: u16) -> ChunkType {
    if code == 0 {
        ChunkType::Group
    } else if code == 1 {
        ChunkType::Note
    } else if code == 2 {
        ChunkType::Sprite
    } else if code == 3 {
        ChunkType::LayerGroup
    } else if code == 4 {
        ChunkType::CanvasI
    } else if code == 5 {
        ChunkType::CanvasIXYZ
    } else if code == 6 {
        ChunkType::CanvasUV
    } else if code == 7 {
        ChunkType::CanvasRGB
    } else if code == 8 {
        ChunkType::CanvasRGBA
    } else {
        ChunkType::CanvasRGBAXYZ
    }
}

pub open spec fn chunk_code(c: ChunkType) -> u16 {
    match c {
        ChunkType::Group => 0,
        ChunkType::Note => 1,
        ChunkType::Sprite => 2,
        ChunkType::LayerGroup => 3,
        ChunkType::CanvasI => 4,
        ChunkType::CanvasIXYZ => 5,
        ChunkType::CanvasUV => 6,
        ChunkType::CanvasRGB => 7,
        ChunkType::CanvasRGBA => 8,
        ChunkType::CanvasRGBAXYZ => 9,
    }
}

/// A chunk type can be read here: fewer than two bytes, or a stored
/// number from 0 to 9.
pub open spec fn chunk_ok(s: Seq<u8>) -> bool {
    s.len() >= 2 ==> u16_at(s, 0) <= 9
}

pub open spec fn chunk_parse(s: Seq<u8>) -> SpecParse<ChunkType> {
    if s.len() < 2 {
        Err(ParseError::Eof)
    } else {
        Ok((2, chunk_of(u16_at(s, 0))))
    }
}

pub open spec fn chunk_bytes(c: ChunkType) -> Seq<u8> {
    spec_u16_to_le_bytes(chunk_code(c))
}

fn chunk_from_code(code: u16) -> (r: ChunkType)
    requires
        code <= 9,
    ensures
        r == chunk_of(code),
{
    match code {
        0 => ChunkType::Group,
        1 => ChunkType::Note,
        2 => ChunkType::Sprite,
        3 => ChunkType::LayerGroup,
        4 => ChunkType::CanvasI,
        5 => ChunkType::CanvasIXYZ,
        6 => ChunkType::CanvasUV,
        7 => ChunkType::CanvasRGB,
        8 => ChunkType::CanvasRGBA,
        _ => ChunkType::CanvasRGBAXYZ,
    }
}

impl ChunkType {
    pub fn parse(bytes: &[u8]) -> (r: Result<(&[u8], ChunkType), ParseError>)
        requires
            chunk_ok(bytes@),
        ensures
            parsed(bytes@, r, chunk_parse(bytes@)),
    {
        if bytes.len() < 2 {
            return Err(ParseError::Eof);
        }
        let c = chunk_from_code(read_u16_at(bytes, 0));
        Ok((&bytes[2..bytes.len()], c))
    }

    /// Append the chunk type's number; gives back 2.
    pub fn write(&self, out: &mut Vec<u8>) -> (r: usize)
        ensures
            final(out)@ == old(out)@ + chunk_bytes(*self),
            r == 2,
    {
        let code: u16 = match self {
            ChunkType::Group => 0,
            ChunkType::Note => 1,
            ChunkType::Sprite => 2,
            ChunkType::LayerGroup => 3,
            ChunkType::CanvasI => 4,
            ChunkType::CanvasIXYZ => 5,
            ChunkType::CanvasUV => 6,
            ChunkType::CanvasRGB => 7,
            ChunkType::CanvasRGBA => 8,
            ChunkType::CanvasRGBAXYZ => 9,
        };
        append(out, u16_to_le_bytes(code));
        2
    }
}

/// Every chunk type reads back as itself.
pub proof fn lemma_chunk_roundtrip(c: ChunkType, rest: Seq<u8>)
    ensures
        chunk_ok(chunk_bytes(c) + rest),
        chunk_parse(chunk_bytes(c) + rest) == Ok::<(nat, ChunkType), ParseError>((2, c)),
{
    lemma_auto_spec_u16_to_from_le_bytes();
    let s = chunk_bytes(c) + rest;
    assert(s.subrange(0, 2) =~= chunk_bytes(c));
}

/// One row of the partition index: a node's identity, where its chunk
/// lies, its flags, placement and name, the rows of its children and a
/// preview.
#[derive(Debug, Clone, PartialEq)]
pub struct PartitionTableRow {
    pub id: Uuid,
    pub chunk_type: ChunkType,
    pub chunk_offset: u64,
    pub chunk_size: u32,
    pub is_root: bool,
    pub is_visible: bool,
    pub is_locked: bool,
    pub is_folded: bool,
    pub position: Vec2Bits,
    pub size: Extent2,
    pub name: String,
    pub children: Vec<u32>,
    pub preview: Vec<u8>,
}

/// A partition index row as values.
pub struct RowView {
    pub id: Uuid,
    pub chunk_type: ChunkType,
    pub chunk_offset: u64,
    pub chunk_size: u32,
    pub is_root: bool,
    pub is_visible: bool,
    pub is_locked: bool,
    pub is_folded: bool,
    pub position: Vec2Bits,
    pub size: Extent2,
    pub name: Seq<char>,
    pub children: Seq<u32>,
    pub preview: Seq<u8>,
}

impl View for PartitionTableRow {
    type V = RowView;

    open spec fn view(&self) -> RowView {
        RowView {
            id: self.id,
            chunk_type: self.chunk_type,
            chunk_offset: self.chunk_offset,
            chunk_size: self.chunk_size,
            is_root: self.is_root,
            is_visible: self.is_visible,
            is_locked: self.is_locked,
            is_folded: self.is_folded,
            position: self.position,
            size: self.size,
            name: self.name@,
            children: self.children@,
            preview: self.preview@,
        }
    }
}

/// The flags byte: root, visible, locked and folded in its four low bits.
pub open spec fn flags_byte(r: RowView) -> u8 {
    ((if r.is_root { 1u8 } else { 0u8 }) | (if r.is_visible { 2u8 } else { 0u8 })
        | (if r.is_locked { 4u8 } else { 0u8 }) | (if r.is_folded { 8u8 } else { 0u8 })) as u8
}

/// A row: the identifier, the chunk type, the chunk's offset and size, the
/// flags byte, the position's two numbers, the size, the number of
/// children and the preview's length; then the length-prefixed name, the
/// children and the preview's bytes. Each flag reads as the flags byte
/// or-ed with its bit being above zero, which always holds: every flag
/// reads as set.
pub open spec fn row_parse(s: Seq<u8>) -> SpecParse<RowView> {
    if s.len() < 59 {
        Err(ParseError::Eof)
    } else {
        let l = u32_at(s, 55) as int;
        let cc = u32_at(s, 47) as nat;
        let ps = u32_at(s, 51) as nat;
        let c0 = 59 + l;
        let p0 = c0 + 4 * cc;
        let end = p0 + ps;
        if s.len() < end {
            Err(ParseError::Eof)
        } else {
            Ok((end as nat, RowView {
                id: Uuid { value: u128_at(s, 0) },
                chunk_type: chunk_of(u16_at(s, 16)),
                chunk_offset: u64_at(s, 18),
                chunk_size: u32_at(s, 26),
                is_root: true,
                is_visible: true,
                is_locked: true,
                is_folded: true,
                position: Vec2Bits { x: u32_at(s, 31), y: u32_at(s, 35) },
                size: Extent2 { w: u32_at(s, 39), h: u32_at(s, 43) },
                name: decode_utf8(s.subrange(59, c0)),
                children: u32s_at(s, c0, cc),
                preview: s.subrange(p0, end),
            }))
        }
    }
}

/// A row can be read here without a panic: its chunk type, when reached,
/// is a known number, and its name, when reached, is valid UTF-8.
pub open spec fn row_ok(s: Seq<u8>) -> bool {
    &&& s.len() >= 18 ==> u16_at(s, 16) <= 9
    &&& (s.len() >= 59 && s.len() >= 59 + u32_at(s, 55)) ==> valid_utf8(s.subrange(59, 59 + u32_at(s, 55)))
}

pub open spec fn row_bytes(r: RowView) -> Seq<u8> {
    uuid_bytes(r.id) + chunk_bytes(r.chunk_type) + spec_u64_to_le_bytes(r.chunk_offset)
        + spec_u32_to_le_bytes(r.chunk_size) + seq![flags_byte(r)]
        + spec_u32_to_le_bytes(r.position.x) + spec_u32_to_le_bytes(r.position.y)
        + extent2_bytes(r.size) + spec_u32_to_le_bytes(r.children.len() as u32)
        + spec_u32_to_le_bytes(r.preview.len() as u32) + string_bytes(r.name)
        + u32s_bytes(r.children) + r.preview
}

/// The count a row's write gives back: the number of bytes it writes.
pub open spec fn row_count(r: RowView) -> nat {
    59 + encode_utf8(r.name).len() + 4 * r.children.len() + r.preview.len()
}

/// Is `flags | bit` above zero? Always, as `bit` is not zero.
fn flag_set(flags: u8, bit: u8) -> (r: bool)
    requires
        bit != 0,
    ensures
        r,
{
    let v: u8 = flags | bit;
    assert(v >= bit) by (bit_vector)
        requires v == flags | bit;
    v > 0
}

impl PartitionTableRow {
    pub fn parse(bytes: &[u8]) -> (r: Result<(&[u8], PartitionTableRow), ParseError>)
        requires
            row_ok(bytes@),
        ensures
            parsed(bytes@, r, row_parse(bytes@)),
    {
        let len = bytes.len();
        if len < 59 {
            return Err(ParseError::Eof);
        }
        let chunk_type = chunk_from_code(read_u16_at(bytes, 16));
        let flag = bytes[30];
        let child_count = read_u32_at(bytes, 47);
        let preview_size = read_u32_at(bytes, 51);
        let name_len = read_u32_at(bytes, 55);
        if len - 59 < name_len as usize {
            return Err(ParseError::Eof);
        }
        let c0 = 59 + name_len as usize;
        if (len - c0) / 4 < child_count as usize {
            return Err(ParseError::Eof);
        }
        assert(c0 + 4 * child_count <= len) by (nonlinear_arith)
            requires (len - c0) / 4 >= child_count, c0 <= len;
        let p0 = c0 + 4 * child_count as usize;
        if len - p0 < preview_size as usize {
            return Err(ParseError::Eof);
        }
        let end = p0 + preview_size as usize;
        let text = &bytes[55..len];
        proof {
            assert(text@.subrange(0, 4) =~= bytes@.subrange(55, 59));
            assert(text@.subrange(4, 4 + name_len as int) =~= bytes@.subrange(59, c0 as int));
        }
        let name = match parse_string(text) {
            Ok((_, s)) => s,
            Err(e) => {
                proof { assert(false); }
                return Err(e);
            },
        };
        let row = PartitionTableRow {
            id: parse_uuid_at(bytes, 0),
            chunk_type,
            chunk_offset: read_u64_at(bytes, 18),
            chunk_size: read_u32_at(bytes, 26),
            is_root: flag_set(flag, 1),
            is_visible: flag_set(flag, 2),
            is_locked: flag_set(flag, 4),
            is_folded: flag_set(flag, 8),
            position: Vec2Bits { x: read_u32_at(bytes, 31), y: read_u32_at(bytes, 35) },
            size: Extent2 { w: read_u32_at(bytes, 39), h: read_u32_at(bytes, 43) },
            name,
            children: parse_u32s(bytes, c0, child_count),
            preview: slice_to_vec(&bytes[p0..end]),
        };
        Ok((&bytes[end..len], row))
    }

    /// Append the row's bytes; gives back how many were written. The
    /// name's byte length and both list lengths are stored as 32-bit
    /// numbers.
    #[verifier::rlimit(40)]
    pub fn write(&self, out: &mut Vec<u8>) -> (r: usize)
        requires
            old(out)@.len() + row_count(self@) <= usize::MAX,
        ensures
            final(out)@ == old(out)@ + row_bytes(self@),
            r == row_count(self@),
    {
        proof {
            lemma_auto_spec_u16_to_from_le_bytes();
            lemma_auto_spec_u64_to_from_le_bytes();
            lemma_auto_spec_u32_to_from_le_bytes();
            lemma_auto_spec_u128_to_from_le_bytes();
            lemma_u32s_bytes_len(self.children@);
        }
        let ghost start = out@;
        self.id.write(out);
        self.chunk_type.write(out);
        append(out, u64_to_le_bytes(self.chunk_offset));
        append(out, u32_to_le_bytes(self.chunk_size));
        let flag: u8 = (if self.is_root { 1u8 } else { 0u8 }) | (if self.is_visible { 2u8 } else { 0u8 })
            | (if self.is_locked { 4u8 } else { 0u8 }) | (if self.is_folded { 8u8 } else { 0u8 });
        out.push(flag);
        append(out, u32_to_le_bytes(self.position.x));
        append(out, u32_to_le_bytes(self.position.y));
        assert(out@.len() == start.len() + 39);
        self.size.write(out);
        append(out, u32_to_le_bytes(self.children.len() as u32));
        append(out, u32_to_le_bytes(self.preview.len() as u32));
        assert(out@.len() == start.len() + 55);
        assert(self.name.written().len() == 4 + encode_utf8(self.name@).len());
        let b = self.name.write(out);
        write_u32s(&self.children, out);
        let ghost before_preview = out@;
        let mut k: usize = 0;
        while k < self.preview.len()
            invariant
                k <= self.preview@.len(),
                out@ == before_preview + self.preview@.subrange(0, k as int),
            decreases self.preview@.len() - k,
        {
            out.push(self.preview[k]);
            k = k + 1;
            assert(out@ =~= before_preview + self.preview@.subrange(0, k as int));
        }
        assert(self.preview@.subrange(0, self.preview@.len() as int) =~= self.preview@);
        assert(out@ =~= start + row_bytes(self@));
        55 + b + 4 * self.children.len() + self.preview.len()
    }
}

/// A row that fits the format: a name, children and preview whose lengths
/// fit their 32-bit prefixes.
pub open spec fn row_fits(r: RowView) -> bool {
    &&& encode_utf8(r.name).len() <= u32::MAX
    &&& r.children.len() <= u32::MAX
    &&& r.preview.len() <= u32::MAX
}

/// What a row reads back as: the row with every flag set.
pub proof fn lemma_row_roundtrip(r: RowView, rest: Seq<u8>)
    requires
        row_fits(r),
    ensures
        row_bytes(r).len() == row_count(r),
        row_ok(row_bytes(r) + rest),
        row_parse(row_bytes(r) + rest) == Ok::<(nat, RowView), ParseError>(
            (row_bytes(r).len(), RowView { is_root: true, is_visible: true, is_locked: true, is_folded: true, ..r }),
        ),
{
    lemma_auto_spec_u16_to_from_le_bytes();
    lemma_auto_spec_u32_to_from_le_bytes();
    lemma_auto_spec_u64_to_from_le_bytes();
    lemma_auto_spec_u128_to_from_le_bytes();
    encode_utf8_valid_utf8(r.name);
    encode_utf8_decode_utf8(r.name);
    lemma_u32s_bytes_len(r.children);
    let e = encode_utf8(r.name);
    let s = row_bytes(r) + rest;
    let c0: int = 59 + e.len() as int;
    let p0: int = c0 + 4 * r.children.len();
    assert(s.subrange(0, 16) =~= uuid_bytes(r.id));
    assert(s.subrange(16, 18) =~= chunk_bytes(r.chunk_type));
    assert(s.subrange(18, 26) =~= spec_u64_to_le_bytes(r.chunk_offset));
    assert(s.subrange(26, 30) =~= spec_u32_to_le_bytes(r.chunk_size));
    assert(s.subrange(31, 35) =~= spec_u32_to_le_bytes(r.position.x));
    assert(s.subrange(35, 39) =~= spec_u32_to_le_bytes(r.position.y));
    assert(s.subrange(39, 43) =~= spec_u32_to_le_bytes(r.size.w));
    assert(s.subrange(43, 47) =~= spec_u32_to_le_bytes(r.size.h));
    assert(s.subrange(47, 51) =~= spec_u32_to_le_bytes(r.children.len() as u32));
    assert(s.subrange(51, 55) =~= spec_u32_to_le_bytes(r.preview.len() as u32));
    assert(s.subrange(55, 59) =~= spec_u32_to_le_bytes(e.len() as u32));
    assert(s.subrange(59, c0) =~= e);
    assert(s.subrange(c0, p0) =~= u32s_bytes(r.children));
    assert(s.subrange(p0, p0 + r.preview.len()) =~= r.preview);
    lemma_u32s_read_back(s, c0, r.children);
    assert(chunk_of(chunk_code(r.chunk_type)) == r.chunk_type);
}

/// Where each identifier's row is: the last row with that identifier.
pub open spec fn ids_index(rows: Seq<RowView>) -> Map<u128, usize>
    decreases rows.len(),
{
    if rows.len() == 0 {
        Map::empty()
    } else {
        ids_index(rows.drop_last()).insert(rows.last().id.value, (rows.len() - 1) as usize)
    }
}

pub open spec fn rows_view(v: Seq<PartitionTableRow>) -> Seq<RowView> {
    Seq::new(v.len(), |i: int| v[i]@)
}

/// A partition index: the table record, the rows, and the row of each
/// node identifier, keyed by the identifier's number.
#[derive(Debug, Clone)]
pub struct PartitionIndex {
    pub table: PartitionTable,
    pub rows: Vec<PartitionTableRow>,
    pub index_uuid: HashMap<u128, usize>,
}

fn build_index(rows: &Vec<PartitionTableRow>) -> (r: HashMap<u128, usize>)
    ensures
        r@ == ids_index(rows_view(rows@)),
{
    broadcast use vstd::std_specs::hash::group_hash_axioms;
    let mut index: HashMap<u128, usize> = HashMap::new();
    let mut i: usize = 0;
    while i < rows.len()
        invariant
            i <= rows@.len(),
            index@ == ids_index(rows_view(rows@).subrange(0, i as int)),
        decreases rows@.len() - i,
    {
        proof {
            let all = rows_view(rows@);
            assert(all.subrange(0, i + 1).drop_last() =~= all.subrange(0, i as int));
            assert(all.subrange(0, i + 1).last() == rows@[i as int]@);
        }
        index.insert(rows[i].id.value, i);
        i = i + 1;
    }
    assert(rows_view(rows@).subrange(0, rows@.len() as int) =~= rows_view(rows@));
    index
}

impl PartitionIndex {
    /// An index over `rows`: each identifier maps to its last row.
    pub fn new(table: PartitionTable, rows: Vec<PartitionTableRow>) -> (r: PartitionIndex)
        ensures
            r.table == table,
            r.rows@ == rows@,
            r.index_uuid@ == ids_index(rows_view(rows@)),
    {
        let index_uuid = build_index(&rows);
        PartitionIndex { table, rows, index_uuid }
    }

    /// Rebuild the identifier map from the rows.
    pub fn reindex_rows(&mut self)
        ensures
            final(self).table == old(self).table,
            final(self).rows@ == old(self).rows@,
            final(self).index_uuid@ == ids_index(rows_view(old(self).rows@)),
    {
        self.index_uuid = build_index(&self.rows);
    }
}

/// The identifier map finds rows: each identifier of a row is a key, and
/// each key leads to the last row with that identifier.
pub proof fn lemma_index_finds_rows(rows: Seq<RowView>)
    requires
        rows.len() <= usize::MAX,
    ensures
        forall|i: int| 0 <= i < rows.len() ==> ids_index(rows).contains_key(#[trigger] rows[i].id.value),
        forall|k: u128| #[trigger] ids_index(rows).contains_key(k) ==> {
            let i = ids_index(rows)[k] as int;
            &&& 0 <= i < rows.len()
            &&& rows[i].id.value == k
            &&& forall|j: int| i < j < rows.len() ==> rows[j].id.value != k
        },
    decreases rows.len(),
{
    if rows.len() > 0 {
        let head = rows.drop_last();
        lemma_index_finds_rows(head);
        assert forall|i: int| 0 <= i < rows.len() implies ids_index(rows).contains_key(#[trigger] rows[i].id.value) by {
            if i < rows.len() - 1 {
                assert(rows[i] == head[i]);
                assert(ids_index(head).contains_key(head[i].id.value));
            }
        }
        assert forall|k: u128| #[trigger] ids_index(rows).contains_key(k) implies {
            let i = ids_index(rows)[k] as int;
            &&& 0 <= i < rows.len()
            &&& rows[i].id.value == k
            &&& forall|j: int| i < j < rows.len() ==> rows[j].id.value != k
        } by {
            if k != rows.last().id.value {
                assert(ids_index(head).contains_key(k));
                let i = ids_index(head)[k] as int;
                assert(rows[i] == head[i]);
                assert forall|j: int| i < j < rows.len() implies rows[j].id.value != k by {
                    if j < rows.len() - 1 {
                        assert(rows[j] == head[j]);
                    }
                }
            }
        }
    }
}

} // verus!
