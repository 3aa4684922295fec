//! The partition table of the chunked document file: its header record,
//! the kind of each chunk, and one row per node telling where the node's
//! chunk lies.
use vstd::prelude::*;
use vstd::bytes::*;
use vstd::utf8::{valid_utf8, decode_utf8, encode_utf8, encode_utf8_valid_utf8, encode_utf8_decode_utf8};
use vstd::slice::slice_to_vec;
use crate::document::math::{Extent2, Uuid, Vec2Bits};
use crate::document::writer::{Writer, written_all, count_all};
use crate::document::parser::{
    ParseError, SpecParse, Write, parsed, u16_at, u32_at, u64_at, u128_at, uuid_bytes,
    extent2_bytes, string_bytes, parse_string, read_u16_at, read_u32_at, read_u64_at,
    parse_uuid_at, append,
};

verus! {

/// The partition table's own record: how many rows follow and the hash
/// of the revision.
#[derive(Debug, Clone, Copy, PartialEq, Eq, Structural)]
pub struct PartitionTable {
    pub hash: Uuid,
    pub size: u32,
}

impl View for PartitionTable {
    type V = PartitionTable;

    open spec fn view(&self) -> PartitionTable {
        *self
    }
}

/// The size as a little-endian 32-bit number, then the hash.
pub open spec fn table_parse(s: Seq<u8>) -> SpecParse<PartitionTable> {
    if s.len() < 20 {
        Err(ParseError::Eof)
    } else {
        Ok((20, PartitionTable { size: u32_at(s, 0), hash: Uuid { value: u128_at(s, 4) } }))
    }
}

pub open spec fn table_bytes(t: PartitionTable) -> Seq<u8> {
    spec_u32_to_le_bytes(t.size) + uuid_bytes(t.hash)
}

impl PartitionTable {
    pub fn from_bytes(bytes: &[u8]) -> (r: Result<(&[u8], PartitionTable), ParseError>)
        ensures
            parsed(bytes@, r, table_parse(bytes@)),
    {
        if bytes.len() < 20 {
            return Err(ParseError::Eof);
        }
        let t = PartitionTable { size: read_u32_at(bytes, 0), hash: parse_uuid_at(bytes, 4) };
        Ok((&bytes[20..bytes.len()], t))
    }

}

/// A table record writes its 20 bytes. The count it gives back is 5, not
/// the number of bytes written.
impl Writer for PartitionTable {
    open spec fn written_bytes(&self) -> Seq<u8> {
        table_bytes(*self)
    }

    open spec fn write_count(&self) -> nat {
        5
    }

    open spec fn writable(&self) -> bool {
        true
    }

    fn write_to(&self, out: &mut Vec<u8>) -> (r: usize) {
        proof {
            lemma_auto_spec_u32_to_from_le_bytes();
            lemma_auto_spec_u128_to_from_le_bytes();
        }
        append(out, u32_to_le_bytes(self.size));
        append(out, u128_to_le_bytes(self.hash.value));
        assert(out@ =~= old(out)@ + table_bytes(*self));
        5
    }
}

/// What a table record reads back as.
pub proof fn lemma_table_roundtrip(t: PartitionTable, rest: Seq<u8>)
    ensures
        table_parse(table_bytes(t) + rest) == Ok::<(nat, PartitionTable), ParseError>((20, t)),
{
    lemma_auto_spec_u32_to_from_le_bytes();
    lemma_auto_spec_u128_to_from_le_bytes();
    let s = table_bytes(t) + rest;
    assert(s.subrange(0, 4) =~= spec_u32_to_le_bytes(t.size));
    assert(s.subrange(4, 20) =~= uuid_bytes(t.hash));
}

/// What a chunk holds.
#[derive(Debug, Clone, Copy, PartialEq, Eq, Structural)]
pub enum ChunkType {
    Group,
    Note,
    Sprite,
    CanvasI,
    CanvasIXYZ,
    CanvasUV,
    CanvasRGB,
    CanvasRGBA,
    CanvasRGBAXYZ,
}

impl View for ChunkType {
    type V = ChunkType;

    open spec fn view(&self) -> ChunkType {
        *self
    }
}

/// The chunk type a stored number reads as. The numbers run from 0 to 8;
/// 4 and 5 both read as `CanvasIXYZ`, and no number reads as `CanvasRGB`.
pub open spec fn chunk_of(code: u16) -> ChunkType {
    if code == 0 {
        ChunkType::Group
    } else if code == 1 {
        ChunkType::Note
    } else if code == 2 {
        ChunkType::Sprite
    } else if code == 3 {
        ChunkType::CanvasI
    } else if code <= 5 {
        ChunkType::CanvasIXYZ
    } else if code == 6 {
        ChunkType::CanvasUV
    } else if code == 7 {
        ChunkType::CanvasRGBA
    } else {
        ChunkType::CanvasRGBAXYZ
    }
}

/// The number a chunk type is stored as; `CanvasRGB` has none.
pub open spec fn chunk_code(c: ChunkType) -> u16 {
    match c {
        ChunkType::Group => 0,
        ChunkType::Note => 1,
        ChunkType::Sprite => 2,
        ChunkType::CanvasI => 3,
        ChunkType::CanvasIXYZ => 4,
        ChunkType::CanvasUV => 6,
        ChunkType::CanvasRGBA => 7,
        ChunkType::CanvasRGBAXYZ => 8,
        ChunkType::CanvasRGB => 0,
    }
}

/// A chunk type can be read here: fewer than two bytes, or a stored
/// number from 0 to 8.
pub open spec fn chunk_ok(s: Seq<u8>) -> bool {
    s.len() >= 2 ==> u16_at(s, 0) <= 8
}

pub open spec fn chunk_parse(s: Seq<u8>) -> SpecParse<ChunkType> {
    if s.len() < 2 {
        Err(ParseError::Eof)
    } else {
        Ok((2, chunk_of(u16_at(s, 0))))
    }
}

pub open spec fn chunk_bytes(c: ChunkType) -> Seq<u8> {
    spec_u16_to_le_bytes(chunk_code(c))
}

fn chunk_from_code(code: u16) -> (r: ChunkType)
    requires
        code <= 8,
    ensures
        r == chunk_of(code),
{
    match code {
        0 => ChunkType::Group,
        1 => ChunkType::Note,
        2 => ChunkType::Sprite,
        3 => ChunkType::CanvasI,
        4 => ChunkType::CanvasIXYZ,
        5 => ChunkType::CanvasIXYZ,
        6 => ChunkType::CanvasUV,
        7 => ChunkType::CanvasRGBA,
        _ => ChunkType::CanvasRGBAXYZ,
    }
}

impl ChunkType {
    /// Read a chunk type: a little-endian 16-bit number.
    pub fn from_bytes(bytes: &[u8]) -> (r: Result<(&[u8], ChunkType), ParseError>)
        requires
            chunk_ok(bytes@),
        ensures
            parsed(bytes@, r, chunk_parse(bytes@)),
    {
        if bytes.len() < 2 {
            return Err(ParseError::Eof);
        }
        let c = chunk_from_code(read_u16_at(bytes, 0));
        Ok((&bytes[2..bytes.len()], c))
    }

}

/// A chunk type writes its number; the count it gives back is 2. `CanvasRGB`
/// has no number.
impl Writer for ChunkType {
    open spec fn written_bytes(&self) -> Seq<u8> {
        chunk_bytes(*self)
    }

    open spec fn write_count(&self) -> nat {
        2
    }

    open spec fn writable(&self) -> bool {
        *self != ChunkType::CanvasRGB
    }

    fn write_to(&self, out: &mut Vec<u8>) -> (r: usize) {
        let code: u16 = match self {
            ChunkType::Group => 0,
            ChunkType::Note => 1,
            ChunkType::Sprite => 2,
            ChunkType::CanvasI => 3,
            ChunkType::CanvasIXYZ => 4,
            ChunkType::CanvasUV => 6,
            ChunkType::CanvasRGBA => 7,
            ChunkType::CanvasRGBAXYZ => 8,
            ChunkType::CanvasRGB => 0,
        };
        append(out, u16_to_le_bytes(code));
        2
    }
}

/// A chunk type other than `CanvasRGB` reads back as itself.
pub proof fn lemma_chunk_roundtrip(c: ChunkType, rest: Seq<u8>)
    requires
        c != ChunkType::CanvasRGB,
    ensures
        chunk_ok(chunk_bytes(c) + rest),
        chunk_parse(chunk_bytes(c) + rest) == Ok::<(nat, ChunkType), ParseError>((2, c)),
{
    lemma_auto_spec_u16_to_from_le_bytes();
    let s = chunk_bytes(c) + rest;
    assert(s.subrange(0, 2) =~= chunk_bytes(c));
}

/// One row of the partition table: a node's identity, where its chunk
/// lies, its placement and name, the rows of its children and a preview.
#[derive(Debug, Clone, PartialEq)]
pub struct PartitionTableRow {
    pub id: Uuid,
    pub chunk_type: ChunkType,
    pub chunk_offset: u64,
    pub chunk_size: u32,
    pub position: Vec2Bits,
    pub size: Extent2,
    pub name: String,
    pub children: Vec<u32>,
    pub preview: Vec<u8>,
}

/// A partition table row as values.
pub struct PartRowView {
    pub id: Uuid,
    pub chunk_type: ChunkType,
    pub chunk_offset: u64,
    pub chunk_size: u32,
    pub position: Vec2Bits,
    pub size: Extent2,
    pub name: Seq<char>,
    pub children: Seq<u32>,
    pub preview: Seq<u8>,
}

impl View for PartitionTableRow {
    type V = PartRowView;

    open spec fn view(&self) -> PartRowView {
        PartRowView {
            id: self.id,
            chunk_type: self.chunk_type,
            chunk_offset: self.chunk_offset,
            chunk_size: self.chunk_size,
            position: self.position,
            size: self.size,
            name: self.name@,
            children: self.children@,
            preview: self.preview@,
        }
    }
}

/// `n` little-endian 32-bit numbers stored back to back from `at`.
pub open spec fn u32s_at(s: Seq<u8>, at: int, n: nat) -> Seq<u32> {
    Seq::new(n, |k: int| u32_at(s, at + 4 * k))
}

/// Little-endian 32-bit numbers stored back to back.
pub open spec fn u32s_bytes(v: Seq<u32>) -> Seq<u8>
    decreases v.len(),
{
    if v.len() == 0 {
        seq![]
    } else {
        u32s_bytes(v.drop_last()) + spec_u32_to_le_bytes(v.last())
    }
}

/// A row: the identifier, the chunk type, the chunk's offset and size,
/// the position's two numbers, the size, the number of children and the
/// preview's length; then the length-prefixed name, the children and the
/// preview's bytes.
pub open spec fn part_row_parse(s: Seq<u8>) -> SpecParse<PartRowView> {
    if s.len() < 58 {
        Err(ParseError::Eof)
    } else {
        let l = u32_at(s, 54) as int;
        let cc = u32_at(s, 46) as nat;
        let ps = u32_at(s, 50) as nat;
        let c0 = 58 + l;
        let p0 = c0 + 4 * cc;
        let end = p0 + ps;
        if s.len() < end {
            Err(ParseError::Eof)
        } else {
            Ok((end as nat, PartRowView {
                id: Uuid { value: u128_at(s, 0) },
                chunk_type: chunk_of(u16_at(s, 16)),
                chunk_offset: u64_at(s, 18),
                chunk_size: u32_at(s, 26),
                position: Vec2Bits { x: u32_at(s, 30), y: u32_at(s, 34) },
                size: Extent2 { w: u32_at(s, 38), h: u32_at(s, 42) },
                name: decode_utf8(s.subrange(58, c0)),
                children: u32s_at(s, c0, cc),
                preview: s.subrange(p0, end),
            }))
        }
    }
}

/// A row can be read here without a panic: its chunk type, when reached,
/// is a known number, and its name, when reached, is valid UTF-8.
pub open spec fn part_row_ok(s: Seq<u8>) -> bool {
    &&& s.len() >= 18 ==> u16_at(s, 16) <= 8
    &&& (s.len() >= 58 && s.len() >= 58 + u32_at(s, 54)) ==> valid_utf8(s.subrange(58, 58 + u32_at(s, 54)))
}

pub open spec fn part_row_bytes(r: PartRowView) -> Seq<u8> {
    uuid_bytes(r.id) + chunk_bytes(r.chunk_type) + spec_u64_to_le_bytes(r.chunk_offset)
        + spec_u32_to_le_bytes(r.chunk_size) + spec_u32_to_le_bytes(r.position.x)
        + spec_u32_to_le_bytes(r.position.y) + extent2_bytes(r.size)
        + spec_u32_to_le_bytes(r.children.len() as u32) + spec_u32_to_le_bytes(r.preview.len() as u32)
        + string_bytes(r.name) + u32s_bytes(r.children) + r.preview
}

/// The count a row's write gives back.
pub open spec fn part_row_count(r: PartRowView) -> nat {
    58 + encode_utf8(r.name).len() + 4 * r.children.len() + r.preview.len()
}

pub(crate) fn parse_u32s(bytes: &[u8], at: usize, n: u32) -> (r: Vec<u32>)
    requires
        at + 4 * n <= bytes@.len(),
    ensures
        r@ == u32s_at(bytes@, at as int, n as nat),
{
    let _blen = bytes.len();
    let mut out: Vec<u32> = Vec::new();
    let mut k: u32 = 0;
    while k < n
        invariant
            k <= n,
            at + 4 * n <= bytes@.len(),
            bytes@.len() <= usize::MAX,
            out@ == u32s_at(bytes@, at as int, k as nat),
        decreases n - k,
    {
        assert(at + 4 * k + 4 <= at + 4 * n) by (nonlinear_arith)
            requires k < n;
        let pos = at + 4 * (k as usize);
        out.push(read_u32_at(bytes, pos));
        k = k + 1;
        assert(out@ =~= u32s_at(bytes@, at as int, k as nat));
    }
    out
}

/// The byte length of numbers stored back to back.
pub(crate) proof fn lemma_u32s_bytes_len(v: Seq<u32>)
    ensures
        u32s_bytes(v).len() == 4 * v.len(),
    decreases v.len(),
{
    lemma_auto_spec_u32_to_from_le_bytes();
    if v.len() > 0 {
        lemma_u32s_bytes_len(v.drop_last());
    }
}

pub(crate) fn write_u32s(v: &Vec<u32>, out: &mut Vec<u8>)
    requires
        old(out)@.len() + 4 * v@.len() <= usize::MAX,
    ensures
        final(out)@ == old(out)@ + u32s_bytes(v@),
{
    let ghost start = out@;
    let n = v.len();
    let mut k: usize = 0;
    while k < n
        invariant
            k <= n,
            n == v@.len(),
            out@ == start + u32s_bytes(v@.subrange(0, k as int)),
        decreases n - k,
    {
        proof {
            lemma_auto_spec_u32_to_from_le_bytes();
        }
        append(out, u32_to_le_bytes(v[k]));
        assert(v@.subrange(0, k + 1).drop_last() =~= v@.subrange(0, k as int));
        k = k + 1;
        assert(out@ =~= start + u32s_bytes(v@.subrange(0, k as int)));
    }
    assert(v@.subrange(0, n as int) =~= v@);
}

impl PartitionTableRow {
    /// Read one row.
    pub fn from_bytes(bytes: &[u8]) -> (r: Result<(&[u8], PartitionTableRow), ParseError>)
        requires
            part_row_ok(bytes@),
        ensures
            parsed(bytes@, r, part_row_parse(bytes@)),
    {
        let len = bytes.len();
        if len < 58 {
            return Err(ParseError::Eof);
        }
        let chunk_type = chunk_from_code(read_u16_at(bytes, 16));
        let name_len = read_u32_at(bytes, 54);
        let child_count = read_u32_at(bytes, 46);
        let preview_size = read_u32_at(bytes, 50);
        if len - 58 < name_len as usize {
            return Err(ParseError::Eof);
        }
        let c0 = 58 + name_len as usize;
        if (len - c0) / 4 < child_count as usize {
            return Err(ParseError::Eof);
        }
        assert(c0 + 4 * child_count <= len) by (nonlinear_arith)
            requires (len - c0) / 4 >= child_count, c0 <= len;
        let p0 = c0 + 4 * child_count as usize;
        if len - p0 < preview_size as usize {
            return Err(ParseError::Eof);
        }
        let end = p0 + preview_size as usize;
        let text = &bytes[54..len];
        proof {
            assert(text@.subrange(0, 4) =~= bytes@.subrange(54, 58));
            assert(text@.subrange(4, 4 + name_len as int) =~= bytes@.subrange(58, c0 as int));
        }
        let name = match parse_string(text) {
            Ok((_, s)) => s,
            Err(e) => {
                proof { assert(false); }
                return Err(e);
            },
        };
        let row = PartitionTableRow {
            id: parse_uuid_at(bytes, 0),
            chunk_type,
            chunk_offset: read_u64_at(bytes, 18),
            chunk_size: read_u32_at(bytes, 26),
            position: Vec2Bits { x: read_u32_at(bytes, 30), y: read_u32_at(bytes, 34) },
            size: Extent2 { w: read_u32_at(bytes, 38), h: read_u32_at(bytes, 42) },
            name,
            children: parse_u32s(bytes, c0, child_count),
            preview: slice_to_vec(&bytes[p0..end]),
        };
        Ok((&bytes[end..len], row))
    }

}

/// A row writes its fields, then its name, children and preview, and gives
/// back how many bytes it wrote. The name's byte length and both list
/// lengths are stored as 32-bit numbers.
impl Writer for PartitionTableRow {
    open spec fn written_bytes(&self) -> Seq<u8> {
        part_row_bytes(self@)
    }

    open spec fn write_count(&self) -> nat {
        part_row_count(self@)
    }

    open spec fn writable(&self) -> bool {
        self.chunk_type != ChunkType::CanvasRGB
    }

    fn write_to(&self, out: &mut Vec<u8>) -> (r: usize) {
        proof {
            lemma_part_row_len(self@);
            lemma_auto_spec_u16_to_from_le_bytes();
            lemma_auto_spec_u64_to_from_le_bytes();
            lemma_auto_spec_u32_to_from_le_bytes();
            lemma_auto_spec_u128_to_from_le_bytes();
            lemma_u32s_bytes_len(self.children@);
        }
        let ghost start = out@;
        self.id.write(out);
        self.chunk_type.write_to(out);
        append(out, u64_to_le_bytes(self.chunk_offset));
        append(out, u32_to_le_bytes(self.chunk_size));
        append(out, u32_to_le_bytes(self.position.x));
        append(out, u32_to_le_bytes(self.position.y));
        assert(out@.len() == start.len() + 38);
        self.size.write(out);
        append(out, u32_to_le_bytes(self.children.len() as u32));
        append(out, u32_to_le_bytes(self.preview.len() as u32));
        assert(out@.len() == start.len() + 54);
        assert(self.name.written().len() == 4 + encode_utf8(self.name@).len());
        let b = self.name.write(out);
        write_u32s(&self.children, out);
        let ghost before_preview = out@;
        let mut k: usize = 0;
        while k < self.preview.len()
            invariant
                k <= self.preview@.len(),
                out@ == before_preview + self.preview@.subrange(0, k as int),
            decreases self.preview@.len() - k,
        {
            out.push(self.preview[k]);
            k = k + 1;
            assert(out@ =~= before_preview + self.preview@.subrange(0, k as int));
        }
        assert(self.preview@.subrange(0, self.preview@.len() as int) =~= self.preview@);
        assert(out@ =~= start + part_row_bytes(self@));
        54 + b + 4 * self.children.len() + self.preview.len()
    }
}

/// Numbers read back from where they were stored.
pub(crate) proof fn lemma_u32s_read_back(s: Seq<u8>, at: int, v: Seq<u32>)
    requires
        0 <= at,
        at + 4 * v.len() <= s.len(),
        s.subrange(at, at + 4 * v.len()) == u32s_bytes(v),
    ensures
        u32s_at(s, at, v.len()) == v,
    decreases v.len(),
{
    lemma_auto_spec_u32_to_from_le_bytes();
    if v.len() > 0 {
        let m = v.len() - 1;
        let head = v.drop_last();
        lemma_u32s_bytes_len(head);
        assert(s.subrange(at, at + 4 * m) =~= u32s_bytes(v).subrange(0, 4 * m));
        assert(u32s_bytes(v).subrange(0, 4 * m) =~= u32s_bytes(head));
        lemma_u32s_read_back(s, at, head);
        let whole = s.subrange(at, at + 4 * v.len());
        assert(whole.subrange(4 * m, 4 * m + 4) =~= spec_u32_to_le_bytes(v.last()));
        assert(s.subrange(at + 4 * m, at + 4 * m + 4) =~= whole.subrange(4 * m, 4 * m + 4));
        assert(u32_at(s, at + 4 * m) == v.last());
        assert forall|k: int| 0 <= k < v.len() implies #[trigger] u32s_at(s, at, v.len())[k] == v[k] by {
            if k < m {
                assert(u32s_at(s, at, head.len())[k] == head[k]);
            }
        }
        assert(u32s_at(s, at, v.len()) =~= v);
    }
}

/// A row that fits the format: a chunk type with a number, and a name,
/// children and preview whose lengths fit their 32-bit prefixes.
pub open spec fn part_row_fits(r: PartRowView) -> bool {
    &&& r.chunk_type != ChunkType::CanvasRGB
    &&& encode_utf8(r.name).len() <= u32::MAX
    &&& r.children.len() <= u32::MAX
    &&& r.preview.len() <= u32::MAX
}

/// What a row reads back as, and that the count its write gives back is
/// the number of bytes it wrote.
pub proof fn lemma_part_row_roundtrip(r: PartRowView, rest: Seq<u8>)
    requires
        part_row_fits(r),
    ensures
        part_row_bytes(r).len() == part_row_count(r),
        part_row_ok(part_row_bytes(r) + rest),
        part_row_parse(part_row_bytes(r) + rest) == Ok::<(nat, PartRowView), ParseError>(
            (part_row_bytes(r).len(), r),
        ),
{
    lemma_auto_spec_u16_to_from_le_bytes();
    lemma_auto_spec_u32_to_from_le_bytes();
    lemma_auto_spec_u64_to_from_le_bytes();
    lemma_auto_spec_u128_to_from_le_bytes();
    encode_utf8_valid_utf8(r.name);
    encode_utf8_decode_utf8(r.name);
    lemma_u32s_bytes_len(r.children);
    let e = encode_utf8(r.name);
    let s = part_row_bytes(r) + rest;
    let c0: int = 58 + e.len() as int;
    let p0: int = c0 + 4 * r.children.len();
    assert(s.subrange(0, 16) =~= uuid_bytes(r.id));
    assert(s.subrange(16, 18) =~= chunk_bytes(r.chunk_type));
    assert(s.subrange(18, 26) =~= spec_u64_to_le_bytes(r.chunk_offset));
    assert(s.subrange(26, 30) =~= spec_u32_to_le_bytes(r.chunk_size));
    assert(s.subrange(30, 34) =~= spec_u32_to_le_bytes(r.position.x));
    assert(s.subrange(34, 38) =~= spec_u32_to_le_bytes(r.position.y));
    assert(s.subrange(38, 42) =~= spec_u32_to_le_bytes(r.size.w));
    assert(s.subrange(42, 46) =~= spec_u32_to_le_bytes(r.size.h));
    assert(s.subrange(46, 50) =~= spec_u32_to_le_bytes(r.children.len() as u32));
    assert(s.subrange(50, 54) =~= spec_u32_to_le_bytes(r.preview.len() as u32));
    assert(s.subrange(54, 58) =~= spec_u32_to_le_bytes(e.len() as u32));
    assert(s.subrange(58, c0) =~= e);
    assert(s.subrange(c0, p0) =~= u32s_bytes(r.children));
    assert(s.subrange(p0, p0 + r.preview.len()) =~= r.preview);
    lemma_u32s_read_back(s, c0, r.children);
    assert(chunk_of(chunk_code(r.chunk_type)) == r.chunk_type);
}

/// Rows read one after another until one fails to read: the bytes they
/// took and the rows.
pub open spec fn rows_parse(s: Seq<u8>) -> (nat, Seq<PartRowView>)
    decreases s.len(),
{
    match part_row_parse(s) {
        Ok((n, r)) => if 0 < n <= s.len() {
            let (m, rs) = rows_parse(s.skip(n as int));
            (n + m, seq![r] + rs)
        } else {
            (0, seq![])
        },
        Err(_) => (0, seq![]),
    }
}

/// Reading rows one after another never meets a row that panics.
pub open spec fn rows_ok(s: Seq<u8>) -> bool
    decreases s.len(),
{
    &&& part_row_ok(s)
    &&& match part_row_parse(s) {
        Ok((n, _)) => (0 < n <= s.len()) ==> rows_ok(s.skip(n as int)),
        Err(_) => true,
    }
}

/// Rows stored one after another.
pub open spec fn rows_bytes(rs: Seq<PartRowView>) -> Seq<u8>
    decreases rs.len(),
{
    if rs.len() == 0 {
        seq![]
    } else {
        part_row_bytes(rs[0]) + rows_bytes(rs.drop_first())
    }
}

/// The sum of the counts the rows' writes give back.
pub open spec fn rows_count(rs: Seq<PartRowView>) -> nat
    decreases rs.len(),
{
    if rs.len() == 0 {
        0
    } else {
        part_row_count(rs[0]) + rows_count(rs.drop_first())
    }
}

pub open spec fn rows_view(v: Seq<PartitionTableRow>) -> Seq<PartRowView> {
    Seq::new(v.len(), |i: int| v[i]@)
}

proof fn lemma_rows_push(rs: Seq<PartRowView>, x: PartRowView)
    ensures
        rows_bytes(rs.push(x)) == rows_bytes(rs) + part_row_bytes(x),
        rows_count(rs.push(x)) == rows_count(rs) + part_row_count(x),
    decreases rs.len(),
{
    assert(rs.push(x)[0] == if rs.len() == 0 { x } else { rs[0] });
    if rs.len() == 0 {
        assert(rs.push(x).drop_first() =~= rs);
        assert(rows_bytes(rs) =~= Seq::<u8>::empty());
        assert(rows_bytes(rs.push(x)) =~= part_row_bytes(x));
    } else {
        assert(rs.push(x).drop_first() =~= rs.drop_first().push(x));
        lemma_rows_push(rs.drop_first(), x);
        assert(rows_bytes(rs.push(x)) =~= rows_bytes(rs) + part_row_bytes(x));
    }
}

/// Read rows one after another until one fails to read; gives back the
/// bytes after the last row read.
pub fn rows_from_bytes(bytes: &[u8]) -> (r: (&[u8], Vec<PartitionTableRow>))
    requires
        rows_ok(bytes@),
    ensures
        r.0@ == bytes@.skip(rows_parse(bytes@).0 as int),
        rows_view(r.1@) == rows_parse(bytes@).1,
{
    let mut cur = bytes;
    let mut out: Vec<PartitionTableRow> = Vec::new();
    let ghost mut taken: nat = 0;
    loop
        invariant
            taken <= bytes@.len(),
            cur@ == bytes@.skip(taken as int),
            rows_ok(cur@),
            rows_parse(bytes@).0 == taken + rows_parse(cur@).0,
            rows_parse(bytes@).1 == rows_view(out@) + rows_parse(cur@).1,
        ensures
            cur@ == bytes@.skip(taken as int),
            rows_parse(bytes@).0 == taken,
            rows_parse(bytes@).1 == rows_view(out@),
        decreases cur@.len(),
    {
        match PartitionTableRow::from_bytes(cur) {
            Ok((rest, row)) => {
                let ghost n = (cur@.len() - rest@.len()) as nat;
                proof {
                    assert(rest@ == cur@.skip(n as int));
                    assert(bytes@.skip(taken as int).skip(n as int) =~= bytes@.skip((taken + n) as int));
                    assert(rows_view(out@.push(row)) =~= rows_view(out@).push(row@));
                    assert(rows_view(out@).push(row@) + rows_parse(rest@).1 =~= rows_view(out@) + (seq![row@] + rows_parse(rest@).1));
                    taken = taken + n;
                }
                out.push(row);
                cur = rest;
            },
            Err(_) => {
                proof {
                    assert(rows_parse(cur@).1 =~= Seq::<PartRowView>::empty());
                    assert(rows_view(out@) + rows_parse(cur@).1 =~= rows_view(out@));
                }
                break;
            },
        }
    }
    (cur, out)
}

/// What a list of rows writes, and the count it gives back, as the rows'
/// values state them.
pub proof fn lemma_rows_written(rows: Seq<PartitionTableRow>)
    ensures
        written_all(rows) == rows_bytes(rows_view(rows)),
        count_all(rows) == rows_count(rows_view(rows)),
    decreases rows.len(),
{
    if rows.len() > 0 {
        let head = rows.drop_last();
        lemma_rows_written(head);
        assert(rows_view(rows) =~= rows_view(head).push(rows.last()@));
        lemma_rows_push(rows_view(head), rows.last()@);
    }
}

/// Rows that fit the format, stored one after another, read back as
/// themselves and take all their bytes.
pub proof fn lemma_rows_roundtrip(rs: Seq<PartRowView>)
    requires
        forall|i: int| 0 <= i < rs.len() ==> part_row_fits(#[trigger] rs[i]),
    ensures
        rows_ok(rows_bytes(rs)),
        rows_parse(rows_bytes(rs)) == (rows_bytes(rs).len(), rs),
    decreases rs.len(),
{
    if rs.len() == 0 {
        assert(rows_parse(rows_bytes(rs)).1 =~= rs);
    } else {
        let tail = rs.drop_first();
        assert forall|i: int| 0 <= i < tail.len() implies part_row_fits(#[trigger] tail[i]) by {
            assert(tail[i] == rs[i + 1]);
        }
        lemma_rows_roundtrip(tail);
        assert(part_row_fits(rs[0]));
        lemma_part_row_roundtrip(rs[0], rows_bytes(tail));
        let s = rows_bytes(rs);
        let n = part_row_bytes(rs[0]).len();
        assert(s.skip(n as int) =~= rows_bytes(tail));
        assert(seq![rs[0]] + tail =~= rs);
    }
}

/// A row's bytes are as many as the count its write gives back.
pub(crate) proof fn lemma_part_row_len(r: PartRowView)
    ensures
        part_row_bytes(r).len() == part_row_count(r),
{
    lemma_auto_spec_u16_to_from_le_bytes();
    lemma_auto_spec_u32_to_from_le_bytes();
    lemma_auto_spec_u64_to_from_le_bytes();
    lemma_auto_spec_u128_to_from_le_bytes();
    lemma_u32s_bytes_len(r.children);
}

/// Rows' bytes are as many as the sum of their counts.
pub(crate) proof fn lemma_rows_len(rs: Seq<PartRowView>)
    ensures
        rows_bytes(rs).len() == rows_count(rs),
    decreases rs.len(),
{
    if rs.len() > 0 {
        lemma_part_row_len(rs[0]);
        lemma_rows_len(rs.drop_first());
    }
}

} // verus!
