use vstd::prelude::*;
use vstd::bytes::*;
use vstd::utf8::{valid_utf8, decode_utf8, encode_utf8, encode_utf8_valid_utf8, encode_utf8_decode_utf8};
use vstd::string::StringSliceAdditionalSpecFns;
use crate::document::math::{Vec2, Extent2, Uuid};
use crate::document::node::NodeKind;

verus! {

/// Why a parse failed: the input ended too early, a fixed tag did not
/// match, or a value was none of the accepted ones.
#[derive(Debug, Clone, Copy, PartialEq, Eq, Structural)]
pub enum ParseError {
    Eof,
    Tag,
    NoneOf,
}

/// A value that serializes itself by appending bytes.
pub trait Write {
    /// The bytes a value serializes to.
    spec fn written(&self) -> Seq<u8>;

    /// Append the value's bytes; gives back how many were written.
    fn write(&self, out: &mut Vec<u8>) -> (r: usize)
        requires
            old(out)@.len() + self.written().len() <= usize::MAX,
        ensures
            final(out)@ == old(out)@ + self.written(),
            r == self.written().len(),
    ;
}

/// A parse outcome in specifications: bytes consumed and the value read.
pub type SpecParse<V> = Result<(nat, V), ParseError>;

/// An executable parse result agrees with its specification: on success
/// the rest of the input follows the consumed bytes and the value's view
/// matches; on failure the error matches.
pub open spec fn parsed<T: View>(s: Seq<u8>, r: Result<(&[u8], T), ParseError>, expected: SpecParse<T::V>) -> bool {
    match expected {
        Ok((n, v)) => r matches Ok((rest, w)) && rest@ == s.skip(n as int) && w@ == v,
        Err(e) => r == Err::<(&[u8], T), ParseError>(e),
    }
}

pub open spec fn u16_at(s: Seq<u8>, i: int) -> u16 {
    spec_u16_from_le_bytes(s.subrange(i, i + 2))
}

pub open spec fn u32_at(s: Seq<u8>, i: int) -> u32 {
    spec_u32_from_le_bytes(s.subrange(i, i + 4))
}

pub open spec fn u64_at(s: Seq<u8>, i: int) -> u64 {
    spec_u64_from_le_bytes(s.subrange(i, i + 8))
}

pub open spec fn u128_at(s: Seq<u8>, i: int) -> u128 {
    spec_u128_from_le_bytes(s.subrange(i, i + 16))
}

pub(crate) fn read_u16_at(s: &[u8], at: usize) -> (r: u16)
    requires
        at + 2 <= s@.len(),
    ensures
        r == u16_at(s@, at as int),
{
    let _len = s.len();
    u16_from_le_bytes(&s[at..at + 2])
}

pub(crate) fn read_u32_at(s: &[u8], at: usize) -> (r: u32)
    requires
        at + 4 <= s@.len(),
    ensures
        r == u32_at(s@, at as int),
{
    let _len = s.len();
    u32_from_le_bytes(&s[at..at + 4])
}

pub(crate) fn read_u64_at(s: &[u8], at: usize) -> (r: u64)
    requires
        at + 8 <= s@.len(),
    ensures
        r == u64_at(s@, at as int),
{
    let _len = s.len();
    u64_from_le_bytes(&s[at..at + 8])
}

fn read_u128_at(s: &[u8], at: usize) -> (r: u128)
    requires
        at + 16 <= s@.len(),
    ensures
        r == u128_at(s@, at as int),
{
    let _len = s.len();
    u128_from_le_bytes(&s[at..at + 16])
}

pub(crate) fn append(out: &mut Vec<u8>, bytes: Vec<u8>)
    ensures
        final(out)@ == old(out)@ + bytes@,
{
    let mut bytes = bytes;
    out.append(&mut bytes);
}

impl View for Vec2 {
    type V = Vec2;

    open spec fn view(&self) -> Vec2 {
        *self
    }
}

impl View for Extent2 {
    type V = Extent2;

    open spec fn view(&self) -> Extent2 {
        *self
    }
}

impl View for Uuid {
    type V = Uuid;

    open spec fn view(&self) -> Uuid {
        *self
    }
}

/// The file starts with this tag: "PXLR".
pub open spec fn magic() -> Seq<u8> {
    seq![0x50u8, 0x58u8, 0x4cu8, 0x52u8]
}

/// File header: the format version.
#[derive(Debug, Clone, Copy, PartialEq, Eq, Structural)]
pub struct Header {
    pub version: u8,
}

impl View for Header {
    type V = Header;

    open spec fn view(&self) -> Header {
        *self
    }
}

pub open spec fn header_parse(s: Seq<u8>) -> SpecParse<Header> {
    if s.len() < 4 || s.subrange(0, 4) != magic() {
        Err(ParseError::Tag)
    } else if s.len() < 5 {
        Err(ParseError::Eof)
    } else {
        Ok((5, Header { version: s[4] }))
    }
}

pub open spec fn header_bytes(h: Header) -> Seq<u8> {
    magic().push(h.version)
}

impl Header {
    pub fn parse(bytes: &[u8]) -> (r: Result<(&[u8], Header), ParseError>)
        ensures
            parsed(bytes@, r, header_parse(bytes@)),
    {
        if bytes.len() < 4 || bytes[0] != 0x50 || bytes[1] != 0x58 || bytes[2] != 0x4c || bytes[3] != 0x52 {
            proof {
                if bytes@.len() >= 4 {
                    assert(bytes@.subrange(0, 4)[0] == bytes@[0]);
                    assert(bytes@.subrange(0, 4)[1] == bytes@[1]);
                    assert(bytes@.subrange(0, 4)[2] == bytes@[2]);
                    assert(bytes@.subrange(0, 4)[3] == bytes@[3]);
                }
            }
            return Err(ParseError::Tag);
        }
        assert(bytes@.subrange(0, 4) =~= magic());
        if bytes.len() < 5 {
            return Err(ParseError::Eof);
        }
        Ok((&bytes[5..bytes.len()], Header { version: bytes[4] }))
    }
}

impl Write for Header {
    open spec fn written(&self) -> Seq<u8> {
        header_bytes(*self)
    }

    /// Serialize; gives back the number of bytes written.
    fn write(&self, out: &mut Vec<u8>) -> (r: usize) {
        out.push(0x50);
        out.push(0x58);
        out.push(0x4c);
        out.push(0x52);
        out.push(self.version);
        assert(out@ =~= old(out)@ + header_bytes(*self));
        5
    }
}

/// What a header reads back as.
pub proof fn lemma_header_roundtrip(h: Header, rest: Seq<u8>)
    ensures
        header_parse(header_bytes(h) + rest) == Ok::<(nat, Header), ParseError>((5, h)),
{
    let s = header_bytes(h) + rest;
    assert(s.subrange(0, 4) =~= magic());
}

pub open spec fn uuid_parse(s: Seq<u8>) -> SpecParse<Uuid> {
    if s.len() < 16 {
        Err(ParseError::Eof)
    } else {
        Ok((16, Uuid { value: u128_at(s, 0) }))
    }
}

pub open spec fn uuid_bytes(u: Uuid) -> Seq<u8> {
    spec_u128_to_le_bytes(u.value)
}

pub(crate) fn parse_uuid_at(bytes: &[u8], at: usize) -> (r: Uuid)
    requires
        at + 16 <= bytes@.len(),
    ensures
        r.value == u128_at(bytes@, at as int),
{
    Uuid { value: read_u128_at(bytes, at) }
}

impl Uuid {
    pub fn parse(bytes: &[u8]) -> (r: Result<(&[u8], Uuid), ParseError>)
        ensures
            parsed(bytes@, r, uuid_parse(bytes@)),
    {
        if bytes.len() < 16 {
            return Err(ParseError::Eof);
        }
        let u = parse_uuid_at(bytes, 0);
        Ok((&bytes[16..bytes.len()], u))
    }
}

impl Write for Uuid {
    open spec fn written(&self) -> Seq<u8> {
        uuid_bytes(*self)
    }

    /// Serialize; gives back the number of bytes written.
    fn write(&self, out: &mut Vec<u8>) -> (r: usize) {
        proof { lemma_auto_spec_u128_to_from_le_bytes(); }
        append(out, u128_to_le_bytes(self.value));
        16
    }
}

pub open spec fn vec2_parse(s: Seq<u8>) -> SpecParse<Vec2> {
    if s.len() < 8 {
        Err(ParseError::Eof)
    } else {
        Ok((8, Vec2 { x: u32_at(s, 0), y: u32_at(s, 4) }))
    }
}

pub open spec fn vec2_bytes(v: Vec2) -> Seq<u8> {
    spec_u32_to_le_bytes(v.x) + spec_u32_to_le_bytes(v.y)
}

impl Vec2 {
    pub fn parse(bytes: &[u8]) -> (r: Result<(&[u8], Vec2), ParseError>)
        ensures
            parsed(bytes@, r, vec2_parse(bytes@)),
    {
        if bytes.len() < 8 {
            return Err(ParseError::Eof);
        }
        let v = Vec2 { x: read_u32_at(bytes, 0), y: read_u32_at(bytes, 4) };
        Ok((&bytes[8..bytes.len()], v))
    }
}

impl Write for Vec2 {
    open spec fn written(&self) -> Seq<u8> {
        vec2_bytes(*self)
    }

    /// Serialize; gives back the number of bytes written.
    fn write(&self, out: &mut Vec<u8>) -> (r: usize) {
        proof { lemma_auto_spec_u32_to_from_le_bytes(); }
        append(out, u32_to_le_bytes(self.x));
        append(out, u32_to_le_bytes(self.y));
        assert(out@ =~= old(out)@ + vec2_bytes(*self));
        8
    }
}

pub open spec fn extent2_parse(s: Seq<u8>) -> SpecParse<Extent2> {
    if s.len() < 8 {
        Err(ParseError::Eof)
    } else {
        Ok((8, Extent2 { w: u32_at(s, 0), h: u32_at(s, 4) }))
    }
}

pub open spec fn extent2_bytes(v: Extent2) -> Seq<u8> {
    spec_u32_to_le_bytes(v.w) + spec_u32_to_le_bytes(v.h)
}

impl Extent2 {
    pub fn parse(bytes: &[u8]) -> (r: Result<(&[u8], Extent2), ParseError>)
        ensures
            parsed(bytes@, r, extent2_parse(bytes@)),
    {
        if bytes.len() < 8 {
            return Err(ParseError::Eof);
        }
        let v = Extent2 { w: read_u32_at(bytes, 0), h: read_u32_at(bytes, 4) };
        Ok((&bytes[8..bytes.len()], v))
    }
}

impl Write for Extent2 {
    open spec fn written(&self) -> Seq<u8> {
        extent2_bytes(*self)
    }

    /// Serialize; gives back the number of bytes written.
    fn write(&self, out: &mut Vec<u8>) -> (r: usize) {
        proof { lemma_auto_spec_u32_to_from_le_bytes(); }
        append(out, u32_to_le_bytes(self.w));
        append(out, u32_to_le_bytes(self.h));
        assert(out@ =~= old(out)@ + extent2_bytes(*self));
        8
    }
}

/// What fixed-size values read back as.
pub proof fn lemma_fixed_roundtrips(u: Uuid, p: Vec2, e: Extent2, rest: Seq<u8>)
    ensures
        uuid_parse(uuid_bytes(u) + rest) == Ok::<(nat, Uuid), ParseError>((16, u)),
        vec2_parse(vec2_bytes(p) + rest) == Ok::<(nat, Vec2), ParseError>((8, p)),
        extent2_parse(extent2_bytes(e) + rest) == Ok::<(nat, Extent2), ParseError>((8, e)),
{
    lemma_auto_spec_u128_to_from_le_bytes();
    lemma_auto_spec_u32_to_from_le_bytes();
    let s = uuid_bytes(u) + rest;
    assert(s.subrange(0, 16) =~= uuid_bytes(u));
    let s = vec2_bytes(p) + rest;
    assert(s.subrange(0, 4) =~= spec_u32_to_le_bytes(p.x));
    assert(s.subrange(4, 8) =~= spec_u32_to_le_bytes(p.y));
    let s = extent2_bytes(e) + rest;
    assert(s.subrange(0, 4) =~= spec_u32_to_le_bytes(e.w));
    assert(s.subrange(4, 8) =~= spec_u32_to_le_bytes(e.h));
}

/// `std::str::from_utf8`: the string whose UTF-8 encoding is `bytes`, if
/// they are valid UTF-8.
#[verifier::external_body]
fn str_from_utf8(bytes: &[u8]) -> (r: Option<&str>)
    ensures
        r is Some <==> valid_utf8(bytes@),
        r matches Some(s) ==> s.spec_bytes() == bytes@,
{
    std::str::from_utf8(bytes).ok()
}

/// A length-prefixed string: its byte length as a little-endian 32-bit
/// number, then its UTF-8 bytes.
pub open spec fn string_parse(s: Seq<u8>) -> SpecParse<Seq<char>> {
    if s.len() < 4 {
        Err(ParseError::Eof)
    } else if s.len() < 4 + u32_at(s, 0) {
        Err(ParseError::Eof)
    } else {
        Ok(((4 + u32_at(s, 0)) as nat, decode_utf8(s.subrange(4, 4 + u32_at(s, 0)))))
    }
}

/// The string a parse reads is valid UTF-8 wherever the length prefix
/// places it.
pub open spec fn string_utf8_ok(s: Seq<u8>) -> bool {
    s.len() >= 4 && s.len() >= 4 + u32_at(s, 0) ==> valid_utf8(s.subrange(4, 4 + u32_at(s, 0)))
}

pub open spec fn string_bytes(chars: Seq<char>) -> Seq<u8> {
    spec_u32_to_le_bytes(encode_utf8(chars).len() as u32) + encode_utf8(chars)
}

/// Read a length-prefixed UTF-8 string.
pub fn parse_string(bytes: &[u8]) -> (r: Result<(&[u8], String), ParseError>)
    requires
        string_utf8_ok(bytes@),
    ensures
        parsed(bytes@, r, string_parse(bytes@)),
{
    if bytes.len() < 4 {
        return Err(ParseError::Eof);
    }
    let len = read_u32_at(bytes, 0);
    if bytes.len() - 4 < len as usize {
        return Err(ParseError::Eof);
    }
    let end = 4 + len as usize;
    let text = &bytes[4..end];
    match str_from_utf8(text) {
        Some(s) => {
            proof {
                encode_utf8_decode_utf8(s@);
            }
            let owned = s.to_owned();
            Ok((&bytes[end..bytes.len()], owned))
        },
        None => {
            proof { assert(false); }
            Err(ParseError::Eof)
        },
    }
}

impl Write for String {
    open spec fn written(&self) -> Seq<u8> {
        string_bytes(self@)
    }

    /// Write a length-prefixed UTF-8 string. A string longer than
    /// `u32::MAX` bytes gets its length prefix truncated to 32 bits.
    fn write(&self, out: &mut Vec<u8>) -> (r: usize) {
        proof { lemma_auto_spec_u32_to_from_le_bytes(); }
        let bytes = self.as_str().as_bytes();
        let n = bytes.len();
        append(out, u32_to_le_bytes(n as u32));
        let ghost mid = out@;
        let mut k: usize = 0;
        while k < n
            invariant
                k <= n,
                n == bytes@.len(),
                out@ == mid + bytes@.subrange(0, k as int),
            decreases n - k,
        {
            out.push(bytes[k]);
            k = k + 1;
            assert(out@ =~= mid + bytes@.subrange(0, k as int));
        }
        assert(bytes@.subrange(0, n as int) =~= bytes@);
        assert(out@ =~= old(out)@ + string_bytes(self@));
        4 + n
    }
}

/// What a string reads back as, when its byte length fits the 32-bit prefix.
pub proof fn lemma_string_roundtrip(chars: Seq<char>, rest: Seq<u8>)
    requires
        encode_utf8(chars).len() <= u32::MAX,
    ensures
        string_utf8_ok(string_bytes(chars) + rest),
        string_parse(string_bytes(chars) + rest) == Ok::<(nat, Seq<char>), ParseError>(
            ((4 + encode_utf8(chars).len()) as nat, chars),
        ),
{
    lemma_auto_spec_u32_to_from_le_bytes();
    encode_utf8_valid_utf8(chars);
    encode_utf8_decode_utf8(chars);
    let e = encode_utf8(chars);
    let s = string_bytes(chars) + rest;
    assert(s.subrange(0, 4) =~= spec_u32_to_le_bytes(e.len() as u32));
    assert(s.subrange(4, 4 + e.len() as int) =~= e);
}

impl View for NodeKind {
    type V = NodeKind;

    open spec fn view(&self) -> NodeKind {
        *self
    }
}

/// The number a node kind is stored as.
pub open spec fn kind_code(k: NodeKind) -> u16 {
    match k {
        NodeKind::Group => 0,
        NodeKind::Note => 1,
        NodeKind::Palette => 2,
        NodeKind::Sprite => 3,
        NodeKind::Canvas => 4,
    }
}

/// The node kind stored as `code`, if any.
pub open spec fn kind_of(code: u16) -> Option<NodeKind> {
    if code == 0 {
        Some(NodeKind::Group)
    } else if code == 1 {
        Some(NodeKind::Note)
    } else if code == 2 {
        Some(NodeKind::Palette)
    } else if code == 3 {
        Some(NodeKind::Sprite)
    } else if code == 4 {
        Some(NodeKind::Canvas)
    } else {
        None
    }
}

pub open spec fn kind_parse(s: Seq<u8>) -> SpecParse<NodeKind> {
    if s.len() < 2 {
        Err(ParseError::Eof)
    } else {
        match kind_of(u16_at(s, 0)) {
            Some(k) => Ok((2, k)),
            None => Err(ParseError::NoneOf),
        }
    }
}

pub open spec fn kind_bytes(k: NodeKind) -> Seq<u8> {
    spec_u16_to_le_bytes(kind_code(k))
}

fn kind_from_code(code: u16) -> (r: Option<NodeKind>)
    ensures
        r == kind_of(code),
{
    match code {
        0 => Some(NodeKind::Group),
        1 => Some(NodeKind::Note),
        2 => Some(NodeKind::Palette),
        3 => Some(NodeKind::Sprite),
        4 => Some(NodeKind::Canvas),
        _ => None,
    }
}

impl NodeKind {
    pub fn parse(bytes: &[u8]) -> (r: Result<(&[u8], NodeKind), ParseError>)
        ensures
            parsed(bytes@, r, kind_parse(bytes@)),
    {
        if bytes.len() < 2 {
            return Err(ParseError::Eof);
        }
        match kind_from_code(read_u16_at(bytes, 0)) {
            Some(k) => Ok((&bytes[2..bytes.len()], k)),
            None => Err(ParseError::NoneOf),
        }
    }

    fn code(&self) -> (r: u16)
        ensures
            r == kind_code(*self),
    {
        match self {
            NodeKind::Group => 0,
            NodeKind::Note => 1,
            NodeKind::Palette => 2,
            NodeKind::Sprite => 3,
            NodeKind::Canvas => 4,
        }
    }
}

impl Write for NodeKind {
    open spec fn written(&self) -> Seq<u8> {
        kind_bytes(*self)
    }

    /// Serialize; gives back the number of bytes written.
    fn write(&self, out: &mut Vec<u8>) -> (r: usize) {
        proof { lemma_auto_spec_u16_to_from_le_bytes(); }
        append(out, u16_to_le_bytes(self.code()));
        2
    }
}

/// What a node kind reads back as.
pub proof fn lemma_kind_roundtrip(k: NodeKind, rest: Seq<u8>)
    ensures
        kind_parse(kind_bytes(k) + rest) == Ok::<(nat, NodeKind), ParseError>((2, k)),
{
    lemma_auto_spec_u16_to_from_le_bytes();
    let s = kind_bytes(k) + rest;
    assert(s.subrange(0, 2) =~= kind_bytes(k));
}

/// The index of a document revision: where the previous revision starts,
/// how many rows it has, the root node and the revision's own identifier.
#[derive(Debug, Clone, Copy, PartialEq, Eq, Structural)]
pub struct Index {
    pub hash: Uuid,
    pub root: Uuid,
    pub size: u32,
    pub prev_offset: u64,
}

impl View for Index {
    type V = Index;

    open spec fn view(&self) -> Index {
        *self
    }
}

pub open spec fn index_parse(s: Seq<u8>) -> SpecParse<Index> {
    if s.len() < 44 {
        Err(ParseError::Eof)
    } else {
        Ok((44, Index {
            prev_offset: u64_at(s, 0),
            size: u32_at(s, 8),
            root: Uuid { value: u128_at(s, 12) },
            hash: Uuid { value: u128_at(s, 28) },
        }))
    }
}

pub open spec fn index_bytes(i: Index) -> Seq<u8> {
    spec_u64_to_le_bytes(i.prev_offset) + spec_u32_to_le_bytes(i.size) + uuid_bytes(i.root) + uuid_bytes(i.hash)
}

impl Index {
    pub fn parse(bytes: &[u8]) -> (r: Result<(&[u8], Index), ParseError>)
        ensures
            parsed(bytes@, r, index_parse(bytes@)),
    {
        if bytes.len() < 44 {
            return Err(ParseError::Eof);
        }
        let index = Index {
            prev_offset: read_u64_at(bytes, 0),
            size: read_u32_at(bytes, 8),
            root: parse_uuid_at(bytes, 12),
            hash: parse_uuid_at(bytes, 28),
        };
        Ok((&bytes[44..bytes.len()], index))
    }
}

impl Write for Index {
    open spec fn written(&self) -> Seq<u8> {
        index_bytes(*self)
    }

    /// Serialize; gives back the number of bytes written.
    fn write(&self, out: &mut Vec<u8>) -> (r: usize) {
        proof {
            lemma_auto_spec_u64_to_from_le_bytes();
            lemma_auto_spec_u32_to_from_le_bytes();
            lemma_auto_spec_u128_to_from_le_bytes();
        }
        append(out, u64_to_le_bytes(self.prev_offset));
        append(out, u32_to_le_bytes(self.size));
        self.root.write(out);
        self.hash.write(out);
        assert(out@ =~= old(out)@ + index_bytes(*self));
        44
    }
}

/// What an index reads back as.
pub proof fn lemma_index_roundtrip(i: Index, rest: Seq<u8>)
    ensures
        index_parse(index_bytes(i) + rest) == Ok::<(nat, Index), ParseError>((44, i)),
{
    lemma_auto_spec_u64_to_from_le_bytes();
    lemma_auto_spec_u32_to_from_le_bytes();
    lemma_auto_spec_u128_to_from_le_bytes();
    let s = index_bytes(i) + rest;
    assert(s.subrange(0, 8) =~= spec_u64_to_le_bytes(i.prev_offset));
    assert(s.subrange(8, 12) =~= spec_u32_to_le_bytes(i.size));
    assert(s.subrange(12, 28) =~= uuid_bytes(i.root));
    assert(s.subrange(28, 44) =~= uuid_bytes(i.hash));
}

/// One row of a revision's index: a node's identity, where its chunk
/// lies, its flags, placement, name, children and dependencies.
#[derive(Debug, Clone)]
pub struct IndexRow {
    pub id: Uuid,
    pub chunk_type: NodeKind,
    pub chunk_offset: u64,
    pub chunk_size: u32,
    pub display: bool,
    pub locked: bool,
    pub folded: bool,
    pub position: Vec2,
    pub size: Extent2,
    pub name: String,
    pub children: Vec<Uuid>,
    pub dependencies: Vec<Uuid>,
}

/// An index row as values.
pub struct IndexRowView {
    pub id: Uuid,
    pub chunk_type: NodeKind,
    pub chunk_offset: u64,
    pub chunk_size: u32,
    pub display: bool,
    pub locked: bool,
    pub folded: bool,
    pub position: Vec2,
    pub size: Extent2,
    pub name: Seq<char>,
    pub children: Seq<Uuid>,
    pub dependencies: Seq<Uuid>,
}

impl View for IndexRow {
    type V = IndexRowView;

    open spec fn view(&self) -> IndexRowView {
        IndexRowView {
            id: self.id,
            chunk_type: self.chunk_type,
            chunk_offset: self.chunk_offset,
            chunk_size: self.chunk_size,
            display: self.display,
            locked: self.locked,
            folded: self.folded,
            position: self.position,
            size: self.size,
            name: self.name@,
            children: self.children@,
            dependencies: self.dependencies@,
        }
    }
}

/// `n` identifiers stored back to back from position `at`.
pub open spec fn uuids_at(s: Seq<u8>, at: int, n: nat) -> Seq<Uuid> {
    Seq::new(n, |k: int| Uuid { value: u128_at(s, at + 16 * k) })
}

/// Identifiers stored back to back.
pub open spec fn uuids_bytes(us: Seq<Uuid>) -> Seq<u8>
    decreases us.len(),
{
    if us.len() == 0 {
        seq![]
    } else {
        uuids_bytes(us.drop_last()) + uuid_bytes(us.last())
    }
}

/// The flags byte: display, locked and folded in its three low bits.
pub open spec fn flag_byte(display: bool, locked: bool, folded: bool) -> u8 {
    ((if display { 1u8 } else { 0u8 }) | (if locked { 2u8 } else { 0u8 }) | (if folded { 4u8 } else { 0u8 })) as u8
}

/// Where the fixed part of a row ends and its name's length prefix starts.
pub open spec fn row_name_at() -> int {
    55
}

pub open spec fn row_parse(s: Seq<u8>) -> SpecParse<IndexRowView> {
    if s.len() < 18 {
        Err(ParseError::Eof)
    } else if kind_of(u16_at(s, 16)) is None {
        Err(ParseError::NoneOf)
    } else if s.len() < 59 {
        Err(ParseError::Eof)
    } else {
        let l = u32_at(s, 55) as int;
        let ic = u32_at(s, 47) as nat;
        let dc = u32_at(s, 51) as nat;
        let c0 = 59 + l;
        let d0 = c0 + 16 * ic;
        let end = d0 + 16 * dc;
        if s.len() < end {
            Err(ParseError::Eof)
        } else {
            let flag = s[30];
            Ok((end as nat, IndexRowView {
                id: Uuid { value: u128_at(s, 0) },
                chunk_type: kind_of(u16_at(s, 16))->Some_0,
                chunk_offset: u64_at(s, 18),
                chunk_size: u32_at(s, 26),
                display: flag & 1 != 0,
                locked: flag & 2 != 0,
                folded: flag & 4 != 0,
                position: Vec2 { x: u32_at(s, 31), y: u32_at(s, 35) },
                size: Extent2 { w: u32_at(s, 39), h: u32_at(s, 43) },
                name: decode_utf8(s.subrange(59, c0)),
                children: uuids_at(s, c0, ic),
                dependencies: uuids_at(s, d0, dc),
            }))
        }
    }
}

/// The name a row parse reads is valid UTF-8 wherever it is reached.
pub open spec fn row_utf8_ok(s: Seq<u8>) -> bool {
    s.len() >= 59 && kind_of(u16_at(s, 16)) is Some && s.len() >= 59 + u32_at(s, 55)
        ==> valid_utf8(s.subrange(59, 59 + u32_at(s, 55)))
}

pub open spec fn row_bytes(r: IndexRowView) -> Seq<u8> {
    uuid_bytes(r.id) + kind_bytes(r.chunk_type) + spec_u64_to_le_bytes(r.chunk_offset)
        + spec_u32_to_le_bytes(r.chunk_size) + seq![flag_byte(r.display, r.locked, r.folded)]
        + vec2_bytes(r.position) + extent2_bytes(r.size)
        + spec_u32_to_le_bytes(r.children.len() as u32) + spec_u32_to_le_bytes(r.dependencies.len() as u32)
        + string_bytes(r.name) + uuids_bytes(r.children) + uuids_bytes(r.dependencies)
}

fn parse_uuids(bytes: &[u8], at: usize, n: u32) -> (r: Vec<Uuid>)
    requires
        at + 16 * n <= bytes@.len(),
    ensures
        r@ == uuids_at(bytes@, at as int, n as nat),
{
    let _blen = bytes.len();
    let mut out: Vec<Uuid> = Vec::new();
    let mut k: u32 = 0;
    while k < n
        invariant
            k <= n,
            at + 16 * n <= bytes@.len(),
            bytes@.len() <= usize::MAX,
            out@ == uuids_at(bytes@, at as int, k as nat),
        decreases n - k,
    {
        assert(at + 16 * k + 16 <= at + 16 * n) by (nonlinear_arith)
            requires k < n;
        let pos = at + 16 * (k as usize);
        out.push(parse_uuid_at(bytes, pos));
        k = k + 1;
        assert(out@ =~= uuids_at(bytes@, at as int, k as nat));
    }
    out
}

fn write_uuids(us: &Vec<Uuid>, out: &mut Vec<u8>)
    requires
        old(out)@.len() + 16 * us@.len() <= usize::MAX,
    ensures
        final(out)@ == old(out)@ + uuids_bytes(us@),
{
    let ghost start = out@;
    let n = us.len();
    let mut k: usize = 0;
    while k < n
        invariant
            k <= n,
            n == us@.len(),
            start.len() + 16 * n <= usize::MAX,
            out@ == start + uuids_bytes(us@.subrange(0, k as int)),
        decreases n - k,
    {
        proof {
            lemma_auto_spec_u128_to_from_le_bytes();
            lemma_uuids_bytes_len(us@.subrange(0, k as int));
            assert(16 * k + 16 <= 16 * n) by (nonlinear_arith)
                requires k < n;
        }
        us[k].write(out);
        assert(us@.subrange(0, k + 1).drop_last() =~= us@.subrange(0, k as int));
        k = k + 1;
        assert(out@ =~= start + uuids_bytes(us@.subrange(0, k as int)));
    }
    assert(us@.subrange(0, n as int) =~= us@);
}

impl IndexRow {
    pub fn new(id: Uuid) -> (r: IndexRow)
        ensures
            r@.id == id,
            r@.chunk_type == NodeKind::Group,
            r@.chunk_offset == 0,
            r@.chunk_size == 0,
            !r@.display && !r@.locked && !r@.folded,
            r@.position == (Vec2 { x: 0, y: 0 }),
            r@.size == (Extent2 { w: 0, h: 0 }),
            r@.name == Seq::<char>::empty(),
            r@.children == Seq::<Uuid>::empty(),
            r@.dependencies == Seq::<Uuid>::empty(),
    {
        IndexRow {
            id,
            chunk_type: NodeKind::Group,
            chunk_offset: 0,
            chunk_size: 0,
            display: false,
            locked: false,
            folded: false,
            position: Vec2 { x: 0, y: 0 },
            size: Extent2 { w: 0, h: 0 },
            name: String::new(),
            children: Vec::new(),
            dependencies: Vec::new(),
        }
    }

    pub fn parse(bytes: &[u8]) -> (r: Result<(&[u8], IndexRow), ParseError>)
        requires
            row_utf8_ok(bytes@),
        ensures
            parsed(bytes@, r, row_parse(bytes@)),
    {
        let len = bytes.len();
        if len < 18 {
            return Err(ParseError::Eof);
        }
        let chunk_type = match kind_from_code(read_u16_at(bytes, 16)) {
            Some(k) => k,
            None => { return Err(ParseError::NoneOf); },
        };
        if len < 59 {
            return Err(ParseError::Eof);
        }
        let name_len = read_u32_at(bytes, 55);
        let item_count = read_u32_at(bytes, 47);
        let dep_count = read_u32_at(bytes, 51);
        if len - 59 < name_len as usize {
            return Err(ParseError::Eof);
        }
        let c0 = 59 + name_len as usize;
        if (len - c0) / 16 < item_count as usize {
            return Err(ParseError::Eof);
        }
        assert(c0 + 16 * item_count <= len) by (nonlinear_arith)
            requires (len - c0) / 16 >= item_count, c0 <= len;
        let d0 = c0 + 16 * item_count as usize;
        if (len - d0) / 16 < dep_count as usize {
            return Err(ParseError::Eof);
        }
        assert(d0 + 16 * dep_count <= len) by (nonlinear_arith)
            requires (len - d0) / 16 >= dep_count, d0 <= len;
        let end = d0 + 16 * dep_count as usize;
        let text = &bytes[55..len];
        proof {
            assert(text@.subrange(0, 4) =~= bytes@.subrange(55, 59));
            assert(text@.subrange(4, 4 + name_len as int) =~= bytes@.subrange(59, c0 as int));
        }
        let name = match parse_string(text) {
            Ok((_, s)) => s,
            Err(e) => {
                proof { assert(false); }
                return Err(e);
            },
        };
        let flag = bytes[30];
        let row = IndexRow {
            id: parse_uuid_at(bytes, 0),
            chunk_type,
            chunk_offset: read_u64_at(bytes, 18),
            chunk_size: read_u32_at(bytes, 26),
            display: flag & 1 != 0,
            locked: flag & 2 != 0,
            folded: flag & 4 != 0,
            position: Vec2 { x: read_u32_at(bytes, 31), y: read_u32_at(bytes, 35) },
            size: Extent2 { w: read_u32_at(bytes, 39), h: read_u32_at(bytes, 43) },
            name,
            children: parse_uuids(bytes, c0, item_count),
            dependencies: parse_uuids(bytes, d0, dep_count),
        };
        Ok((&bytes[end..len], row))
    }
}

impl Write for IndexRow {
    open spec fn written(&self) -> Seq<u8> {
        row_bytes(self@)
    }

    /// Serialize; gives back the number of bytes written. The name's byte
    /// length and the two list lengths are stored as 32-bit numbers.
    fn write(&self, out: &mut Vec<u8>) -> (r: usize) {
        proof {
            lemma_auto_spec_u16_to_from_le_bytes();
            lemma_auto_spec_u64_to_from_le_bytes();
            lemma_auto_spec_u32_to_from_le_bytes();
            lemma_auto_spec_u128_to_from_le_bytes();
            lemma_uuids_bytes_len(self.children@);
            lemma_uuids_bytes_len(self.dependencies@);
        }
        let ghost start = out@;
        self.id.write(out);
        self.chunk_type.write(out);
        append(out, u64_to_le_bytes(self.chunk_offset));
        append(out, u32_to_le_bytes(self.chunk_size));
        let flag: u8 = (if self.display { 1u8 } else { 0u8 }) | (if self.locked { 2u8 } else { 0u8 })
            | (if self.folded { 4u8 } else { 0u8 });
        out.push(flag);
        self.position.write(out);
        self.size.write(out);
        append(out, u32_to_le_bytes(self.children.len() as u32));
        append(out, u32_to_le_bytes(self.dependencies.len() as u32));
        let ghost fixed = out@;
        assert(fixed =~= start + row_bytes(self@).subrange(0, 55));
        let b = self.name.write(out);
        write_uuids(&self.children, out);
        write_uuids(&self.dependencies, out);
        assert(out@ =~= start + row_bytes(self@));
        55 + b + 16 * self.children.len() + 16 * self.dependencies.len()
    }
}

/// The byte length of identifiers stored back to back.
proof fn lemma_uuids_bytes_len(us: Seq<Uuid>)
    ensures
        uuids_bytes(us).len() == 16 * us.len(),
    decreases us.len(),
{
    lemma_auto_spec_u128_to_from_le_bytes();
    if us.len() > 0 {
        lemma_uuids_bytes_len(us.drop_last());
    }
}

/// Identifiers read back from where they were stored.
proof fn lemma_uuids_read_back(s: Seq<u8>, at: int, us: Seq<Uuid>)
    requires
        0 <= at,
        at + 16 * us.len() <= s.len(),
        s.subrange(at, at + 16 * us.len()) == uuids_bytes(us),
    ensures
        uuids_at(s, at, us.len()) == us,
    decreases us.len(),
{
    lemma_auto_spec_u128_to_from_le_bytes();
    if us.len() > 0 {
        let m = us.len() - 1;
        let head = us.drop_last();
        lemma_uuids_bytes_len(head);
        assert(s.subrange(at, at + 16 * m) =~= uuids_bytes(us).subrange(0, 16 * m));
        assert(uuids_bytes(us).subrange(0, 16 * m) =~= uuids_bytes(head));
        lemma_uuids_read_back(s, at, head);
        let whole = s.subrange(at, at + 16 * us.len());
        assert(whole.subrange(16 * m, 16 * m + 16) =~= uuid_bytes(us.last()));
        assert(s.subrange(at + 16 * m, at + 16 * m + 16) =~= whole.subrange(16 * m, 16 * m + 16));
        assert(u128_at(s, at + 16 * m) == us.last().value);
        assert forall|k: int| 0 <= k < us.len() implies #[trigger] uuids_at(s, at, us.len())[k] == us[k] by {
            if k < m {
                assert(uuids_at(s, at, head.len())[k] == head[k]);
            }
        }
        assert(uuids_at(s, at, us.len()) =~= us);
    }
}

/// The flags byte gives back each flag.
proof fn lemma_flag_byte(display: bool, locked: bool, folded: bool)
    ensures
        (flag_byte(display, locked, folded) & 1 != 0) == display,
        (flag_byte(display, locked, folded) & 2 != 0) == locked,
        (flag_byte(display, locked, folded) & 4 != 0) == folded,
{
    let d: u8 = if display { 1u8 } else { 0u8 };
    let l: u8 = if locked { 2u8 } else { 0u8 };
    let f: u8 = if folded { 4u8 } else { 0u8 };
    assert(((d | l | f) & 1 != 0) == (d == 1) && ((d | l | f) & 2 != 0) == (l == 2)
        && ((d | l | f) & 4 != 0) == (f == 4)) by (bit_vector)
        requires
            d == 0 || d == 1,
            l == 0 || l == 2,
            f == 0 || f == 4;
}

/// What a row reads back as, when the name's byte length and both list
/// lengths fit their 32-bit prefixes.
pub proof fn lemma_row_roundtrip(r: IndexRowView, rest: Seq<u8>)
    requires
        encode_utf8(r.name).len() <= u32::MAX,
        r.children.len() <= u32::MAX,
        r.dependencies.len() <= u32::MAX,
    ensures
        row_utf8_ok(row_bytes(r) + rest),
        row_parse(row_bytes(r) + rest) == Ok::<(nat, IndexRowView), ParseError>(
            (row_bytes(r).len(), r),
        ),
{
    lemma_auto_spec_u16_to_from_le_bytes();
    lemma_auto_spec_u32_to_from_le_bytes();
    lemma_auto_spec_u64_to_from_le_bytes();
    lemma_auto_spec_u128_to_from_le_bytes();
    encode_utf8_valid_utf8(r.name);
    encode_utf8_decode_utf8(r.name);
    lemma_uuids_bytes_len(r.children);
    lemma_uuids_bytes_len(r.dependencies);
    lemma_flag_byte(r.display, r.locked, r.folded);
    let e = encode_utf8(r.name);
    let s = row_bytes(r) + rest;
    let c0: int = 59 + e.len() as int;
    let d0: int = c0 + 16 * r.children.len();
    assert(s.subrange(0, 16) =~= uuid_bytes(r.id));
    assert(s.subrange(16, 18) =~= kind_bytes(r.chunk_type));
    assert(s.subrange(18, 26) =~= spec_u64_to_le_bytes(r.chunk_offset));
    assert(s.subrange(26, 30) =~= spec_u32_to_le_bytes(r.chunk_size));
    assert(s[30] == flag_byte(r.display, r.locked, r.folded));
    assert(s.subrange(31, 35) =~= spec_u32_to_le_bytes(r.position.x));
    assert(s.subrange(35, 39) =~= spec_u32_to_le_bytes(r.position.y));
    assert(s.subrange(39, 43) =~= spec_u32_to_le_bytes(r.size.w));
    assert(s.subrange(43, 47) =~= spec_u32_to_le_bytes(r.size.h));
    assert(s.subrange(47, 51) =~= spec_u32_to_le_bytes(r.children.len() as u32));
    assert(s.subrange(51, 55) =~= spec_u32_to_le_bytes(r.dependencies.len() as u32));
    assert(s.subrange(55, 59) =~= spec_u32_to_le_bytes(e.len() as u32));
    assert(s.subrange(59, c0) =~= e);
    assert(s.subrange(c0, d0) =~= uuids_bytes(r.children));
    assert(s.subrange(d0, d0 + 16 * r.dependencies.len()) =~= uuids_bytes(r.dependencies));
    lemma_uuids_read_back(s, c0, r.children);
    lemma_uuids_read_back(s, d0, r.dependencies);
    assert(kind_of(kind_code(r.chunk_type)) == Some(r.chunk_type));
}

} // verus!