//! The partition-table document file: a header, then revisions, each made
//! of its nodes' rows and the table record last. Notes and groups take no
//! chunk bytes; their rows say where they were written.
use vstd::prelude::*;
use vstd::bytes::*;
use std::collections::HashMap;
use crate::document::document::{DocumentNode, DocumentModel, NoteModel, GroupModel, Node, doc_view, docs_view, model_id, lemma_docs_view_index};
use crate::document::group::Group;
use crate::document::math::{Extent2, Uuid};
use crate::document::note::Note;
use crate::document::part::{
    ChunkType, PartitionTable, PartitionTableRow, PartRowView, rows_view, rows_bytes, rows_count,
    rows_parse, rows_ok, table_bytes, table_parse, part_row_fits, rows_from_bytes,
    lemma_rows_len, lemma_rows_written, lemma_rows_roundtrip, lemma_table_roundtrip,
};
use crate::document::parser::{Header, ParseError, header_parse, header_bytes, lemma_header_roundtrip};
use crate::document::writer::Writer;

verus! {

/// A revision of a partition-table file: the header, the table record,
/// the rows, and the row of each node identifier.
#[derive(Debug)]
pub struct File {
    pub header: Header,
    pub table: PartitionTable,
    pub rows: Vec<PartitionTableRow>,
    pub chunks: HashMap<u128, usize>,
}

/// Each identifier in `chunks` names a row that exists.
pub open spec fn chunks_valid(rows_len: nat, chunks: Map<u128, usize>) -> bool {
    forall|k: u128| #[trigger] chunks.contains_key(k) ==> chunks[k] < rows_len
}

/// The row a note writes at `offset`.
pub open spec fn note_row(n: NoteModel, offset: u64) -> PartRowView {
    PartRowView {
        id: n.id,
        chunk_type: ChunkType::Note,
        chunk_offset: offset,
        chunk_size: 0,
        position: n.position,
        size: Extent2 { w: 0, h: 0 },
        name: n.note,
        children: Seq::empty(),
        preview: Seq::empty(),
    }
}

/// The row a group writes at `offset`, once its children have rows: each
/// child is named by its row's place, in 32 bits.
pub open spec fn group_row(g: GroupModel, offset: u64, chunks: Map<u128, usize>) -> PartRowView {
    PartRowView {
        id: g.id,
        chunk_type: ChunkType::Group,
        chunk_offset: offset,
        chunk_size: 0,
        position: g.position,
        size: Extent2 { w: 0, h: 0 },
        name: g.name,
        children: Seq::new(g.children.len(), |i: int| chunks[model_id(g.children[i]).value] as u32),
        preview: Seq::empty(),
    }
}

/// A node's row put in: a node that has a row gets that row pointed at
/// `offset` with a zero size; a node without one gets `fresh` after the
/// others.
pub open spec fn placed(st: (Seq<PartRowView>, Map<u128, usize>), id: u128, fresh: PartRowView, offset: u64) -> (Seq<PartRowView>, Map<u128, usize>) {
    let (rows, chunks) = st;
    if chunks.contains_key(id) {
        let i = chunks[id] as int;
        (rows.update(i, PartRowView { chunk_offset: offset, chunk_size: 0, ..rows[i] }), chunks)
    } else {
        (rows.push(fresh), chunks.insert(id, rows.len() as usize))
    }
}

/// What writing a node does to the rows and the identifier map: a group
/// writes its children first, in order, then itself.
pub open spec fn doc_write(st: (Seq<PartRowView>, Map<u128, usize>), d: DocumentModel, offset: u64) -> (Seq<PartRowView>, Map<u128, usize>)
    decreases d,
{
    match d {
        DocumentModel::Note(n) => placed(st, n.id.value, note_row(n, offset), offset),
        DocumentModel::Group(g) => {
            let st1 = docs_write(st, g.children, offset);
            placed(st1, g.id.value, group_row(g, offset, st1.1), offset)
        },
    }
}

pub open spec fn docs_write(st: (Seq<PartRowView>, Map<u128, usize>), cs: Seq<DocumentModel>, offset: u64) -> (Seq<PartRowView>, Map<u128, usize>)
    decreases cs,
{
    if cs.len() == 0 {
        st
    } else {
        doc_write(docs_write(st, cs.subrange(0, cs.len() - 1), offset), cs[cs.len() - 1], offset)
    }
}

/// The number of nodes in a tree.
pub open spec fn doc_count(d: DocumentModel) -> nat
    decreases d,
{
    match d {
        DocumentModel::Note(_) => 1,
        DocumentModel::Group(g) => 1 + docs_count(g.children),
    }
}

/// The number of nodes in some trees.
pub open spec fn docs_count(cs: Seq<DocumentModel>) -> nat
    decreases cs,
{
    if cs.len() == 0 {
        0
    } else {
        docs_count(cs.subrange(0, cs.len() - 1)) + doc_count(cs[cs.len() - 1])
    }
}

/// Writing keeps the identifiers already mapped, maps the written node's,
/// keeps the map pointing at rows, and adds at most one row per node.
proof fn lemma_write_keys(st: (Seq<PartRowView>, Map<u128, usize>), d: DocumentModel, offset: u64)
    requires
        chunks_valid(st.0.len(), st.1),
        st.0.len() + doc_count(d) <= usize::MAX,
    ensures
        doc_write(st, d, offset).1.contains_key(model_id(d).value),
        forall|k: u128| st.1.contains_key(k) ==> #[trigger] doc_write(st, d, offset).1.contains_key(k),
        chunks_valid(doc_write(st, d, offset).0.len(), doc_write(st, d, offset).1),
        st.0.len() <= doc_write(st, d, offset).0.len() <= st.0.len() + doc_count(d),
    decreases d,
{
    match d {
        DocumentModel::Note(n) => {},
        DocumentModel::Group(g) => {
            lemma_docs_write_keys(st, g.children, offset);
        },
    }
}

proof fn lemma_docs_write_keys(st: (Seq<PartRowView>, Map<u128, usize>), cs: Seq<DocumentModel>, offset: u64)
    requires
        chunks_valid(st.0.len(), st.1),
        st.0.len() + docs_count(cs) <= usize::MAX,
    ensures
        forall|i: int| 0 <= i < cs.len() ==> #[trigger] docs_write(st, cs, offset).1.contains_key(model_id(cs[i]).value),
        forall|k: u128| st.1.contains_key(k) ==> #[trigger] docs_write(st, cs, offset).1.contains_key(k),
        chunks_valid(docs_write(st, cs, offset).0.len(), docs_write(st, cs, offset).1),
        st.0.len() <= docs_write(st, cs, offset).0.len() <= st.0.len() + docs_count(cs),
    decreases cs,
{
    if cs.len() > 0 {
        let head = cs.subrange(0, cs.len() - 1);
        lemma_docs_write_keys(st, head, offset);
        let st1 = docs_write(st, head, offset);
        lemma_write_keys(st1, cs[cs.len() - 1], offset);
        assert forall|i: int| 0 <= i < cs.len() implies #[trigger] docs_write(st, cs, offset).1.contains_key(model_id(cs[i]).value) by {
            if i < cs.len() - 1 {
                assert(head[i] == cs[i]);
                assert(st1.1.contains_key(model_id(head[i]).value));
            }
        }
    }
}

proof fn lemma_docs_count_prefix(cs: Seq<DocumentModel>, k: int)
    requires
        0 <= k <= cs.len(),
    ensures
        docs_count(cs.subrange(0, k)) <= docs_count(cs),
    decreases cs.len() - k,
{
    if k < cs.len() {
        lemma_docs_count_prefix(cs, k + 1);
        assert(cs.subrange(0, k + 1).subrange(0, k) =~= cs.subrange(0, k));
    } else {
        assert(cs.subrange(0, k) =~= cs);
    }
}

/// Point the row at `i` at `offset`, with a zero size.
fn point_row(file: &mut File, i: usize, offset: u64)
    requires
        i < old(file).rows@.len(),
    ensures
        rows_view(final(file).rows@) == rows_view(old(file).rows@).update(
            i as int,
            PartRowView { chunk_offset: offset, chunk_size: 0, ..old(file).rows@[i as int]@ },
        ),
        final(file).chunks@ == old(file).chunks@,
        final(file).header == old(file).header,
        final(file).table == old(file).table,
{
    let mut row = file.rows.remove(i);
    row.chunk_offset = offset;
    row.chunk_size = 0;
    file.rows.insert(i, row);
    assert(rows_view(file.rows@) =~= rows_view(old(file).rows@).update(
        i as int,
        PartRowView { chunk_offset: offset, chunk_size: 0, ..old(file).rows@[i as int]@ },
    ));
}

impl DocumentNode {
    /// Write the node's rows into the file's table, as from byte
    /// position `position`. Gives back the chunk bytes written: none.
    pub fn write(&self, file: &mut File, position: u64) -> (r: usize)
        requires
            chunks_valid(old(file).rows@.len(), old(file).chunks@),
            old(file).rows@.len() + doc_count(self@) <= usize::MAX,
        ensures
            (rows_view(final(file).rows@), final(file).chunks@)
                == doc_write((rows_view(old(file).rows@), old(file).chunks@), self@, position),
            final(file).header == old(file).header,
            final(file).table == old(file).table,
            r == 0,
        decreases self,
    {
        match self {
            DocumentNode::Note(n) => n.write(file, position),
            DocumentNode::Group(g) => g.write(file, position),
        }
    }
}

impl Note {
    /// Write the note's row into the file's table, as from byte position
    /// `position`: the row it has, pointed there, or a new row. Gives
    /// back the chunk bytes written: none.
    pub fn write(&self, file: &mut File, position: u64) -> (r: usize)
        requires
            chunks_valid(old(file).rows@.len(), old(file).chunks@),
            old(file).rows@.len() + 1 <= usize::MAX,
        ensures
            (rows_view(final(file).rows@), final(file).chunks@)
                == doc_write((rows_view(old(file).rows@), old(file).chunks@), DocumentModel::Note(self@), position),
            final(file).header == old(file).header,
            final(file).table == old(file).table,
            r == 0,
    {
        broadcast use vstd::std_specs::hash::group_hash_axioms;
        match file.chunks.get(&self.id.value) {
            Some(i) => {
                let i = *i;
                point_row(file, i, position);
            },
            None => {
                let row = PartitionTableRow {
                    id: self.id,
                    chunk_type: ChunkType::Note,
                    chunk_offset: position,
                    chunk_size: 0,
                    position: self.position,
                    size: Extent2 { w: 0, h: 0 },
                    name: self.note.clone(),
                    children: Vec::new(),
                    preview: Vec::new(),
                };
                let n = file.rows.len();
                file.chunks.insert(self.id.value, n);
                file.rows.push(row);
                assert(rows_view(file.rows@) =~= rows_view(old(file).rows@).push(note_row(self@, position)));
            },
        }
        0
    }
}

impl Group {
    /// Write the group's children, in order, then the group's row, into
    /// the file's table, as from byte position `position`. A new row names
    /// each child by its row's place. Gives back the chunk bytes written:
    /// none.
    pub fn write(&self, file: &mut File, position: u64) -> (r: usize)
        requires
            chunks_valid(old(file).rows@.len(), old(file).chunks@),
            old(file).rows@.len() + doc_count(DocumentModel::Group(self@)) <= usize::MAX,
        ensures
            (rows_view(final(file).rows@), final(file).chunks@)
                == doc_write((rows_view(old(file).rows@), old(file).chunks@), DocumentModel::Group(self@), position),
            final(file).header == old(file).header,
            final(file).table == old(file).table,
            r == 0,
        decreases self,
    {
        let ghost st0 = (rows_view(file.rows@), file.chunks@);
        let ghost cs = docs_view(self.children@);
        proof {
            lemma_docs_view_index(self.children@);
            lemma_docs_count_prefix(cs, cs.len() as int);
        }
        let mut size: usize = 0;
        let mut k: usize = 0;
        while k < self.children.len()
            invariant
                k <= self.children@.len(),
                cs == docs_view(self.children@),
                cs.len() == self.children@.len(),
                forall|i: int| 0 <= i < self.children@.len() ==> #[trigger] cs[i] == self.children@[i]@,
                st0.0.len() + docs_count(cs) + 1 <= usize::MAX,
                chunks_valid(st0.0.len(), st0.1),
                (rows_view(file.rows@), file.chunks@) == docs_write(st0, cs.subrange(0, k as int), position),
                chunks_valid(file.rows@.len(), file.chunks@),
                file.rows@.len() <= st0.0.len() + docs_count(cs.subrange(0, k as int)),
                file.header == old(file).header,
                file.table == old(file).table,
                size == 0,
            decreases self.children@.len() - k,
        {
            proof {
                assert(cs.subrange(0, k + 1).subrange(0, k as int) =~= cs.subrange(0, k as int));
                assert(cs.subrange(0, k + 1)[k as int] == cs[k as int]);
                lemma_docs_count_prefix(cs, k as int + 1);
                lemma_write_keys((rows_view(file.rows@), file.chunks@), cs[k as int], position);
            }
            let n = self.children[k].write(file, position);
            size = size + n;
            k = k + 1;
        }
        proof {
            assert(cs.subrange(0, cs.len() as int) =~= cs);
            lemma_docs_write_keys(st0, cs, position);
        }
        broadcast use vstd::std_specs::hash::group_hash_axioms;
        match file.chunks.get(&self.id.value) {
            Some(i) => {
                let i = *i;
                point_row(file, i, position);
            },
            None => {
                let mut children: Vec<u32> = Vec::new();
                let mut j: usize = 0;
                while j < self.children.len()
                    invariant
                        j <= self.children@.len(),
                        cs == docs_view(self.children@),
                        cs.len() == self.children@.len(),
                        forall|i: int| 0 <= i < self.children@.len() ==> #[trigger] cs[i] == self.children@[i]@,
                        forall|i: int| 0 <= i < cs.len() ==> #[trigger] file.chunks@.contains_key(model_id(cs[i]).value),
                        children@ == Seq::new(j as nat, |i: int| file.chunks@[model_id(cs[i]).value] as u32),
                    decreases self.children@.len() - j,
                {
                    let id = self.children[j].id();
                    assert(file.chunks@.contains_key(model_id(cs[j as int]).value));
                    let place = *file.chunks.get(&id.value).unwrap();
                    children.push(place as u32);
                    j = j + 1;
                    assert(children@ =~= Seq::new(j as nat, |i: int| file.chunks@[model_id(cs[i]).value] as u32));
                }
                let row = PartitionTableRow {
                    id: self.id,
                    chunk_type: ChunkType::Group,
                    chunk_offset: position,
                    chunk_size: 0,
                    position: self.position,
                    size: Extent2 { w: 0, h: 0 },
                    name: self.name.clone(),
                    children,
                    preview: Vec::new(),
                };
                let n = file.rows.len();
                file.chunks.insert(self.id.value, n);
                file.rows.push(row);
            },
        }
        size
    }
}

/// Why reading a partition-table file failed.
#[derive(Debug, Clone, Copy, PartialEq, Eq, Structural)]
pub enum Error {
    Unknown,
    VersionNotSupported,
    NodeNotSupported,
    ParseError(ParseError),
}

impl Error {
    /// What went wrong, in words.
    pub fn to_string(&self) -> (r: String)
        ensures
            r@ == match *self {
                Error::Unknown => "Unknown error."@,
                Error::VersionNotSupported => "Version not supported."@,
                Error::NodeNotSupported => "Node not supported."@,
                Error::ParseError(_) => "Could not parse the file."@,
            },
    {
        match self {
            Error::Unknown => "Unknown error.".to_owned(),
            Error::VersionNotSupported => "Version not supported.".to_owned(),
            Error::NodeNotSupported => "Node not supported.".to_owned(),
            Error::ParseError(_) => "Could not parse the file.".to_owned(),
        }
    }
}

/// The first five bytes of a file, with zeros for those it lacks.
pub open spec fn head_of(file: Seq<u8>) -> Seq<u8> {
    Seq::new(5, |i: int| if i < file.len() { file[i] } else { 0u8 })
}

/// The row of each identifier: the last row that has it.
pub open spec fn part_row_index(rows: Seq<PartRowView>) -> Map<u128, usize>
    decreases rows.len(),
{
    if rows.len() == 0 {
        Map::empty()
    } else {
        part_row_index(rows.drop_last()).insert(rows.last().id.value, (rows.len() - 1) as usize)
    }
}

/// What a file's bytes read as: the header from the first five bytes (read
/// as zeros where the file is shorter), the table record from the last 20
/// bytes, and the rows from the `size` bytes before it.
pub open spec fn from_spec(file: Seq<u8>) -> Result<(Header, PartitionTable, Seq<PartRowView>), Error> {
    match header_parse(head_of(file)) {
        Err(e) => Err(Error::ParseError(e)),
        Ok((_, header)) => if file.len() < 20 {
            Err(Error::Unknown)
        } else {
            let table = table_parse(file.subrange(file.len() - 20, file.len() as int))->Ok_0.1;
            if table.size == 0 {
                Ok((header, table, seq![]))
            } else if table.size > file.len() - 20 {
                Err(Error::Unknown)
            } else {
                Ok((header, table, rows_parse(file.subrange(file.len() - 20 - table.size, file.len() - 20)).1))
            }
        },
    }
}

/// Reading the file does not panic: a header reached with a table record
/// after it is of version 0, and the rows a record counts read without a
/// panic.
pub open spec fn from_ok(file: Seq<u8>) -> bool {
    match header_parse(head_of(file)) {
        Err(_) => true,
        Ok((_, header)) => file.len() >= 20 ==> {
            let table = table_parse(file.subrange(file.len() - 20, file.len() as int))->Ok_0.1;
            &&& header.version == 0
            &&& (table.size != 0 && table.size <= file.len() - 20) ==> rows_ok(
                file.subrange(file.len() - 20 - table.size, file.len() - 20),
            )
        },
    }
}

fn build_part_index(rows: &Vec<PartitionTableRow>) -> (r: HashMap<u128, usize>)
    ensures
        r@ == part_row_index(rows_view(rows@)),
{
    broadcast use vstd::std_specs::hash::group_hash_axioms;
    let mut index: HashMap<u128, usize> = HashMap::new();
    let mut i: usize = 0;
    while i < rows.len()
        invariant
            i <= rows@.len(),
            index@ == part_row_index(rows_view(rows@).subrange(0, i as int)),
        decreases rows@.len() - i,
    {
        proof {
            let all = rows_view(rows@);
            assert(all.subrange(0, i + 1).drop_last() =~= all.subrange(0, i as int));
            assert(all.subrange(0, i + 1).last() == rows@[i as int]@);
        }
        index.insert(rows[i].id.value, i);
        i = i + 1;
    }
    assert(rows_view(rows@).subrange(0, rows@.len() as int) =~= rows_view(rows@));
    index
}

/// What writing a node of any kind does: an unknown node writes nothing.
pub open spec fn node_write(st: (Seq<PartRowView>, Map<u128, usize>), n: Node, offset: u64) -> (Seq<PartRowView>, Map<u128, usize>) {
    match n {
        Node::Unknown => st,
        Node::Group(g) => doc_write(st, DocumentModel::Group(g@), offset),
        Node::Note(x) => doc_write(st, DocumentModel::Note(x@), offset),
    }
}

pub open spec fn node_count(n: Node) -> nat {
    match n {
        Node::Unknown => 0,
        Node::Group(g) => doc_count(DocumentModel::Group(g@)),
        Node::Note(x) => 1,
    }
}

/// No row is of the chunk type that has no stored number.
pub open spec fn rows_storable(rows: Seq<PartRowView>) -> bool {
    forall|i: int| 0 <= i < rows.len() ==> #[trigger] rows[i].chunk_type != ChunkType::CanvasRGB
}

proof fn lemma_write_storable(st: (Seq<PartRowView>, Map<u128, usize>), d: DocumentModel, offset: u64)
    requires
        rows_storable(st.0),
        chunks_valid(st.0.len(), st.1),
    ensures
        rows_storable(doc_write(st, d, offset).0),
    decreases d,
{
    match d {
        DocumentModel::Note(_) => {},
        DocumentModel::Group(g) => {
            lemma_docs_write_storable(st, g.children, offset);
        },
    }
}

proof fn lemma_docs_write_storable(st: (Seq<PartRowView>, Map<u128, usize>), cs: Seq<DocumentModel>, offset: u64)
    requires
        rows_storable(st.0),
        chunks_valid(st.0.len(), st.1),
    ensures
        rows_storable(docs_write(st, cs, offset).0),
        chunks_valid(docs_write(st, cs, offset).0.len(), docs_write(st, cs, offset).1),
    decreases cs,
{
    if cs.len() > 0 {
        let head = cs.subrange(0, cs.len() - 1);
        lemma_docs_write_storable(st, head, offset);
        lemma_write_storable(docs_write(st, head, offset), cs[cs.len() - 1], offset);
        lemma_write_valid(docs_write(st, head, offset), cs[cs.len() - 1], offset);
    }
}

/// Writing keeps the map pointing at rows.
proof fn lemma_write_valid(st: (Seq<PartRowView>, Map<u128, usize>), d: DocumentModel, offset: u64)
    requires
        chunks_valid(st.0.len(), st.1),
    ensures
        chunks_valid(doc_write(st, d, offset).0.len(), doc_write(st, d, offset).1),
    decreases d,
{
    match d {
        DocumentModel::Note(_) => {},
        DocumentModel::Group(g) => {
            lemma_docs_write_storable_valid(st, g.children, offset);
        },
    }
}

proof fn lemma_docs_write_storable_valid(st: (Seq<PartRowView>, Map<u128, usize>), cs: Seq<DocumentModel>, offset: u64)
    requires
        chunks_valid(st.0.len(), st.1),
    ensures
        chunks_valid(docs_write(st, cs, offset).0.len(), docs_write(st, cs, offset).1),
    decreases cs,
{
    if cs.len() > 0 {
        let head = cs.subrange(0, cs.len() - 1);
        lemma_docs_write_storable_valid(st, head, offset);
        lemma_write_valid(docs_write(st, head, offset), cs[cs.len() - 1], offset);
    }
}

impl Node {
    /// Write the node's rows into the file's table, as from byte position
    /// `position`; an unknown node has nothing to write. Gives back the
    /// chunk bytes written: none.
    pub fn write(&self, file: &mut File, position: u64) -> (r: usize)
        requires
            chunks_valid(old(file).rows@.len(), old(file).chunks@),
            old(file).rows@.len() + node_count(*self) <= usize::MAX,
        ensures
            (rows_view(final(file).rows@), final(file).chunks@)
                == node_write((rows_view(old(file).rows@), old(file).chunks@), *self, position),
            final(file).header == old(file).header,
            final(file).table == old(file).table,
            r == 0,
    {
        match self {
            Node::Unknown => 0,
            Node::Group(g) => g.write(file, position),
            Node::Note(n) => n.write(file, position),
        }
    }
}

impl File {
    /// Read a file's bytes: the header, the last table record, and the
    /// rows before it.
    pub fn from(file: &[u8]) -> (r: Result<File, Error>)
        requires
            from_ok(file@),
        ensures
            match from_spec(file@) {
                Ok((h, t, rows)) => r matches Ok(f) && f.header == h && f.table == t
                    && rows_view(f.rows@) == rows && f.chunks@ == part_row_index(rows),
                Err(e) => r == Err::<File, Error>(e),
            },
    {
        let len = file.len();
        let mut head: Vec<u8> = Vec::new();
        let mut i: usize = 0;
        while i < 5
            invariant
                i <= 5,
                len == file@.len(),
                head@ == head_of(file@).subrange(0, i as int),
            decreases 5 - i,
        {
            if i < len {
                head.push(file[i]);
            } else {
                head.push(0);
            }
            i = i + 1;
            assert(head@ =~= head_of(file@).subrange(0, i as int));
        }
        assert(head@ =~= head_of(file@));
        let header = match Header::parse(head.as_slice()) {
            Ok((_, h)) => h,
            Err(e) => { return Err(Error::ParseError(e)); },
        };
        if len < 20 {
            return Err(Error::Unknown);
        }
        let table = match PartitionTable::from_bytes(&file[len - 20..len]) {
            Ok((_, t)) => t,
            Err(e) => {
                proof { assert(false); }
                return Err(Error::ParseError(e));
            },
        };
        let rows = if table.size == 0 {
            Vec::new()
        } else if table.size as usize > len - 20 {
            return Err(Error::Unknown);
        } else {
            let start = len - 20 - table.size as usize;
            let (_, rows) = rows_from_bytes(&file[start..len - 20]);
            rows
        };
        proof {
            if table.size == 0 {
                assert(rows_view(rows@) =~= Seq::<PartRowView>::empty());
            }
        }
        let chunks = build_part_index(&rows);
        Ok(File { header, table, rows, chunks })
    }

    /// Append a revision at the end of `out`: the node's rows go into the
    /// table, then all rows and the table record, whose size becomes the
    /// rows' byte count, are written. Gives back the node's chunk bytes
    /// (none), plus the rows' count, plus 5.
    pub fn append(&mut self, node: &Node, out: &mut Vec<u8>) -> (r: Result<usize, Error>)
        requires
            chunks_valid(old(self).rows@.len(), old(self).chunks@),
            rows_storable(rows_view(old(self).rows@)),
            old(self).rows@.len() + node_count(*node) <= usize::MAX,
            old(out)@.len() + rows_count(node_write((rows_view(old(self).rows@), old(self).chunks@), *node, old(out)@.len() as u64).0) + 20 <= usize::MAX,
        ensures
            ({
                let st = node_write((rows_view(old(self).rows@), old(self).chunks@), *node, old(out)@.len() as u64);
                let table = PartitionTable { size: rows_count(st.0) as u32, ..old(self).table };
                &&& final(out)@ == old(out)@ + rows_bytes(st.0) + table_bytes(table)
                &&& r == Ok::<usize, Error>((rows_count(st.0) + 5) as usize)
                &&& final(self).header == old(self).header
                &&& final(self).table == table
                &&& rows_view(final(self).rows@) == st.0
                &&& final(self).chunks@ == st.1
            }),
    {
        let position = out.len() as u64;
        let ghost st0 = (rows_view(self.rows@), self.chunks@);
        let mut size = node.write(self, position);
        proof {
            match node {
                Node::Unknown => {},
                Node::Group(g) => { lemma_write_storable(st0, DocumentModel::Group(g@), position); },
                Node::Note(x) => { lemma_write_storable(st0, DocumentModel::Note(x@), position); },
            }
            lemma_rows_len(rows_view(self.rows@));
            assert(rows_storable(rows_view(self.rows@)));
            assert forall|i: int| 0 <= i < self.rows@.len() implies self.rows@[i].chunk_type != ChunkType::CanvasRGB by {
                assert(rows_view(self.rows@)[i] == self.rows@[i]@);
                assert(rows_view(self.rows@)[i].chunk_type != ChunkType::CanvasRGB);
            }
            lemma_rows_written(self.rows@);
        }
        let table_size = self.rows.write_to(out);
        self.table.size = table_size as u32;
        size = size + table_size;
        proof {
            lemma_rows_len(rows_view(self.rows@));
            vstd::bytes::lemma_auto_spec_u32_to_from_le_bytes();
            vstd::bytes::lemma_auto_spec_u128_to_from_le_bytes();
            assert(self.table.written_bytes().len() == 20);
        }
        let m = self.table.write_to(out);
        Ok(size + m)
    }
}

/// A revision appended to a file reads back: with a version-0 header in
/// the file's first five bytes and rows that fit the format, reading the
/// file gives back the header, the new table record and the rows.
pub proof fn lemma_appended_file_reads_back(old: Seq<u8>, header: Header, table: PartitionTable, rows: Seq<PartRowView>)
    requires
        header.version == 0,
        old.len() >= 5,
        old.subrange(0, 5) == header_bytes(header),
        forall|i: int| 0 <= i < rows.len() ==> part_row_fits(#[trigger] rows[i]),
        rows_count(rows) <= u32::MAX,
    ensures
        ({
            let t = PartitionTable { size: rows_count(rows) as u32, ..table };
            let f = old + rows_bytes(rows) + table_bytes(t);
            &&& from_ok(f)
            &&& from_spec(f) == Ok::<(Header, PartitionTable, Seq<PartRowView>), Error>((header, t, rows))
        }),
{
    let t = PartitionTable { size: rows_count(rows) as u32, ..table };
    let f = old + rows_bytes(rows) + table_bytes(t);
    lemma_auto_spec_u32_to_from_le_bytes();
    lemma_auto_spec_u128_to_from_le_bytes();
    lemma_rows_len(rows);
    lemma_header_roundtrip(header, Seq::empty());
    assert(header_bytes(header) + Seq::<u8>::empty() =~= header_bytes(header));
    assert(head_of(f) =~= header_bytes(header));
    lemma_table_roundtrip(t, Seq::empty());
    assert(table_bytes(t) + Seq::<u8>::empty() =~= table_bytes(t));
    assert(table_bytes(t).len() == 20);
    let n = rows_count(rows) as int;
    assert(f.subrange(f.len() - 20, f.len() as int) =~= table_bytes(t));
    assert(f.subrange(f.len() - 20 - n, f.len() - 20) =~= rows_bytes(rows));
    lemma_rows_roundtrip(rows);
    if n == 0 {
        if rows.len() > 0 {
            crate::document::part::lemma_part_row_len(rows[0]);
            assert(rows_bytes(rows).len() > 0);
        }
        assert(rows =~= Seq::<PartRowView>::empty());
    }
}

} // verus!
