//! A document file: a header, then revisions appended one after another.
//! Each revision holds its nodes' chunks, its index rows, and its index
//! record last.
use vstd::prelude::*;
use vstd::bytes::*;
use std::collections::BTreeMap;
use crate::document::math::{Uuid, new_v4};
use crate::document::node::{NodeType, NodeView, nodes_view, view_id, lemma_nodes_view_push};
use crate::document::node::chunk::{chunk_of_node, row_of_node, deps_of_node, node_parse};
use crate::document::parser::{
    Header, Index, IndexRow, IndexRowView, ParseError, Write, header_parse, index_parse,
    row_parse, row_utf8_ok, header_bytes, index_bytes, row_bytes, lemma_header_roundtrip,
    lemma_index_roundtrip, lemma_row_roundtrip,
};
use vstd::utf8::encode_utf8;

verus! {

broadcast use {vstd::std_specs::btree::group_btree_axioms, vstd::laws_cmp::group_laws_cmp};

/// Why reading a file failed.
#[derive(Debug, Clone, Copy, PartialEq, Eq, Structural)]
pub enum FileError {
    Unknown,
    Parse(ParseError),
    VersionNotSupported(u8),
    NodeNotFound(Uuid),
    NoPreviousVersionFound,
}

/// A revision of a document file: the header, the revision's index
/// record and rows, and the row of each node identifier.
#[derive(Debug)]
pub struct File {
    pub header: Header,
    pub index: Index,
    pub rows: Vec<IndexRow>,
    pub uuid_index: BTreeMap<u128, usize>,
    pub cache_node: BTreeMap<u128, NodeType>,
}

pub open spec fn rows_view(v: Seq<IndexRow>) -> Seq<IndexRowView> {
    Seq::new(v.len(), |i: int| v[i]@)
}

/// The row of each identifier: the last row that has it.
pub open spec fn row_index(rows: Seq<IndexRowView>) -> Map<u128, usize>
    decreases rows.len(),
{
    if rows.len() == 0 {
        Map::empty()
    } else {
        row_index(rows.drop_last()).insert(rows.last().id.value, (rows.len() - 1) as usize)
    }
}

/// Rows read one after another until one fails to read: the bytes they
/// took and the rows.
pub open spec fn index_rows_parse(s: Seq<u8>) -> (nat, Seq<IndexRowView>)
    decreases s.len(),
{
    match row_parse(s) {
        Ok((n, r)) => if 0 < n <= s.len() {
            let (m, rs) = index_rows_parse(s.skip(n as int));
            (n + m, seq![r] + rs)
        } else {
            (0, seq![])
        },
        Err(_) => (0, seq![]),
    }
}

/// Every row reached while reading rows one after another has a valid
/// UTF-8 name.
pub open spec fn index_rows_ok(s: Seq<u8>) -> bool
    decreases s.len(),
{
    &&& row_utf8_ok(s)
    &&& match row_parse(s) {
        Ok((n, _)) => (0 < n <= s.len()) ==> index_rows_ok(s.skip(n as int)),
        Err(_) => true,
    }
}

fn parse_index_rows(bytes: &[u8]) -> (r: Vec<IndexRow>)
    requires
        index_rows_ok(bytes@),
    ensures
        rows_view(r@) == index_rows_parse(bytes@).1,
{
    let mut cur = bytes;
    let mut out: Vec<IndexRow> = Vec::new();
    loop
        invariant
            index_rows_ok(cur@),
            index_rows_parse(bytes@).1 == rows_view(out@) + index_rows_parse(cur@).1,
        ensures
            index_rows_parse(bytes@).1 == rows_view(out@),
        decreases cur@.len(),
    {
        match IndexRow::parse(cur) {
            Ok((rest, row)) => {
                proof {
                    assert(rows_view(out@.push(row)) =~= rows_view(out@).push(row@));
                    assert(rows_view(out@).push(row@) + index_rows_parse(rest@).1
                        =~= rows_view(out@) + (seq![row@] + index_rows_parse(rest@).1));
                }
                out.push(row);
                cur = rest;
            },
            Err(_) => {
                proof {
                    assert(index_rows_parse(cur@).1 =~= Seq::<IndexRowView>::empty());
                    assert(rows_view(out@) + index_rows_parse(cur@).1 =~= rows_view(out@));
                }
                break;
            },
        }
    }
    out
}

/// The revision a file's bytes hold with its index record ending at
/// `position`: the header from the first five bytes, the index record from
/// the 44 bytes before `position`, and the rows from the `size` bytes
/// before the record.
pub open spec fn read_spec(file: Seq<u8>, position: int) -> Result<(Header, Index, Seq<IndexRowView>), FileError> {
    if file.len() < 5 {
        Err(FileError::Unknown)
    } else {
        match header_parse(file.subrange(0, 5)) {
            Err(e) => Err(FileError::Parse(e)),
            Ok((_, header)) => if position > file.len() {
                Err(FileError::Unknown)
            } else if header.version != 0 {
                Err(FileError::VersionNotSupported(header.version))
            } else {
                let index = index_parse(file.subrange(position - 44, position))->Ok_0.1;
                if index.size == 0 {
                    Ok((header, index, seq![]))
                } else {
                    Ok((header, index, index_rows_parse(file.subrange(position - 44 - index.size, position - 44)).1))
                }
            },
        }
    }
}

/// The file starts with a header of format version 0.
pub open spec fn header_v0(file: Seq<u8>) -> bool {
    file.len() >= 5 && match header_parse(file.subrange(0, 5)) {
        Ok((_, h)) => h.version == 0,
        Err(_) => false,
    }
}

/// Reading at `position` does not panic: the position leaves room for an
/// index record, and a record that is reached counts no more row bytes
/// than lie before it, whose rows have valid UTF-8 names.
pub open spec fn read_ok(file: Seq<u8>, position: int) -> bool {
    &&& position >= 44
    &&& (header_v0(file) && position <= file.len()) ==> {
            let index = index_parse(file.subrange(position - 44, position))->Ok_0.1;
            index.size != 0 ==> {
                &&& index.size <= position - 44
                &&& index_rows_ok(file.subrange(position - 44 - index.size, position - 44))
            }
        }
}

fn build_row_index(rows: &Vec<IndexRow>) -> (r: BTreeMap<u128, usize>)
    ensures
        r@ == row_index(rows_view(rows@)),
{
    let mut index: BTreeMap<u128, usize> = BTreeMap::new();
    let mut i: usize = 0;
    while i < rows.len()
        invariant
            i <= rows@.len(),
            index@ == row_index(rows_view(rows@).subrange(0, i as int)),
        decreases rows@.len() - i,
    {
        proof {
            let all = rows_view(rows@);
            assert(all.subrange(0, i + 1).drop_last() =~= all.subrange(0, i as int));
            assert(all.subrange(0, i + 1).last() == rows@[i as int]@);
        }
        index.insert(rows[i].id.value, i);
        i = i + 1;
    }
    assert(rows_view(rows@).subrange(0, rows@.len() as int) =~= rows_view(rows@));
    index
}

/// The number of nodes in a tree.
pub open spec fn tree_size(n: NodeView) -> nat
    decreases n,
{
    match n {
        NodeView::Group(g) => 1 + forest_size(g.children),
        _ => 1,
    }
}

/// The number of nodes in some trees.
pub open spec fn forest_size(s: Seq<NodeView>) -> nat
    decreases s,
{
    if s.len() == 0 {
        0
    } else {
        forest_size(s.subrange(0, s.len() - 1)) + tree_size(s[s.len() - 1])
    }
}

/// The size of two lists of trees together is the sum of their sizes.
pub proof fn lemma_forest_concat(a: Seq<NodeView>, b: Seq<NodeView>)
    ensures
        forest_size(a + b) == forest_size(a) + forest_size(b),
    decreases b.len(),
{
    if b.len() == 0 {
        assert(a + b =~= a);
    } else {
        let b0 = b.subrange(0, b.len() - 1);
        lemma_forest_concat(a, b0);
        assert((a + b).subrange(0, (a + b).len() - 1) =~= a + b0);
    }
}

/// What writing a stack of trees emits from byte position `at`: the last
/// tree's node first, its chunk and its row, then, with its children
/// pushed on the stack, the rest.
pub open spec fn emit(stack: Seq<NodeView>, at: int) -> (Seq<u8>, Seq<IndexRowView>)
    decreases forest_size(stack),
{
    if stack.len() == 0 {
        (seq![], seq![])
    } else {
        let n = stack.last();
        let c = chunk_of_node(n);
        proof {
            lemma_forest_concat(stack.drop_last(), deps_of_node(n));
            assert(stack.subrange(0, stack.len() - 1) =~= stack.drop_last());
            assert(forest_size(Seq::<NodeView>::empty()) == 0);
            assert(tree_size(n) == 1 + forest_size(deps_of_node(n)));
            assert(forest_size(stack) == forest_size(stack.drop_last()) + tree_size(n));
        }
        let (b, r) = emit(stack.drop_last() + deps_of_node(n), at + c.len());
        (c + b, seq![row_of_node(n, at as u64)] + r)
    }
}

/// Write a tree: the node, then the nodes it hands on, last handed on
/// first; chunks go to `out`, whose first byte lies at `base`, and rows to
/// `rows`. Gives back the sum of what the nodes' writes give back, 0.
fn write_tree(out: &mut Vec<u8>, base: u64, rows: &mut Vec<IndexRow>, node: &NodeType) -> (r: usize)
    requires
        base + old(out)@.len() + emit(seq![node@], base + old(out)@.len()).0.len() <= u64::MAX,
    ensures
        final(out)@ == old(out)@ + emit(seq![node@], base + old(out)@.len()).0,
        rows_view(final(rows)@) == rows_view(old(rows)@) + emit(seq![node@], base + old(out)@.len()).1,
        r == 0,
{
    let ghost out0 = out@;
    let ghost rows0 = rows_view(rows@);
    let ghost at0 = base + out@.len();
    let ghost total = emit(seq![node@], at0);
    proof {
        let st = seq![node@];
        assert(st.drop_last() + deps_of_node(node@) =~= deps_of_node(node@));
        assert(st.last() == node@);
    }
    let mut dependencies: Vec<NodeType> = Vec::new();
    let mut size = node.write_node(out, base, rows, &mut dependencies);
    proof {
        assert(nodes_view(Seq::<NodeType>::empty()) =~= Seq::<NodeView>::empty());
        assert(nodes_view(dependencies@) =~= deps_of_node(node@));
        assert(rows_view(rows@) =~= rows0.push(row_of_node(node@, at0 as u64)));
        assert(out@ + emit(nodes_view(dependencies@), base + out@.len()).0 =~= out0 + total.0);
        assert(rows_view(rows@) + emit(nodes_view(dependencies@), base + out@.len()).1 =~= rows0 + total.1);
    }
    while dependencies.len() > 0
        invariant
            size == 0,
            out0.len() + total.0.len() + base <= u64::MAX,
            out@ + emit(nodes_view(dependencies@), base + out@.len()).0 == out0 + total.0,
            rows_view(rows@) + emit(nodes_view(dependencies@), base + out@.len()).1 == rows0 + total.1,
        decreases forest_size(nodes_view(dependencies@)),
    {
        let ghost before = dependencies@;
        let ghost at = base + out@.len();
        let dep = dependencies.pop().unwrap();
        proof {
            assert(before.subrange(0, before.len() - 1) =~= dependencies@);
            assert(nodes_view(before) == nodes_view(dependencies@).push(dep@));
            let st = nodes_view(before);
            assert(st.last() == dep@);
            assert(st.drop_last() =~= nodes_view(dependencies@));
            lemma_forest_concat(nodes_view(dependencies@), deps_of_node(dep@));
            assert(forest_size(Seq::<NodeView>::empty()) == 0);
            assert(tree_size(dep@) == 1 + forest_size(deps_of_node(dep@)));
            assert(forest_size(st) == forest_size(st.drop_last()) + tree_size(dep@));
            let rest = emit(st.drop_last() + deps_of_node(dep@), at + chunk_of_node(dep@).len());
            assert(emit(st, at).0 == chunk_of_node(dep@) + rest.0);
            assert((out@ + emit(st, at).0).len() == out@.len() + emit(st, at).0.len());
        }
        let ghost out_before = out@;
        let ghost rows_before = rows_view(rows@);
        let n = dep.write_node(out, base, rows, &mut dependencies);
        proof {
            let rest = emit(nodes_view(dependencies@), base + out@.len());
            assert(rows_view(rows@) =~= rows_before.push(row_of_node(dep@, at as u64)));
            assert(out@ + rest.0 =~= out_before + (chunk_of_node(dep@) + rest.0));
            assert(rows_view(rows@) + rest.1 =~= rows_before + (seq![row_of_node(dep@, at as u64)] + rest.1));
        }
        size = size + n;
    }
    proof {
        assert(nodes_view(dependencies@) =~= Seq::<NodeView>::empty());
        assert(out@ + Seq::<u8>::empty() =~= out@);
        assert(rows_view(rows@) + Seq::<IndexRowView>::empty() =~= rows_view(rows@));
    }
    size
}

/// Rows stored one after another.
pub open spec fn index_rows_bytes(rs: Seq<IndexRowView>) -> Seq<u8>
    decreases rs.len(),
{
    if rs.len() == 0 {
        seq![]
    } else {
        index_rows_bytes(rs.drop_last()) + row_bytes(rs.last())
    }
}

proof fn lemma_index_rows_bytes_prefix(rs: Seq<IndexRowView>, k: int)
    requires
        0 <= k <= rs.len(),
    ensures
        index_rows_bytes(rs.subrange(0, k)).len() <= index_rows_bytes(rs).len(),
    decreases rs.len() - k,
{
    if k < rs.len() {
        lemma_index_rows_bytes_prefix(rs, k + 1);
        assert(rs.subrange(0, k + 1).drop_last() =~= rs.subrange(0, k));
    } else {
        assert(rs.subrange(0, k) =~= rs);
    }
}

/// `rows` with `r` in place of the first row with `r`'s identifier, or
/// with `r` after them when none has it.
pub open spec fn replace_or_push(rows: Seq<IndexRowView>, r: IndexRowView) -> Seq<IndexRowView> {
    if exists|i: int| 0 <= i < rows.len() && rows[i].id == r.id {
        let i = choose|i: int| 0 <= i < rows.len() && rows[i].id == r.id
            && forall|j: int| 0 <= j < i ==> rows[j].id != r.id;
        rows.update(i, r)
    } else {
        rows.push(r)
    }
}

/// `old` with each of `new` put in, in turn.
pub open spec fn merged(old: Seq<IndexRowView>, new: Seq<IndexRowView>) -> Seq<IndexRowView>
    decreases new.len(),
{
    if new.len() == 0 {
        old
    } else {
        replace_or_push(merged(old, new.drop_last()), new.last())
    }
}

/// The index record after rows were written: its row byte count becomes
/// that count's low 32 bits.
pub open spec fn index_after(i: Index, rows: Seq<IndexRowView>) -> Index {
    Index { size: index_rows_bytes(rows).len() as u32, ..i }
}

/// What writing a revision's rows and record emits.
pub open spec fn index_emit(i: Index, rows: Seq<IndexRowView>) -> Seq<u8> {
    index_rows_bytes(rows) + index_bytes(index_after(i, rows))
}

/// Bytes written over a file from its start: the new bytes, then whatever
/// lay past them.
pub open spec fn overwritten(old: Seq<u8>, w: Seq<u8>) -> Seq<u8> {
    if old.len() > w.len() {
        w + old.skip(w.len() as int)
    } else {
        w
    }
}

fn overwrite(out: &mut Vec<u8>, w: Vec<u8>)
    ensures
        final(out)@ == overwritten(old(out)@, w@),
{
    if w.len() >= out.len() {
        *out = w;
        return;
    }
    let mut result = w;
    let mut k: usize = result.len();
    let ghost w0 = result@;
    while k < out.len()
        invariant
            w0.len() <= k <= out@.len(),
            result@ == w0 + out@.subrange(w0.len() as int, k as int),
        decreases out@.len() - k,
    {
        result.push(out[k]);
        k = k + 1;
        assert(result@ =~= w0 + out@.subrange(w0.len() as int, k as int));
    }
    assert(out@.subrange(w0.len() as int, out@.len() as int) =~= out@.skip(w0.len() as int));
    *out = result;
}

/// The identifiers the row of `k` hands on: its dependencies, then its
/// children.
pub open spec fn succ(rows: Seq<IndexRowView>, index: Map<u128, usize>, k: u128) -> Seq<Uuid> {
    rows[index[k] as int].dependencies + rows[index[k] as int].children
}

/// `rank` goes down along what rows hand on: each identifier with a row
/// that a row hands on ranks below that row's identifier.
pub open spec fn ranked(rows: Seq<IndexRowView>, index: Map<u128, usize>, rank: spec_fn(u128) -> nat) -> bool {
    forall|k: u128, j: int|
        #![trigger succ(rows, index, k)[j], index.contains_key(k)]
        index.contains_key(k) && 0 <= j < succ(rows, index, k).len()
            && index.contains_key(succ(rows, index, k)[j].value)
            ==> rank(succ(rows, index, k)[j].value) < rank(k)
}

/// No row hands itself on, however far one follows what rows hand on.
pub open spec fn acyclic(rows: Seq<IndexRowView>, index: Map<u128, usize>) -> bool {
    exists|rank: spec_fn(u128) -> nat| ranked(rows, index, rank)
}

pub open spec fn some_rank(rows: Seq<IndexRowView>, index: Map<u128, usize>) -> spec_fn(u128) -> nat {
    choose|rank: spec_fn(u128) -> nat| ranked(rows, index, rank)
}

/// How many identifiers a walk from `k` pops.
pub open spec fn walk_weight(rows: Seq<IndexRowView>, index: Map<u128, usize>, rank: spec_fn(u128) -> nat, k: u128) -> nat
    decreases rank(k), succ(rows, index, k).len() + 1,
{
    if index.contains_key(k) {
        1 + walk_sum(rows, index, rank, k, succ(rows, index, k))
    } else {
        1
    }
}

/// How many identifiers walks from each of `ss` pop, each below `k`.
pub open spec fn walk_sum(rows: Seq<IndexRowView>, index: Map<u128, usize>, rank: spec_fn(u128) -> nat, k: u128, ss: Seq<Uuid>) -> nat
    decreases rank(k), ss.len(),
{
    if ss.len() == 0 {
        0
    } else {
        let s = ss.last().value;
        walk_sum(rows, index, rank, k, ss.drop_last()) + if index.contains_key(s) && rank(s) < rank(k) {
            walk_weight(rows, index, rank, s)
        } else {
            1
        }
    }
}

/// How many identifiers a walk from a queue pops.
pub open spec fn queue_weight(rows: Seq<IndexRowView>, index: Map<u128, usize>, rank: spec_fn(u128) -> nat, q: Seq<Uuid>) -> nat
    decreases q.len(),
{
    if q.len() == 0 {
        0
    } else {
        queue_weight(rows, index, rank, q.drop_last()) + walk_weight(rows, index, rank, q.last().value)
    }
}

/// The weight of two queues together is the sum of their weights.
pub proof fn lemma_queue_weight_concat(rows: Seq<IndexRowView>, index: Map<u128, usize>, rank: spec_fn(u128) -> nat, a: Seq<Uuid>, b: Seq<Uuid>)
    ensures
        queue_weight(rows, index, rank, a + b) == queue_weight(rows, index, rank, a) + queue_weight(rows, index, rank, b),
    decreases b.len(),
{
    if b.len() == 0 {
        assert(a + b =~= a);
    } else {
        lemma_queue_weight_concat(rows, index, rank, a, b.drop_last());
        assert((a + b).drop_last() =~= a + b.drop_last());
    }
}

/// Under a rank that goes down, the weights of what a row hands on sum to
/// one less than the row's weight.
pub proof fn lemma_walk_sum_queue(rows: Seq<IndexRowView>, index: Map<u128, usize>, rank: spec_fn(u128) -> nat, k: u128, ss: Seq<Uuid>)
    requires
        forall|j: int| 0 <= j < ss.len() && index.contains_key(ss[j].value) ==> rank(ss[j].value) < rank(k),
    ensures
        walk_sum(rows, index, rank, k, ss) == queue_weight(rows, index, rank, ss),
    decreases ss.len(),
{
    if ss.len() > 0 {
        lemma_walk_sum_queue(rows, index, rank, k, ss.drop_last());
    }
}

/// The rows a walk from a queue reaches, in the order it pops them: it
/// pops the last identifier; one with a row is reached, and what its row
/// hands on is pushed.
pub open spec fn walk(rows: Seq<IndexRowView>, index: Map<u128, usize>, rank: spec_fn(u128) -> nat, q: Seq<Uuid>) -> Seq<usize>
    decreases queue_weight(rows, index, rank, q),
    when ranked(rows, index, rank)
{
    if q.len() == 0 {
        seq![]
    } else {
        let x = q.last().value;
        let rest = q.drop_last();
        if index.contains_key(x) {
            proof {
                lemma_queue_weight_concat(rows, index, rank, rest, succ(rows, index, x));
                assert forall|j: int| 0 <= j < succ(rows, index, x).len() && index.contains_key(succ(rows, index, x)[j].value)
                    implies rank(succ(rows, index, x)[j].value) < rank(x) by {
                }
                lemma_walk_sum_queue(rows, index, rank, x, succ(rows, index, x));
            }
            seq![index[x]] + walk(rows, index, rank, rest + succ(rows, index, x))
        } else {
            walk(rows, index, rank, rest)
        }
    }
}

/// A cache of nodes as values.
pub open spec fn cache_view(m: Map<u128, NodeType>) -> Map<u128, NodeView> {
    m.map_values(|n: NodeType| n@)
}

/// Where reading reached rows got to: every row read, with the cache they
/// left; a failure, with the cache so far; or a row whose children or
/// dependencies are not all read, which reading cannot go past.
pub enum Walked {
    Done(Map<u128, NodeView>),
    Failed(FileError, Map<u128, NodeView>),
    Stuck,
}

/// The nodes `ids` name in a cache.
pub open spec fn cached(cache: Map<u128, NodeView>, ids: Seq<Uuid>) -> Seq<NodeView> {
    Seq::new(ids.len(), |j: int| cache[ids[j].value])
}

pub open spec fn all_cached(cache: Map<u128, NodeView>, ids: Seq<Uuid>) -> bool {
    forall|j: int| 0 <= j < ids.len() ==> #[trigger] cache.contains_key(ids[j].value)
}

/// Read the row at `i` into the cache: nothing to do when its node is
/// there; else its chunk's bytes must lie in the file, its children and
/// dependencies must be read, and the format version must be 0; a node
/// that parses goes into the cache.
pub open spec fn read_step(rows: Seq<IndexRowView>, file: Seq<u8>, version: u8, cache: Map<u128, NodeView>, i: usize) -> Walked {
    let row = rows[i as int];
    if cache.contains_key(row.id.value) {
        Walked::Done(cache)
    } else if row.chunk_offset > file.len() || file.len() - row.chunk_offset < row.chunk_size {
        Walked::Failed(FileError::Unknown, cache)
    } else if !all_cached(cache, row.children) || !all_cached(cache, row.dependencies) {
        Walked::Stuck
    } else if version != 0 {
        Walked::Failed(FileError::VersionNotSupported(version), cache)
    } else {
        match node_parse(row, cached(cache, row.children), file.subrange(row.chunk_offset as int, row.chunk_offset + row.chunk_size)) {
            Ok((_, n)) => Walked::Done(cache.insert(row.id.value, n)),
            Err(_) => Walked::Done(cache),
        }
    }
}

/// Read the rows at `order` into the cache, last first.
pub open spec fn read_walked(rows: Seq<IndexRowView>, file: Seq<u8>, version: u8, cache: Map<u128, NodeView>, order: Seq<usize>) -> Walked
    decreases order.len(),
{
    if order.len() == 0 {
        Walked::Done(cache)
    } else {
        match read_step(rows, file, version, cache, order.last()) {
            Walked::Done(c) => read_walked(rows, file, version, c, order.drop_last()),
            other => other,
        }
    }
}

/// The row of each identifier in `index` exists and has that identifier.
proof fn lemma_row_index_rows(rows: Seq<IndexRowView>)
    requires
        rows.len() <= usize::MAX,
    ensures
        forall|k: u128| #[trigger] row_index(rows).contains_key(k) ==> {
            &&& row_index(rows)[k] < rows.len()
            &&& rows[row_index(rows)[k] as int].id.value == k
        },
    decreases rows.len(),
{
    if rows.len() > 0 {
        let head = rows.drop_last();
        lemma_row_index_rows(head);
        assert forall|k: u128| #[trigger] row_index(rows).contains_key(k) implies {
            &&& row_index(rows)[k] < rows.len()
            &&& rows[row_index(rows)[k] as int].id.value == k
        } by {
            if k != rows.last().id.value {
                assert(row_index(head).contains_key(k));
                assert(rows[row_index(head)[k] as int] == head[row_index(head)[k] as int]);
            }
        }
    }
}

/// A walk reaches only rows that exist.
proof fn lemma_walk_in_rows(rows: Seq<IndexRowView>, rank: spec_fn(u128) -> nat, q: Seq<Uuid>)
    requires
        rows.len() <= usize::MAX,
        ranked(rows, row_index(rows), rank),
    ensures
        forall|j: int| 0 <= j < walk(rows, row_index(rows), rank, q).len() ==> #[trigger] walk(rows, row_index(rows), rank, q)[j] < rows.len(),
    decreases queue_weight(rows, row_index(rows), rank, q),
{
    let index = row_index(rows);
    lemma_row_index_rows(rows);
    if q.len() > 0 {
        let x = q.last().value;
        let rest = q.drop_last();
        if index.contains_key(x) {
            lemma_queue_weight_concat(rows, index, rank, rest, succ(rows, index, x));
            lemma_walk_sum_queue(rows, index, rank, x, succ(rows, index, x));
            lemma_walk_in_rows(rows, rank, rest + succ(rows, index, x));
            let w = walk(rows, index, rank, rest + succ(rows, index, x));
            assert(walk(rows, index, rank, q) == seq![index[x]] + w);
            assert(index[x] < rows.len());
            assert forall|j: int| 0 <= j < walk(rows, index, rank, q).len() implies #[trigger] walk(rows, index, rank, q)[j] < rows.len() by {
                if j > 0 {
                    assert(walk(rows, index, rank, q)[j] == w[j - 1]);
                }
            }
        } else {
            lemma_walk_in_rows(rows, rank, rest);
            assert(walk(rows, index, rank, q) == walk(rows, index, rank, rest));
        }
    }
}

/// Every node of a cache is keyed by its own identifier.
pub open spec fn cache_keyed(c: Map<u128, NodeView>) -> bool {
    forall|k: u128| #[trigger] c.contains_key(k) ==> view_id(c[k]).value == k
}

/// Each node of cache `c` is the node `c0` holds under the same key, or it
/// is keyed by its own identifier.
pub open spec fn grows_keyed(c0: Map<u128, NodeView>, c: Map<u128, NodeView>) -> bool {
    forall|k: u128| #[trigger] c.contains_key(k) ==>
        (c0.contains_key(k) && c[k] == c0[k]) || view_id(c[k]).value == k
}

/// The cache a read left, if it left one, grows `c0` only by nodes keyed
/// by their own identifiers.
pub open spec fn walked_grows(c0: Map<u128, NodeView>, w: Walked) -> bool {
    match w {
        Walked::Done(c) => grows_keyed(c0, c),
        Walked::Failed(_, c) => grows_keyed(c0, c),
        Walked::Stuck => true,
    }
}

/// Reading rows into a cache adds only nodes keyed by their own
/// identifiers: a node read from a row goes in under that row's
/// identifier, which is the node's own, and a cached node is never
/// replaced.
pub proof fn lemma_read_walked_grows(rows: Seq<IndexRowView>, file: Seq<u8>, version: u8, cache: Map<u128, NodeView>, order: Seq<usize>)
    requires
        forall|j: int| 0 <= j < order.len() ==> #[trigger] order[j] < rows.len(),
    ensures
        walked_grows(cache, read_walked(rows, file, version, cache, order)),
    decreases order.len(),
{
    if order.len() == 0 {
        assert(grows_keyed(cache, cache));
    } else {
        let i = order.last();
        assert(order[order.len() - 1] < rows.len());
        let row = rows[i as int];
        match read_step(rows, file, version, cache, i) {
            Walked::Done(c) => {
                if c != cache {
                    let parsed = node_parse(row, cached(cache, row.children),
                        file.subrange(row.chunk_offset as int, row.chunk_offset + row.chunk_size));
                    assert(parsed is Ok);
                    let n = parsed->Ok_0.1;
                    assert(c == cache.insert(row.id.value, n));
                    assert(view_id(n) == row.id);
                }
                assert(grows_keyed(cache, c));
                assert forall|j: int| 0 <= j < order.drop_last().len() implies #[trigger] order.drop_last()[j] < rows.len() by {
                    assert(order.drop_last()[j] == order[j]);
                }
                lemma_read_walked_grows(rows, file, version, c, order.drop_last());
                let w = read_walked(rows, file, version, c, order.drop_last());
                match w {
                    Walked::Done(c2) => {
                        assert forall|k: u128| #[trigger] c2.contains_key(k) implies
                            (cache.contains_key(k) && c2[k] == cache[k]) || view_id(c2[k]).value == k by {
                            if c.contains_key(k) && c2[k] == c[k] {
                                assert(c.contains_key(k));
                            }
                        }
                    },
                    Walked::Failed(_, c2) => {
                        assert forall|k: u128| #[trigger] c2.contains_key(k) implies
                            (cache.contains_key(k) && c2[k] == cache[k]) || view_id(c2[k]).value == k by {
                            if c.contains_key(k) && c2[k] == c[k] {
                                assert(c.contains_key(k));
                            }
                        }
                    },
                    Walked::Stuck => {},
                }
            },
            Walked::Failed(_, c) => {
                assert(c == cache);
                assert(grows_keyed(cache, c));
            },
            Walked::Stuck => {},
        }
    }
}

/// A result as values.
pub open spec fn result_view(r: Result<NodeType, FileError>) -> Result<NodeView, FileError> {
    match r {
        Ok(n) => Ok(n@),
        Err(e) => Err(e),
    }
}

/// What reading node `id` gives, with the cache it leaves: a cached node at
/// once; `NodeNotFound` when no row has the identifier; otherwise the rows
/// the walk from its row reaches are read, and the node is what they leave
/// in the cache. Nothing when reading meets a row it cannot go past.
pub open spec fn get_spec(rows: Seq<IndexRowView>, file: Seq<u8>, version: u8, c0: Map<u128, NodeView>, id: Uuid)
    -> Option<(Result<NodeView, FileError>, Map<u128, NodeView>)>
{
    let index = row_index(rows);
    if c0.contains_key(id.value) {
        Some((Ok(c0[id.value]), c0))
    } else if !index.contains_key(id.value) {
        Some((Err(FileError::NodeNotFound(id)), c0))
    } else {
        match read_walked(rows, file, version, c0, walk(rows, index, some_rank(rows, index), seq![id])) {
            Walked::Done(c) => Some((
                if c.contains_key(id.value) { Ok(c[id.value]) } else { Err(FileError::NodeNotFound(id)) },
                c,
            )),
            Walked::Failed(e, c) => Some((Err(e), c)),
            Walked::Stuck => None,
        }
    }
}

/// Reading a node a second time gives the node the first read gave, from
/// the cache the first read left, and leaves that cache as it is.
pub proof fn lemma_get_twice(rows: Seq<IndexRowView>, file: Seq<u8>, version: u8, c0: Map<u128, NodeView>, id: Uuid, v: NodeView, c: Map<u128, NodeView>)
    requires
        get_spec(rows, file, version, c0, id) == Some((Ok::<NodeView, FileError>(v), c)),
    ensures
        get_ok(rows, file, version, c, id),
        get_spec(rows, file, version, c, id) == Some((Ok::<NodeView, FileError>(v), c)),
{
}

/// Reading a node does not panic: a node that is cached or has no row is
/// answered at once; otherwise the rows are acyclic, and reading the rows
/// the walk from it reaches never meets a row whose children or
/// dependencies are not read.
pub open spec fn get_ok(rows: Seq<IndexRowView>, file: Seq<u8>, version: u8, cache: Map<u128, NodeView>, id: Uuid) -> bool {
    let index = row_index(rows);
    ||| cache.contains_key(id.value)
    ||| !index.contains_key(id.value)
    ||| acyclic(rows, index) && !(read_walked(rows, file, version, cache, walk(rows, index, some_rank(rows, index), seq![id])) is Stuck)
}

fn push_all(queue: &mut Vec<Uuid>, items: &Vec<Uuid>)
    ensures
        final(queue)@ == old(queue)@ + items@,
{
    let mut k: usize = 0;
    while k < items.len()
        invariant
            k <= items@.len(),
            queue@ == old(queue)@ + items@.subrange(0, k as int),
        decreases items@.len() - k,
    {
        queue.push(items[k]);
        k = k + 1;
        assert(queue@ =~= old(queue)@ + items@.subrange(0, k as int));
    }
    assert(items@.subrange(0, items@.len() as int) =~= items@);
}

fn collect_cached(cache: &BTreeMap<u128, NodeType>, ids: &Vec<Uuid>) -> (r: Vec<NodeType>)
    requires
        all_cached(cache_view(cache@), ids@),
    ensures
        nodes_view(r@) == cached(cache_view(cache@), ids@),
{
    let mut out: Vec<NodeType> = Vec::new();
    let mut k: usize = 0;
    while k < ids.len()
        invariant
            k <= ids@.len(),
            all_cached(cache_view(cache@), ids@),
            nodes_view(out@) == cached(cache_view(cache@), ids@.subrange(0, k as int)),
        decreases ids@.len() - k,
    {
        assert(cache_view(cache@).contains_key(ids@[k as int].value));
        let n = cache.get(&ids[k].value).unwrap().clone();
        let ghost before = out@;
        out.push(n);
        proof {
            lemma_nodes_view_push(before, n);
            assert(cached(cache_view(cache@), ids@.subrange(0, k + 1)) =~= cached(cache_view(cache@), ids@.subrange(0, k as int)).push(n@));
        }
        k = k + 1;
    }
    assert(ids@.subrange(0, ids@.len() as int) =~= ids@);
    out
}

impl File {
    /// An empty revision of format version 0, with a random hash.
    pub fn new() -> (r: File)
        ensures
            r.header.version == 0,
            r.index.root == (Uuid { value: 0 }),
            r.index.size == 0,
            r.index.prev_offset == 0,
            r.rows@.len() == 0,
            r.uuid_index@ == Map::<u128, usize>::empty(),
            r.cache_node@ == Map::<u128, NodeType>::empty(),
    {
        let hash = new_v4();
        let file = File::from_parts(
            Header { version: 0 },
            Index { hash, root: Uuid::nil(), size: 0, prev_offset: 0 },
            Vec::new(),
        );
        assert(file.uuid_index@ =~= Map::<u128, usize>::empty());
        file
    }

    /// A revision from its parts, with each identifier's row.
    pub fn from_parts(header: Header, index: Index, rows: Vec<IndexRow>) -> (r: File)
        ensures
            r.header == header,
            r.index == index,
            r.rows@ == rows@,
            r.uuid_index@ == row_index(rows_view(rows@)),
            r.cache_node@ == Map::<u128, NodeType>::empty(),
    {
        let uuid_index = build_row_index(&rows);
        File { header, index, rows, uuid_index, cache_node: BTreeMap::new() }
    }

    /// Read the revision whose index record ends at `position` in a file's
    /// bytes.
    pub fn read_at(file: &[u8], position: u64) -> (r: Result<File, FileError>)
        requires
            read_ok(file@, position as int),
        ensures
            match read_spec(file@, position as int) {
                Ok((h, i, rows)) => r matches Ok(f) && f.header == h && f.index == i
                    && rows_view(f.rows@) == rows && f.uuid_index@ == row_index(rows)
                    && f.cache_node@ == Map::<u128, NodeType>::empty(),
                Err(e) => r == Err::<File, FileError>(e),
            },
    {
        if file.len() < 5 {
            return Err(FileError::Unknown);
        }
        let head = &file[0..5];
        let header = match Header::parse(head) {
            Ok((_, h)) => h,
            Err(e) => { return Err(FileError::Parse(e)); },
        };
        if position > file.len() as u64 {
            return Err(FileError::Unknown);
        }
        if header.version != 0 {
            return Err(FileError::VersionNotSupported(header.version));
        }
        let end = position as usize;
        let record = &file[end - 44..end];
        let index = match Index::parse(record) {
            Ok((_, i)) => i,
            Err(e) => {
                proof { assert(false); }
                return Err(FileError::Parse(e));
            },
        };
        let rows = if index.size == 0 {
            Vec::new()
        } else {
            let start = end - 44 - index.size as usize;
            parse_index_rows(&file[start..end - 44])
        };
        proof {
            if index.size == 0 {
                assert(rows_view(rows@) =~= Seq::<IndexRowView>::empty());
            }
        }
        Ok(File::from_parts(header, index, rows))
    }

    /// Write the rows and then the index record, whose row byte count
    /// becomes what the rows took; rebuilds each identifier's row. Gives
    /// back the number of bytes written.
    fn write_index(&mut self, out: &mut Vec<u8>) -> (r: usize)
        requires
            old(out)@.len() + index_rows_bytes(rows_view(old(self).rows@)).len() + 44 <= usize::MAX,
        ensures
            final(out)@ == old(out)@ + index_emit(old(self).index, rows_view(old(self).rows@)),
            r == index_rows_bytes(rows_view(old(self).rows@)).len() + 44,
            final(self).header == old(self).header,
            final(self).rows@ == old(self).rows@,
            final(self).index == index_after(old(self).index, rows_view(old(self).rows@)),
            final(self).uuid_index@ == row_index(rows_view(old(self).rows@)),
    {
        self.uuid_index = build_row_index(&self.rows);
        let ghost start = out@;
        let ghost all = rows_view(self.rows@);
        proof {
            lemma_index_rows_bytes_prefix(all, all.len() as int);
        }
        let mut size: usize = 0;
        let mut k: usize = 0;
        while k < self.rows.len()
            invariant
                k <= self.rows@.len(),
                all == rows_view(self.rows@),
                start.len() + index_rows_bytes(all).len() + 44 <= usize::MAX,
                out@ == start + index_rows_bytes(all.subrange(0, k as int)),
                size == index_rows_bytes(all.subrange(0, k as int)).len(),
            decreases self.rows@.len() - k,
        {
            proof {
                assert(all.subrange(0, k + 1).drop_last() =~= all.subrange(0, k as int));
                assert(all.subrange(0, k + 1).last() == self.rows@[k as int]@);
                lemma_index_rows_bytes_prefix(all, k + 1);
            }
            let n = self.rows[k].write(out);
            size = size + n;
            k = k + 1;
            assert(out@ =~= start + index_rows_bytes(all.subrange(0, k as int)));
        }
        assert(all.subrange(0, self.rows@.len() as int) =~= all);
        self.index.size = size as u32;
        proof {
            lemma_auto_spec_u64_to_from_le_bytes();
            lemma_auto_spec_u32_to_from_le_bytes();
            lemma_auto_spec_u128_to_from_le_bytes();
            assert(index_bytes(self.index).len() == 44);
        }
        let m = self.index.write(out);
        assert(out@ =~= start + index_emit(old(self).index, all));
        size + m
    }

    /// Write the whole file over `out` from its start: the header, the
    /// tree's chunks, the rows and the index record, which now names the
    /// tree's root and no previous revision. Gives back the header's 5
    /// bytes plus the rows' and record's bytes.
    pub fn write(&mut self, out: &mut Vec<u8>, node: &NodeType) -> (r: usize)
        requires
            5 + emit(seq![node@], 5).0.len() + index_rows_bytes(emit(seq![node@], 5).1).len() + 44 <= u64::MAX,
            5 + emit(seq![node@], 5).0.len() + index_rows_bytes(emit(seq![node@], 5).1).len() + 44 <= usize::MAX,
        ensures
            ({
                let e = emit(seq![node@], 5);
                let index = Index { root: view_id(node@), prev_offset: 0, ..old(self).index };
                &&& final(out)@ == overwritten(old(out)@, header_bytes(old(self).header) + e.0 + index_emit(index, e.1))
                &&& r == 5 + index_rows_bytes(e.1).len() + 44
                &&& final(self).header == old(self).header
                &&& rows_view(final(self).rows@) == e.1
                &&& final(self).index == index_after(index, e.1)
                &&& final(self).uuid_index@ == row_index(e.1)
            }),
    {
        let mut w: Vec<u8> = Vec::new();
        let mut size = self.header.write(&mut w);
        let mut rows: Vec<IndexRow> = Vec::new();
        let n = write_tree(&mut w, 0, &mut rows, node);
        size = size + n;
        proof {
            assert(rows_view(Seq::<IndexRow>::empty()) =~= Seq::<IndexRowView>::empty());
            assert(Seq::<IndexRowView>::empty() + emit(seq![node@], 5).1 =~= emit(seq![node@], 5).1);
        }
        self.rows = rows;
        self.index.root = node.id();
        self.index.prev_offset = 0;
        let m = self.write_index(&mut w);
        overwrite(out, w);
        size + m
    }

    /// Append a new revision at the end of `out`: the tree's chunks, then
    /// the rows (each new row in place of the row with its identifier, or
    /// after them) and the index record, which points back to where the
    /// previous revision ended. Gives back the rows' and record's bytes.
    pub fn update(&mut self, out: &mut Vec<u8>, node: &NodeType) -> (r: usize)
        requires
            ({
                let e = emit(seq![node@], old(out)@.len() as int);
                &&& old(out)@.len() + e.0.len() + index_rows_bytes(merged(rows_view(old(self).rows@), e.1)).len() + 44 <= u64::MAX
                &&& old(out)@.len() + e.0.len() + index_rows_bytes(merged(rows_view(old(self).rows@), e.1)).len() + 44 <= usize::MAX
            }),
        ensures
            ({
                let e = emit(seq![node@], old(out)@.len() as int);
                let rows = merged(rows_view(old(self).rows@), e.1);
                let index = Index { prev_offset: old(out)@.len() as u64, ..old(self).index };
                &&& final(out)@ == old(out)@ + e.0 + index_emit(index, rows)
                &&& r == index_rows_bytes(rows).len() + 44
                &&& final(self).header == old(self).header
                &&& rows_view(final(self).rows@) == rows
                &&& final(self).index == index_after(index, rows)
                &&& final(self).uuid_index@ == row_index(rows)
            }),
    {
        self.index.prev_offset = out.len() as u64;
        let mut rows: Vec<IndexRow> = Vec::new();
        let n = write_tree(out, 0, &mut rows, node);
        proof {
            assert(rows_view(Seq::<IndexRow>::empty()) =~= Seq::<IndexRowView>::empty());
            assert(rows_view(rows@) =~= emit(seq![node@], old(out)@.len() as int).1);
        }
        self.merge_rows(rows);
        let m = self.write_index(out);
        n + m
    }

    /// Put each of `rows` in, in turn.
    fn merge_rows(&mut self, rows: Vec<IndexRow>)
        ensures
            rows_view(final(self).rows@) == merged(rows_view(old(self).rows@), rows_view(rows@)),
            final(self).header == old(self).header,
            final(self).index == old(self).index,
    {
        let mut rows = rows;
        let ghost fresh = rows_view(rows@);
        let ghost base_rows = rows_view(self.rows@);
        let _count = rows.len();
        let mut k: usize = 0;
        while rows.len() > 0
            invariant
                fresh.len() <= usize::MAX,
                k + rows@.len() == fresh.len(),
                rows_view(rows@) == fresh.subrange(k as int, fresh.len() as int),
                rows_view(self.rows@) == merged(base_rows, fresh.subrange(0, k as int)),
                self.header == old(self).header,
                self.index == old(self).index,
            decreases rows@.len(),
        {
            let ghost before = rows@;
            let row = rows.remove(0);
            proof {
                assert(rows_view(before)[0] == before[0]@);
                assert(row@ == fresh[k as int]);
                assert(fresh.subrange(0, k + 1).drop_last() =~= fresh.subrange(0, k as int));
                assert forall|j: int| 0 <= j < rows@.len() implies #[trigger] rows_view(rows@)[j] == fresh.subrange(k + 1, fresh.len() as int)[j] by {
                    assert(rows@[j] == before[j + 1]);
                    assert(rows_view(before)[j + 1] == before[j + 1]@);
                }
                assert(rows_view(rows@) =~= fresh.subrange(k + 1, fresh.len() as int));
            }
            self.put_row(row);
            k = k + 1;
        }
        assert(fresh.subrange(0, fresh.len() as int) =~= fresh);
    }

    /// Put a row in place of the first row with its identifier, or after
    /// them when none has it.
    fn put_row(&mut self, row: IndexRow)
        ensures
            rows_view(final(self).rows@) == replace_or_push(rows_view(old(self).rows@), row@),
            final(self).header == old(self).header,
            final(self).index == old(self).index,
            final(self).uuid_index == old(self).uuid_index,
    {
        let ghost all = rows_view(self.rows@);
        let mut i: usize = 0;
        while i < self.rows.len()
            invariant
                i <= self.rows@.len(),
                all == rows_view(self.rows@),
                forall|j: int| 0 <= j < i ==> all[j].id != row@.id,
                self.header == old(self).header,
                self.index == old(self).index,
                self.uuid_index == old(self).uuid_index,
                self.rows@ == old(self).rows@,
            decreases self.rows@.len() - i,
        {
            if self.rows[i].id == row.id {
                proof {
                    let c = choose|c: int| 0 <= c < all.len() && all[c].id == row@.id
                        && forall|j: int| 0 <= j < c ==> all[j].id != row@.id;
                    assert(0 <= i < all.len() && all[i as int].id == row@.id
                        && forall|j: int| 0 <= j < i ==> all[j].id != row@.id);
                    if c < i {
                        assert(all[c].id != row@.id);
                    } else if c > i {
                        assert(all[i as int].id != row@.id);
                    }
                }
                let ghost v = row@;
                self.rows.set(i, row);
                assert(rows_view(self.rows@) =~= all.update(i as int, v));
                return;
            }
            i = i + 1;
        }
        let ghost v = row@;
        self.rows.push(row);
        assert(rows_view(self.rows@) =~= all.push(v));
    }

    /// The node with identifier `id`, read from the file's bytes with the
    /// nodes it needs. A cached node is given back at once. Otherwise the
    /// rows reachable from the node's row, through dependencies and
    /// children, are read into the cache, the last reached first; a chunk
    /// that lies outside the file, or a format version other than 0 met
    /// while reading, stops with an error; a node that does not parse is
    /// left out. `NodeNotFound` when the node has no row, or its node did
    /// not parse.
    pub fn get(&mut self, file: &[u8], id: Uuid) -> (r: Result<NodeType, FileError>)
        requires
            old(self).uuid_index@ == row_index(rows_view(old(self).rows@)),
            get_ok(rows_view(old(self).rows@), file@, old(self).header.version, cache_view(old(self).cache_node@), id),
        ensures
            final(self).header == old(self).header,
            final(self).index == old(self).index,
            final(self).rows@ == old(self).rows@,
            final(self).uuid_index@ == old(self).uuid_index@,
            ({
                let rows = rows_view(old(self).rows@);
                let index = row_index(rows);
                let c0 = cache_view(old(self).cache_node@);
                if c0.contains_key(id.value) {
                    &&& r matches Ok(n) && n@ == c0[id.value]
                    &&& final(self).cache_node@ == old(self).cache_node@
                } else if !index.contains_key(id.value) {
                    &&& r == Err::<NodeType, FileError>(FileError::NodeNotFound(id))
                    &&& final(self).cache_node@ == old(self).cache_node@
                } else {
                    match read_walked(rows, file@, old(self).header.version, c0, walk(rows, index, some_rank(rows, index), seq![id])) {
                        Walked::Done(c) => {
                            &&& cache_view(final(self).cache_node@) == c
                            &&& if c.contains_key(id.value) {
                                r matches Ok(n) && n@ == c[id.value]
                            } else {
                                r == Err::<NodeType, FileError>(FileError::NodeNotFound(id))
                            }
                        },
                        Walked::Failed(e, c) => {
                            &&& cache_view(final(self).cache_node@) == c
                            &&& r == Err::<NodeType, FileError>(e)
                        },
                        Walked::Stuck => false,
                    }
                }
            }),
            // A node given back stays cached under its identifier, so the
            // next call gives it back at once.
            r matches Ok(n) ==> cache_view(final(self).cache_node@).contains_key(id.value)
                && cache_view(final(self).cache_node@)[id.value] == n@,
            get_spec(rows_view(old(self).rows@), file@, old(self).header.version, cache_view(old(self).cache_node@), id)
                == Some((result_view(r), cache_view(final(self).cache_node@))),
            // The same node can be asked for again.
            r is Ok ==> get_ok(rows_view(final(self).rows@), file@, final(self).header.version,
                cache_view(final(self).cache_node@), id),
            final(self).uuid_index@ == row_index(rows_view(final(self).rows@)),
            // Only nodes keyed by their own identifiers join the cache; a
            // node read from the file has the identifier asked for.
            grows_keyed(cache_view(old(self).cache_node@), cache_view(final(self).cache_node@)),
            !cache_view(old(self).cache_node@).contains_key(id.value) ==> (r matches Ok(n) ==> view_id(n@) == id),
            // A cache keyed by identifiers stays so, and then any node given
            // back has the identifier asked for.
            cache_keyed(cache_view(old(self).cache_node@)) ==> cache_keyed(cache_view(final(self).cache_node@)),
            cache_keyed(cache_view(old(self).cache_node@)) ==> (r matches Ok(n) ==> view_id(n@) == id),
    {
        let ghost rows = rows_view(self.rows@);
        let ghost index = row_index(rows);
        let _count = self.rows.len();
        match self.cache_node.get(&id.value) {
            Some(node) => {
                let n = node.clone();
                return Ok(n);
            },
            None => {},
        }
        let idx = match self.uuid_index.get(&id.value) {
            Some(i) => *i,
            None => { return Err(FileError::NodeNotFound(id)); },
        };
        let ghost rank = some_rank(rows, index);
        proof {
            lemma_row_index_rows(rows);
            assert(ranked(rows, index, rank));
        }
        let ghost order = walk(rows, index, rank, seq![id]);
        let mut reached: Vec<usize> = Vec::new();
        let mut queue: Vec<Uuid> = Vec::new();
        queue.push(id);
        assert(reached@ + walk(rows, index, rank, queue@) =~= order);
        while queue.len() > 0
            invariant
                rows == rows_view(self.rows@),
                index == row_index(rows),
                self.uuid_index@ == index,
                ranked(rows, index, rank),
                forall|k: u128| #[trigger] index.contains_key(k) ==> index[k] < rows.len(),
                reached@ + walk(rows, index, rank, queue@) == order,
                self.cache_node@ == old(self).cache_node@,
                self.header == old(self).header,
                self.index == old(self).index,
                self.rows@ == old(self).rows@,
                self.uuid_index@ == old(self).uuid_index@,
            decreases queue_weight(rows, index, rank, queue@),
        {
            let ghost q = queue@;
            let x = queue.pop().unwrap();
            proof {
                assert(q.drop_last() =~= queue@);
            }
            match self.uuid_index.get(&x.value) {
                Some(i) => {
                    let i = *i;
                    proof {
                        lemma_queue_weight_concat(rows, index, rank, queue@, succ(rows, index, x.value));
                        lemma_walk_sum_queue(rows, index, rank, x.value, succ(rows, index, x.value));
                        assert(rows[i as int] == self.rows@[i as int]@);
                    }
                    reached.push(i);
                    push_all(&mut queue, &self.rows[i].dependencies);
                    push_all(&mut queue, &self.rows[i].children);
                    proof {
                        assert(queue@ =~= q.drop_last() + succ(rows, index, x.value));
                        assert(reached@ + walk(rows, index, rank, queue@) =~= order);
                    }
                },
                None => {},
            }
        }
        proof {
            assert(reached@ =~= order);
            lemma_walk_in_rows(rows, rank, seq![id]);
        }
        let version = self.header.version;
        let ghost c0 = cache_view(self.cache_node@);
        let mut k: usize = reached.len();
        assert(order.subrange(0, order.len() as int) =~= order);
        proof {
            lemma_read_walked_grows(rows, file@, version, c0, order);
        }
        while k > 0
            invariant
                k <= reached@.len(),
                reached@ == order,
                rows == rows_view(self.rows@),
                forall|j: int| 0 <= j < order.len() ==> #[trigger] order[j] < rows.len(),
                version == self.header.version,
                read_walked(rows, file@, version, c0, order) == read_walked(rows, file@, version, cache_view(self.cache_node@), order.subrange(0, k as int)),
                !(read_walked(rows, file@, version, c0, order) is Stuck),
                walked_grows(c0, read_walked(rows, file@, version, c0, order)),
                old(self).uuid_index@ == row_index(rows_view(old(self).rows@)),
                c0 == cache_view(old(self).cache_node@),
                !c0.contains_key(id.value),
                row_index(rows).contains_key(id.value),
                order == walk(rows, row_index(rows), some_rank(rows, row_index(rows)), seq![id]),
                self.header == old(self).header,
                self.index == old(self).index,
                self.rows@ == old(self).rows@,
                self.uuid_index@ == old(self).uuid_index@,
            decreases k,
        {
            k = k - 1;
            let i = reached[k];
            let ghost cache = cache_view(self.cache_node@);
            proof {
                assert(order.subrange(0, k + 1).last() == order[k as int]);
                assert(order.subrange(0, k + 1).drop_last() =~= order.subrange(0, k as int));
                assert(rows[i as int] == self.rows@[i as int]@);
            }
            let row_id = self.rows[i].id.value;
            if !self.cache_node.contains_key(&row_id) {
                let offset = self.rows[i].chunk_offset;
                let size = self.rows[i].chunk_size;
                if offset > file.len() as u64 || (file.len() as u64 - offset) < size as u64 {
                    proof {
                        assert(read_step(rows, file@, version, cache, i) == Walked::Failed(FileError::Unknown, cache));
                        assert(read_walked(rows, file@, version, cache, order.subrange(0, k + 1)) == Walked::Failed(FileError::Unknown, cache));
                    }
                    return Err(FileError::Unknown);
                }
                proof {
                    assert(all_cached(cache, rows[i as int].children));
                    assert(all_cached(cache, rows[i as int].dependencies));
                }
                let children = collect_cached(&self.cache_node, &self.rows[i].children);
                let dependencies = collect_cached(&self.cache_node, &self.rows[i].dependencies);
                if version != 0 {
                    proof {
                        assert(read_step(rows, file@, version, cache, i) == Walked::Failed(FileError::VersionNotSupported(version), cache));
                        assert(read_walked(rows, file@, version, cache, order.subrange(0, k + 1)) == Walked::Failed(FileError::VersionNotSupported(version), cache));
                    }
                    return Err(FileError::VersionNotSupported(version));
                }
                let start = offset as usize;
                let end = start + size as usize;
                match NodeType::parse_node(&self.rows[i], children, dependencies, &file[start..end]) {
                    Ok((_, node)) => {
                        self.cache_node.insert(row_id, node);
                        proof {
                            assert(cache_view(self.cache_node@) =~= cache.insert(row_id, node@));
                        }
                    },
                    Err(_) => {},
                }
            }
        }
        proof {
            assert(order.subrange(0, 0) =~= Seq::<usize>::empty());
            let c = cache_view(self.cache_node@);
            assert(grows_keyed(c0, c));
            if c.contains_key(id.value) {
                assert(view_id(c[id.value]).value == id.value);
                assert(view_id(c[id.value]) == id);
            }
        }
        match self.cache_node.get(&id.value) {
            Some(node) => Ok(node.clone()),
            None => Err(FileError::NodeNotFound(id)),
        }
    }

    /// Read the latest revision: the one whose index record ends the file.
    pub fn read(file: &[u8]) -> (r: Result<File, FileError>)
        requires
            read_ok(file@, file@.len() as int),
        ensures
            match read_spec(file@, file@.len() as int) {
                Ok((h, i, rows)) => r matches Ok(f) && f.header == h && f.index == i
                    && rows_view(f.rows@) == rows && f.uuid_index@ == row_index(rows)
                    && f.cache_node@ == Map::<u128, NodeType>::empty(),
                Err(e) => r == Err::<File, FileError>(e),
            },
    {
        File::read_at(file, file.len() as u64)
    }

    /// Read the revision before this one from the file's bytes; an error
    /// when this is the first.
    pub fn read_previous(&self, file: &[u8]) -> (r: Result<File, FileError>)
        requires
            self.index.prev_offset != 0 ==> read_ok(file@, self.index.prev_offset as int),
        ensures
            self.index.prev_offset == 0 ==> r == Err::<File, FileError>(FileError::NoPreviousVersionFound),
            self.index.prev_offset != 0 ==> match read_spec(file@, self.index.prev_offset as int) {
                Ok((h, i, rows)) => r matches Ok(f) && f.header == h && f.index == i
                    && rows_view(f.rows@) == rows && f.uuid_index@ == row_index(rows)
                    && f.cache_node@ == Map::<u128, NodeType>::empty(),
                Err(e) => r == Err::<File, FileError>(e),
            },
    {
        if self.index.prev_offset == 0 {
            Err(FileError::NoPreviousVersionFound)
        } else {
            File::read_at(file, self.index.prev_offset)
        }
    }
}

/// A row that fits the row format: its name's bytes and both lists fit
/// their 32-bit counts.
pub open spec fn row_fits(r: IndexRowView) -> bool {
    &&& encode_utf8(r.name).len() <= u32::MAX
    &&& r.children.len() <= u32::MAX
    &&& r.dependencies.len() <= u32::MAX
}

proof fn lemma_index_rows_bytes_front(rs: Seq<IndexRowView>)
    requires
        rs.len() > 0,
    ensures
        index_rows_bytes(rs) == row_bytes(rs[0]) + index_rows_bytes(rs.drop_first()),
    decreases rs.len(),
{
    if rs.len() == 1 {
        assert(rs.drop_last() =~= Seq::<IndexRowView>::empty());
        assert(rs.drop_first() =~= Seq::<IndexRowView>::empty());
        assert(index_rows_bytes(rs) =~= row_bytes(rs[0]) + index_rows_bytes(rs.drop_first()));
    } else {
        lemma_index_rows_bytes_front(rs.drop_last());
        assert(rs.drop_last().drop_first() =~= rs.drop_first().drop_last());
        assert(rs.drop_first().last() == rs.last());
        assert(index_rows_bytes(rs) =~= row_bytes(rs[0]) + index_rows_bytes(rs.drop_first()));
    }
}

/// Rows that fit the format, stored one after another, read back as
/// themselves and take all their bytes.
proof fn lemma_index_rows_roundtrip(rs: Seq<IndexRowView>)
    requires
        forall|i: int| 0 <= i < rs.len() ==> row_fits(#[trigger] rs[i]),
    ensures
        index_rows_ok(index_rows_bytes(rs)),
        index_rows_parse(index_rows_bytes(rs)) == (index_rows_bytes(rs).len(), rs),
        rs.len() > 0 ==> index_rows_bytes(rs).len() > 0,
    decreases rs.len(),
{
    if rs.len() == 0 {
        assert(index_rows_parse(index_rows_bytes(rs)).1 =~= rs);
    } else {
        let tail = rs.drop_first();
        assert forall|i: int| 0 <= i < tail.len() implies row_fits(#[trigger] tail[i]) by {
            assert(tail[i] == rs[i + 1]);
        }
        lemma_index_rows_roundtrip(tail);
        assert(row_fits(rs[0]));
        lemma_index_rows_bytes_front(rs);
        lemma_row_roundtrip(rs[0], index_rows_bytes(tail));
        let s = index_rows_bytes(rs);
        let n = row_bytes(rs[0]).len();
        assert(s.skip(n as int) =~= index_rows_bytes(tail));
        assert(seq![rs[0]] + tail =~= rs);
    }
}

/// A revision reads back from a file: with a version-0 header in its first
/// five bytes, and a revision's rows and index record ending at `position`,
/// reading at `position` gives back the header, the record and the rows.
pub proof fn lemma_revision_reads_back(f: Seq<u8>, position: int, header: Header, index: Index, rows: Seq<IndexRowView>)
    requires
        header.version == 0,
        f.len() >= 5,
        f.subrange(0, 5) == header_bytes(header),
        forall|i: int| 0 <= i < rows.len() ==> row_fits(#[trigger] rows[i]),
        index_rows_bytes(rows).len() <= u32::MAX,
        44 + index_rows_bytes(rows).len() <= position <= f.len(),
        f.subrange(position - 44 - index_rows_bytes(rows).len(), position) == index_emit(index, rows),
    ensures
        read_ok(f, position),
        read_spec(f, position) == Ok::<(Header, Index, Seq<IndexRowView>), FileError>(
            (header, index_after(index, rows), rows),
        ),
{
    let n = index_rows_bytes(rows).len() as int;
    let record = index_after(index, rows);
    lemma_auto_spec_u64_to_from_le_bytes();
    lemma_auto_spec_u32_to_from_le_bytes();
    lemma_auto_spec_u128_to_from_le_bytes();
    assert(index_bytes(record).len() == 44);
    lemma_header_roundtrip(header, Seq::empty());
    assert(header_bytes(header) + Seq::<u8>::empty() =~= header_bytes(header));
    lemma_index_roundtrip(record, Seq::empty());
    assert(index_bytes(record) + Seq::<u8>::empty() =~= index_bytes(record));
    let region = f.subrange(position - 44 - n, position);
    assert(f.subrange(position - 44, position) =~= region.subrange(n, n + 44));
    assert(region.subrange(n, n + 44) =~= index_bytes(record));
    assert(f.subrange(position - 44 - n, position - 44) =~= region.subrange(0, n));
    assert(region.subrange(0, n) =~= index_rows_bytes(rows));
    assert(record.size == n);
    lemma_index_rows_roundtrip(rows);
    if n == 0 {
        assert(rows.len() == 0);
    }
}

/// What `write` leaves reads back: reading at the end of what it wrote
/// gives back the header, the new record and the rows.
pub proof fn lemma_written_file_reads_back(old: Seq<u8>, header: Header, chunks: Seq<u8>, index: Index, rows: Seq<IndexRowView>)
    requires
        header.version == 0,
        forall|i: int| 0 <= i < rows.len() ==> row_fits(#[trigger] rows[i]),
        index_rows_bytes(rows).len() <= u32::MAX,
    ensures
        ({
            let w = header_bytes(header) + chunks + index_emit(index, rows);
            let f = overwritten(old, w);
            &&& read_ok(f, w.len() as int)
            &&& read_spec(f, w.len() as int) == Ok::<(Header, Index, Seq<IndexRowView>), FileError>(
                (header, index_after(index, rows), rows),
            )
        }),
{
    let w = header_bytes(header) + chunks + index_emit(index, rows);
    let f = overwritten(old, w);
    lemma_auto_spec_u64_to_from_le_bytes();
    lemma_auto_spec_u32_to_from_le_bytes();
    lemma_auto_spec_u128_to_from_le_bytes();
    assert(index_bytes(index_after(index, rows)).len() == 44);
    assert(f.subrange(0, w.len() as int) =~= w);
    assert(f.subrange(0, 5) =~= header_bytes(header));
    let n = index_rows_bytes(rows).len() as int;
    assert(f.subrange(w.len() - 44 - n, w.len() as int) =~= index_emit(index, rows));
    lemma_revision_reads_back(f, w.len() as int, header, index, rows);
}

/// What `update` leaves reads back: reading at the new end of the file
/// gives back the header, the new record and the merged rows.
pub proof fn lemma_updated_file_reads_back(old: Seq<u8>, header: Header, chunks: Seq<u8>, index: Index, rows: Seq<IndexRowView>)
    requires
        header.version == 0,
        old.len() >= 5,
        old.subrange(0, 5) == header_bytes(header),
        forall|i: int| 0 <= i < rows.len() ==> row_fits(#[trigger] rows[i]),
        index_rows_bytes(rows).len() <= u32::MAX,
    ensures
        ({
            let f = old + chunks + index_emit(index, rows);
            &&& read_ok(f, f.len() as int)
            &&& read_spec(f, f.len() as int) == Ok::<(Header, Index, Seq<IndexRowView>), FileError>(
                (header, index_after(index, rows), rows),
            )
        }),
{
    let f = old + chunks + index_emit(index, rows);
    lemma_auto_spec_u64_to_from_le_bytes();
    lemma_auto_spec_u32_to_from_le_bytes();
    lemma_auto_spec_u128_to_from_le_bytes();
    assert(index_bytes(index_after(index, rows)).len() == 44);
    assert(f.subrange(0, 5) =~= old.subrange(0, 5));
    let n = index_rows_bytes(rows).len() as int;
    assert(f.subrange(f.len() - 44 - n, f.len() as int) =~= index_emit(index, rows));
    lemma_revision_reads_back(f, f.len() as int, header, index, rows);
}

} // verus!
