use vstd::prelude::*;
use bytes::Bytes;
use std::collections::VecDeque;

verus! {

#[verifier::external_type_specification]
#[verifier::external_body]
pub struct ExBytes(Bytes);

/// The bytes a `Bytes` buffer holds.
pub uninterp spec fn bytes_view(b: Bytes) -> Seq<u8>;

/// `Bytes::len`: number of bytes held.
#[verifier::external_body]
fn bytes_len(b: &Bytes) -> (r: usize)
    ensures
        r == bytes_view(*b).len(),
{
    b.len()
}

/// `Bytes::slice`: the bytes in `begin..end`, sharing the same storage.
#[verifier::external_body]
fn bytes_slice(b: &Bytes, begin: usize, end: usize) -> (r: Bytes)
    requires
        begin <= end <= bytes_view(*b).len(),
    ensures
        bytes_view(r) == bytes_view(*b).subrange(begin as int, end as int),
{
    b.slice(begin..end)
}

/// Indexing the bytes of a `Bytes` buffer (through its `Deref` to `[u8]`).
#[verifier::external_body]
fn bytes_get(b: &Bytes, i: usize) -> (r: u8)
    requires
        i < bytes_view(*b).len(),
    ensures
        r == bytes_view(*b)[i as int],
{
    b[i]
}

/// `Bytes::from(Vec<u8>)`: a buffer holding the vector's bytes.
#[verifier::external_body]
fn bytes_from_vec(v: Vec<u8>) -> (r: Bytes)
    ensures
        bytes_view(r) == v@,
{
    Bytes::from(v)
}

/// The contents of each buffer of a chain, in order.
pub open spec fn chunk_views(chain: Seq<Bytes>) -> Seq<Seq<u8>> {
    chain.map_values(|b: Bytes| bytes_view(b))
}

/// The concatenation of a list of byte sequences.
pub open spec fn flat(cs: Seq<Seq<u8>>) -> Seq<u8>
    decreases cs.len(),
{
    if cs.len() == 0 {
        seq![]
    } else {
        flat(cs.drop_last()) + cs.last()
    }
}

pub proof fn lemma_flat_push(cs: Seq<Seq<u8>>, c: Seq<u8>)
    ensures
        flat(cs.push(c)) == flat(cs) + c,
{
    assert(cs.push(c).drop_last() =~= cs);
}

pub proof fn lemma_flat_append(a: Seq<Seq<u8>>, b: Seq<Seq<u8>>)
    ensures
        flat(a + b) == flat(a) + flat(b),
    decreases b.len(),
{
    if b.len() == 0 {
        assert(a + b =~= a);
        assert(flat(b) =~= Seq::<u8>::empty());
        assert(flat(a) + flat(b) =~= flat(a));
    } else {
        lemma_flat_append(a, b.drop_last());
        assert((a + b).drop_last() =~= a + b.drop_last());
        assert(flat(a) + flat(b) =~= flat(a) + flat(b.drop_last()) + b.last());
    }
}

/// A range endpoint, as in `std::ops::Bound`.
#[derive(Debug, Clone, Copy, PartialEq, Eq, Structural)]
pub enum Bound {
    Included(usize),
    Excluded(usize),
    Unbounded,
}

/// Where a range starts: inclusive and exclusive bounds both start at
/// their value.
pub open spec fn start_of(b: Bound) -> nat {
    match b {
        Bound::Unbounded => 0,
        Bound::Excluded(e) => e as nat,
        Bound::Included(e) => e as nat,
    }
}

/// Where a range ends: inclusive and exclusive bounds both end at their
/// value, an unbounded end at `len`.
pub open spec fn end_of(b: Bound, len: nat) -> nat {
    match b {
        Bound::Unbounded => len,
        Bound::Excluded(e) => e as nat,
        Bound::Included(e) => e as nat,
    }
}

/// A sequence of byte buffers read as one contiguous run of bytes.
#[derive(Debug)]
pub struct BytesChain {
    chain: VecDeque<Bytes>,
}

impl BytesChain {
    /// The bytes of the chain, buffer after buffer.
    pub closed spec fn view_bytes(&self) -> Seq<u8> {
        flat(chunk_views(self.chain@))
    }

    /// The byte count fits a `usize`.
    pub closed spec fn wf(&self) -> bool {
        flat(chunk_views(self.chain@)).len() <= usize::MAX
    }

    pub fn new() -> (r: Self)
        ensures
            r.wf(),
            r.view_bytes() == Seq::<u8>::empty(),
    {
        let r = BytesChain { chain: VecDeque::new() };
        assert(chunk_views(r.chain@) =~= Seq::<Seq<u8>>::empty());
        r
    }

    /// A chain of a single buffer.
    pub fn from_bytes(value: Bytes) -> (r: Self)
        ensures
            r.wf(),
            r.view_bytes() == bytes_view(value),
    {
        let _n = bytes_len(&value);
        let mut chain: VecDeque<Bytes> = VecDeque::new();
        chain.push_back(value);
        let r = BytesChain { chain };
        proof {
            assert(chunk_views(r.chain@) =~= Seq::<Seq<u8>>::empty().push(bytes_view(value)));
            lemma_flat_push(Seq::<Seq<u8>>::empty(), bytes_view(value));
            assert(flat(Seq::<Seq<u8>>::empty()) == Seq::<u8>::empty());
            assert(Seq::<u8>::empty() + bytes_view(value) =~= bytes_view(value));
        }
        r
    }

    /// A chain of a single buffer holding the given bytes.
    pub fn from_vec(value: Vec<u8>) -> (r: Self)
        ensures
            r.wf(),
            r.view_bytes() == value@,
    {
        BytesChain::from_bytes(bytes_from_vec(value))
    }

    pub fn push(&mut self, bytes: Bytes)
        requires
            old(self).view_bytes().len() + bytes_view(bytes).len() <= usize::MAX,
        ensures
            final(self).wf(),
            final(self).view_bytes() == old(self).view_bytes() + bytes_view(bytes),
    {
        let ghost before = chunk_views(self.chain@);
        self.chain.push_back(bytes);
        proof {
            assert(chunk_views(self.chain@) =~= before.push(bytes_view(bytes)));
            lemma_flat_push(before, bytes_view(bytes));
        }
    }

    pub fn append(&mut self, bytes: BytesChain)
        requires
            old(self).view_bytes().len() + bytes.view_bytes().len() <= usize::MAX,
        ensures
            final(self).wf(),
            final(self).view_bytes() == old(self).view_bytes() + bytes.view_bytes(),
    {
        let mut bytes = bytes;
        let ghost a = chunk_views(self.chain@);
        let ghost b = chunk_views(bytes.chain@);
        self.chain.append(&mut bytes.chain);
        proof {
            assert(chunk_views(self.chain@) =~= a + b);
            lemma_flat_append(a, b);
        }
    }

    pub fn clear(&mut self)
        ensures
            final(self).wf(),
            final(self).view_bytes() == Seq::<u8>::empty(),
    {
        self.chain.clear();
        assert(chunk_views(self.chain@) =~= Seq::<Seq<u8>>::empty());
    }

    /// Total number of bytes.
    pub fn len(&self) -> (r: usize)
        requires
            self.wf(),
        ensures
            r == self.view_bytes().len(),
    {
        let n = self.chain.len();
        let ghost cs = chunk_views(self.chain@);
        let mut total: usize = 0;
        let mut i: usize = 0;
        while i < n
            invariant
                n == self.chain@.len(),
                cs == chunk_views(self.chain@),
                flat(cs).len() <= usize::MAX,
                i <= n,
                total == flat(cs.subrange(0, i as int)).len(),
            decreases n - i,
        {
            proof {
                lemma_flat_prefix_step(cs, i as int);
                lemma_flat_prefix_le(cs, i + 1);
            }
            total = total + bytes_len(&self.chain[i]);
            i = i + 1;
        }
        assert(cs.subrange(0, n as int) =~= cs);
        total
    }

    /// The bytes `start..end` of the chain, sharing storage with it.
    pub fn slice(&self, start: Bound, end: Bound) -> (r: BytesChain)
        requires
            self.wf(),
            start_of(start) <= end_of(end, self.view_bytes().len()),
            end_of(end, self.view_bytes().len()) <= self.view_bytes().len(),
        ensures
            r.wf(),
            r.view_bytes() == self.view_bytes().subrange(
                start_of(start) as int,
                end_of(end, self.view_bytes().len()) as int,
            ),
    {
        let total = self.len();
        let from = match start {
            Bound::Unbounded => 0usize,
            Bound::Excluded(e) => e,
            Bound::Included(e) => e,
        };
        let to = match end {
            Bound::Unbounded => total,
            Bound::Excluded(e) => e,
            Bound::Included(e) => e,
        };
        let ghost view = self.view_bytes();
        let ghost cs = chunk_views(self.chain@);
        let mut chain = BytesChain::new();
        let mut offset: usize = 0;
        let n = self.chain.len();
        let mut done = false;
        let mut i: usize = 0;
        while i < n && !done
            invariant
                n == self.chain@.len(),
                cs == chunk_views(self.chain@),
                view == flat(cs),
                view.len() == total,
                from <= to <= total,
                i <= n,
                offset == flat(cs.subrange(0, i as int)).len(),
                !done ==> offset <= to,
                done ==> offset >= to,
                chain.wf(),
                chain.view_bytes() == view.subrange(
                    from as int,
                    if offset <= from { from as int } else if offset >= to { to as int } else { offset as int },
                ),
            decreases n - i,
        {
            proof {
                lemma_flat_prefix_step(cs, i as int);
                lemma_flat_prefix_le(cs, i + 1);
            }
            let b = &self.chain[i];
            let len = bytes_len(b);
            assert(cs[i as int] == bytes_view(*b));
            let begin: usize;
            if offset > from {
                begin = 0;
            } else if offset + len > from {
                begin = from - offset;
            } else {
                offset = offset + len;
                i = i + 1;
                continue;
            }
            let end = if len < to - offset { len } else { to - offset };
            proof {
                lemma_chunk_in_view(cs, i as int, begin as int, end as int);
            }
            let piece = bytes_slice(b, begin, end);
            let ghost prev = chain.view_bytes();
            chain.push(piece);
            assert(chain.view_bytes() =~= view.subrange(
                from as int,
                if offset + len <= from { from as int } else if offset + len >= to { to as int } else { (offset + len) as int },
            ));
            offset = offset + len;
            if offset >= to {
                done = true;
            }
            i = i + 1;
        }
        proof {
            if !done {
                assert(cs.subrange(0, n as int) =~= cs);
            }
        }
        chain
    }

    /// Copy bytes of the chain, starting at `start`, into `target`: as many
    /// as `target` holds or as remain after `start`. The rest of `target` is
    /// left as it was; `end` only bounds what the call accepts.
    pub fn copy_to_slice(&self, start: Bound, end: Bound, target: &mut [u8])
        requires
            self.wf(),
            start_of(start) <= end_of(end, self.view_bytes().len()),
            end_of(end, self.view_bytes().len()) <= self.view_bytes().len(),
        ensures
            ({
                let from = start_of(start) as int;
                let k = if old(target)@.len() < self.view_bytes().len() - from {
                    old(target)@.len() as int
                } else {
                    self.view_bytes().len() - from
                };
                final(target)@ == self.view_bytes().subrange(from, from + k) + old(target)@.subrange(
                    k,
                    old(target)@.len() as int,
                )
            }),
    {
        let total = self.len();
        let first = match start {
            Bound::Unbounded => 0usize,
            Bound::Excluded(e) => e,
            Bound::Included(e) => e,
        };
        let ghost view = self.view_bytes();
        let ghost cs = chunk_views(self.chain@);
        let ghost original = target@;
        let mut from = first;
        let tlen = target.len();
        let mut copied: usize = 0;
        let n = self.chain.len();
        let mut done = false;
        let mut i: usize = 0;
        while i < n && !done
            invariant
                n == self.chain@.len(),
                cs == chunk_views(self.chain@),
                view == flat(cs),
                view.len() == total,
                first <= total,
                tlen == original.len(),
                target@.len() == tlen,
                i <= n,
                ({
                    let pos = flat(cs.subrange(0, i as int)).len() as int;
                    &&& pos <= total
                    &&& from == (if pos <= first { first - pos } else { 0 })
                    &&& copied == (if pos <= first { 0 } else if pos - first < tlen { pos - first } else { tlen as int })
                }),
                done ==> copied == tlen,
                !done && flat(cs.subrange(0, i as int)).len() > first ==> copied < tlen,
                copied <= tlen,
                first + copied <= total,
                target@ == view.subrange(first as int, first + copied) + original.subrange(copied as int, tlen as int),
            decreases n - i,
        {
            proof {
                lemma_flat_prefix_step(cs, i as int);
                lemma_flat_prefix_le(cs, i + 1);
            }
            let b = &self.chain[i];
            let len = bytes_len(b);
            assert(cs[i as int] == bytes_view(*b));
            if from < len {
                let available = if len - from < tlen - copied { len - from } else { tlen - copied };
                proof {
                    lemma_chunk_in_view(cs, i as int, from as int, from + available);
                }
                let piece = bytes_slice(b, from, from + available);
                assert(bytes_view(piece) == view.subrange(first + copied, first + copied + available));
                let ghost before = target@;
                assert(before == view.subrange(first as int, first + copied) + original.subrange(copied as int, tlen as int));
                let mut k: usize = 0;
                while k < available
                    invariant
                        k <= available,
                        copied + available <= tlen,
                        target@.len() == tlen,
                        bytes_view(piece).len() == available,
                        forall|j: int| 0 <= j < copied ==> target@[j] == before[j],
                        forall|j: int| copied <= j < copied + k ==> target@[j] == bytes_view(piece)[j - copied],
                        forall|j: int| copied + k <= j < tlen ==> target@[j] == before[j],
                    decreases available - k,
                {
                    target[copied + k] = bytes_get(&piece, k);
                    k = k + 1;
                }
                assert forall|j: int| 0 <= j < tlen implies #[trigger] target@[j] == (view.subrange(first as int, first + copied + available)
                    + original.subrange(copied + available, tlen as int))[j] by {
                    if j < copied {
                        assert(target@[j] == before[j]);
                    } else if j < copied + available {
                        assert(target@[j] == bytes_view(piece)[j - copied]);
                    } else {
                        assert(target@[j] == before[j]);
                    }
                }
                assert(target@ =~= view.subrange(first as int, first + copied + available)
                    + original.subrange(copied + available, tlen as int));
                copied = copied + available;
                from = 0;
                if tlen == copied {
                    done = true;
                }
            } else {
                from = from - len;
            }
            i = i + 1;
        }
        proof {
            if !done {
                assert(cs.subrange(0, n as int) =~= cs);
            }
        }
    }

    /// The byte at index `idx`.
    pub fn index(&self, idx: usize) -> (r: u8)
        requires
            self.wf(),
            idx < self.view_bytes().len(),
        ensures
            r == self.view_bytes()[idx as int],
    {
        let ghost view = self.view_bytes();
        let ghost cs = chunk_views(self.chain@);
        let n = self.chain.len();
        let mut rem = idx;
        let mut i: usize = 0;
        while i < n
            invariant
                n == self.chain@.len(),
                cs == chunk_views(self.chain@),
                view == flat(cs),
                idx < view.len(),
                i <= n,
                rem + flat(cs.subrange(0, i as int)).len() == idx,
            decreases n - i,
        {
            proof {
                lemma_flat_prefix_step(cs, i as int);
            }
            let b = &self.chain[i];
            let len = bytes_len(b);
            assert(cs[i as int] == bytes_view(*b));
            if rem < len {
                proof {
                    lemma_chunk_in_view(cs, i as int, rem as int, rem + 1);
                    assert(bytes_view(*b)[rem as int] == bytes_view(*b).subrange(rem as int, rem + 1)[0]);
                }
                return bytes_get(b, rem);
            }
            rem = rem - len;
            i = i + 1;
        }
        proof {
            assert(cs.subrange(0, n as int) =~= cs);
        }
        0
    }

    /// One buffer holding every byte of the chain.
    pub fn into_bytes(self) -> (r: Bytes)
        requires
            self.wf(),
        ensures
            bytes_view(r) == self.view_bytes(),
    {
        let total = self.len();
        let mut data: Vec<u8> = Vec::new();
        let mut k: usize = 0;
        while k < total
            invariant
                k <= total,
                data@.len() == k,
            decreases total - k,
        {
            data.push(0);
            k = k + 1;
        }
        self.copy_to_slice(Bound::Unbounded, Bound::Unbounded, data.as_mut_slice());
        assert(data@ =~= self.view_bytes());
        bytes_from_vec(data)
    }

    /// Every byte of the chain, in order.
    pub fn iter(&self) -> (r: Vec<u8>)
        requires
            self.wf(),
        ensures
            r@ == self.view_bytes(),
    {
        let n = self.chain.len();
        let ghost cs = chunk_views(self.chain@);
        let mut out: Vec<u8> = Vec::new();
        let mut i: usize = 0;
        while i < n
            invariant
                n == self.chain@.len(),
                cs == chunk_views(self.chain@),
                i <= n,
                out@ == flat(cs.subrange(0, i as int)),
            decreases n - i,
        {
            proof {
                lemma_flat_prefix_step(cs, i as int);
            }
            let b = &self.chain[i];
            let m = bytes_len(b);
            let ghost start = out@;
            let mut k: usize = 0;
            while k < m
                invariant
                    m == bytes_view(*b).len(),
                    k <= m,
                    out@ == start + bytes_view(*b).subrange(0, k as int),
                decreases m - k,
            {
                out.push(bytes_get(b, k));
                k = k + 1;
                assert(out@ =~= start + bytes_view(*b).subrange(0, k as int));
            }
            assert(bytes_view(*b).subrange(0, m as int) =~= bytes_view(*b));
            assert(cs[i as int] == bytes_view(*b));
            i = i + 1;
        }
        assert(cs.subrange(0, n as int) =~= cs);
        out
    }
}

/// Where bytes `lo..hi` of the chain land inside buffer `i`, when that
/// buffer starts at `pos`.
proof fn lemma_chunk_in_view(cs: Seq<Seq<u8>>, i: int, lo: int, hi: int)
    requires
        0 <= i < cs.len(),
        0 <= lo <= hi <= cs[i].len(),
    ensures
        flat(cs.subrange(0, i)).len() + cs[i].len() <= flat(cs).len(),
        cs[i].subrange(lo, hi) == flat(cs).subrange(
            flat(cs.subrange(0, i)).len() + lo,
            flat(cs.subrange(0, i)).len() + hi,
        ),
{
    lemma_flat_prefix_step(cs, i);
    lemma_flat_prefix_le(cs, i + 1);
    let pos = flat(cs.subrange(0, i)).len();
    assert(cs[i].subrange(lo, hi) =~= flat(cs).subrange(pos + lo, pos + hi));
}

/// Extending a prefix of the buffer list by one buffer extends its bytes by that buffer.
proof fn lemma_flat_prefix_step(cs: Seq<Seq<u8>>, i: int)
    requires
        0 <= i < cs.len(),
    ensures
        flat(cs.subrange(0, i + 1)) == flat(cs.subrange(0, i)) + cs[i],
{
    assert(cs.subrange(0, i + 1) =~= cs.subrange(0, i).push(cs[i]));
    lemma_flat_push(cs.subrange(0, i), cs[i]);
}

/// A prefix of the buffer list holds no more bytes than the whole list.
proof fn lemma_flat_prefix_le(cs: Seq<Seq<u8>>, i: int)
    requires
        0 <= i <= cs.len(),
    ensures
        flat(cs.subrange(0, i)).len() <= flat(cs).len(),
        flat(cs) == flat(cs.subrange(0, i)) + flat(cs.subrange(i, cs.len() as int)),
{
    assert(cs =~= cs.subrange(0, i) + cs.subrange(i, cs.len() as int));
    lemma_flat_append(cs.subrange(0, i), cs.subrange(i, cs.len() as int));
}

} // verus!
