//! Values that append themselves to a byte buffer.
use vstd::prelude::*;

verus! {

/// A value with a byte encoding that it appends to a buffer.
pub trait Writer {
    /// The bytes a write appends.
    spec fn written_bytes(&self) -> Seq<u8>;

    /// The count a write gives back.
    spec fn write_count(&self) -> nat;

    /// The value has an encoding.
    spec fn writable(&self) -> bool;

    /// Append the value's bytes to `out`; give back its count.
    fn write_to(&self, out: &mut Vec<u8>) -> (r: usize)
        requires
            self.writable(),
            old(out)@.len() + self.written_bytes().len() <= usize::MAX,
        ensures
            final(out)@ == old(out)@ + self.written_bytes(),
            r == self.write_count(),
    ;
}

/// The bytes of a list of values, one after another.
pub open spec fn written_all<T: Writer>(s: Seq<T>) -> Seq<u8>
    decreases s.len(),
{
    if s.len() == 0 {
        seq![]
    } else {
        written_all(s.drop_last()) + s.last().written_bytes()
    }
}

/// The sum of the counts of a list of values.
pub open spec fn count_all<T: Writer>(s: Seq<T>) -> nat
    decreases s.len(),
{
    if s.len() == 0 {
        0
    } else {
        count_all(s.drop_last()) + s.last().write_count()
    }
}

/// The bytes and the count of some first values are at most those of all.
proof fn lemma_prefix_le<T: Writer>(s: Seq<T>, k: int)
    requires
        0 <= k <= s.len(),
    ensures
        written_all(s.take(k)).len() <= written_all(s).len(),
        count_all(s.take(k)) <= count_all(s),
    decreases s.len() - k,
{
    if k < s.len() {
        lemma_prefix_le(s, k + 1);
        assert(s.take(k + 1).drop_last() =~= s.take(k));
    } else {
        assert(s.take(k) =~= s);
    }
}

/// A list writes its values one after another; its count is the sum of
/// theirs.
impl<T: Writer> Writer for Vec<T> {
    open spec fn written_bytes(&self) -> Seq<u8> {
        written_all(self@)
    }

    open spec fn write_count(&self) -> nat {
        count_all(self@)
    }

    open spec fn writable(&self) -> bool {
        &&& forall|i: int| 0 <= i < self@.len() ==> (#[trigger] self@[i]).writable()
        &&& count_all(self@) <= usize::MAX
    }

    fn write_to(&self, out: &mut Vec<u8>) -> (r: usize) {
        let ghost start = out@;
        let ghost all = self@;
        let mut b: usize = 0;
        let mut k: usize = 0;
        while k < self.len()
            invariant
                k <= all.len(),
                all == self@,
                forall|i: int| 0 <= i < all.len() ==> (#[trigger] all[i]).writable(),
                count_all(all) <= usize::MAX,
                start.len() + written_all(all).len() <= usize::MAX,
                out@ == start + written_all(all.take(k as int)),
                b == count_all(all.take(k as int)),
            decreases all.len() - k,
        {
            proof {
                assert(all.take(k + 1).drop_last() =~= all.take(k as int));
                lemma_prefix_le(all, k + 1);
            }
            let n = self[k].write_to(out);
            b = b + n;
            k = k + 1;
        }
        assert(all.take(all.len() as int) =~= all);
        b
    }
}

} // verus!
