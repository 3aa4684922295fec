use vstd::prelude::*;
use bitvec::order::Lsb0;
use bitvec::vec::BitVec;

verus! {

/// A growable sequence of bits, packed into bytes least-significant bit first.
#[verifier::external_body]
pub struct Mask {
    bits: BitVec<u8, Lsb0>,
}

/// The bits a mask holds, in index order.
pub uninterp spec fn mask_bits(m: Mask) -> Seq<bool>;

/// Number of `true` entries of `s`.
pub open spec fn count_true(s: Seq<bool>) -> nat
    decreases s.len(),
{
    if s.len() == 0 {
        0
    } else {
        count_true(s.drop_last()) + if s.last() { 1nat } else { 0nat }
    }
}

pub proof fn lemma_count_true_bound(s: Seq<bool>)
    ensures
        count_true(s) <= s.len(),
    decreases s.len(),
{
    if s.len() > 0 {
        lemma_count_true_bound(s.drop_last());
    }
}

pub proof fn lemma_count_true_push(s: Seq<bool>, b: bool)
    ensures
        count_true(s.push(b)) == count_true(s) + if b { 1nat } else { 0nat },
{
    assert(s.push(b).drop_last() =~= s);
}

/// Counting the prefix up to `i + 1` adds bit `i` to the count of the prefix up to `i`.
pub proof fn lemma_count_true_prefix_step(s: Seq<bool>, i: int)
    requires
        0 <= i < s.len(),
    ensures
        count_true(s.subrange(0, i + 1)) == count_true(s.subrange(0, i)) + if s[i] { 1nat } else { 0nat },
{
    assert(s.subrange(0, i + 1).drop_last() =~= s.subrange(0, i));
}

/// The count over a prefix never exceeds the count over a longer prefix; it
/// is strictly less when a set bit lies in between.
pub proof fn lemma_count_true_monotone(s: Seq<bool>, i: int, j: int)
    requires
        0 <= i <= j <= s.len(),
    ensures
        count_true(s.subrange(0, i)) <= count_true(s.subrange(0, j)),
        i < j && s[i] ==> count_true(s.subrange(0, i)) + 1 <= count_true(s.subrange(0, j)),
    decreases j - i,
{
    if i < j {
        lemma_count_true_monotone(s, i, j - 1);
        lemma_count_true_prefix_step(s, j - 1);
        if i < j - 1 {
            lemma_count_true_monotone(s, i + 1, j - 1);
            lemma_count_true_prefix_step(s, i);
        }
    }
}

impl Mask {
    /// The bits of this mask.
    pub open spec fn view_bits(&self) -> Seq<bool> {
        mask_bits(*self)
    }

    /// `BitVec::repeat`: a mask of `len` copies of `bit`.
    #[verifier::external_body]
    pub(crate) fn repeat(bit: bool, len: usize) -> (r: Mask)
        requires
            len <= usize::MAX / 8,
        ensures
            mask_bits(r) == Seq::new(len as nat, |i: int| bit),
    {
        Mask { bits: BitVec::repeat(bit, len) }
    }

    /// `BitVec::len`: the number of bits.
    #[verifier::external_body]
    pub(crate) fn len(&self) -> (r: usize)
        ensures
            r == mask_bits(*self).len(),
    {
        self.bits.len()
    }

    /// Indexing a `BitVec`: bit `i`.
    #[verifier::external_body]
    pub(crate) fn get(&self, i: usize) -> (r: bool)
        requires
            i < mask_bits(*self).len(),
        ensures
            r == mask_bits(*self)[i as int],
    {
        self.bits[i]
    }

    /// `BitSlice::set`: overwrite bit `i`.
    #[verifier::external_body]
    pub(crate) fn set(&mut self, i: usize, bit: bool)
        requires
            i < mask_bits(*old(self)).len(),
        ensures
            mask_bits(*final(self)) == mask_bits(*old(self)).update(i as int, bit),
    {
        self.bits.set(i, bit)
    }

    /// `BitSlice::count_ones` on the bits before index `i`.
    #[verifier::external_body]
    pub(crate) fn count_ones_before(&self, i: usize) -> (r: usize)
        requires
            i <= mask_bits(*self).len(),
        ensures
            r == count_true(mask_bits(*self).subrange(0, i as int)),
    {
        self.bits[..i].count_ones()
    }

    /// A mask holding exactly the given bits.
    pub fn from_bools(bits: &Vec<bool>) -> (r: Mask)
        requires
            bits@.len() <= usize::MAX / 8,
        ensures
            r.view_bits() == bits@,
    {
        let n = bits.len();
        let mut m = Mask::repeat(false, n);
        let mut i: usize = 0;
        while i < n
            invariant
                i <= n,
                n == bits@.len(),
                mask_bits(m).len() == n,
                forall|j: int| 0 <= j < i ==> mask_bits(m)[j] == bits@[j],
            decreases n - i,
        {
            m.set(i, bits[i]);
            i = i + 1;
        }
        assert(mask_bits(m) =~= bits@);
        m
    }

    /// The bits of this mask, in index order.
    pub fn to_bools(&self) -> (r: Vec<bool>)
        ensures
            r@ == self.view_bits(),
    {
        let n = self.len();
        let mut v: Vec<bool> = Vec::new();
        let mut i: usize = 0;
        while i < n
            invariant
                i <= n,
                n == mask_bits(*self).len(),
                v@ == mask_bits(*self).subrange(0, i as int),
            decreases n - i,
        {
            v.push(self.get(i));
            i = i + 1;
            assert(v@ =~= mask_bits(*self).subrange(0, i as int));
        }
        assert(v@ =~= mask_bits(*self));
        v
    }

    /// A copy of this mask.
    pub fn duplicate(&self) -> (r: Mask)
        requires
            self.view_bits().len() <= usize::MAX / 8,
        ensures
            r.view_bits() == self.view_bits(),
    {
        let v = self.to_bools();
        Mask::from_bools(&v)
    }
}

} // verus!
