use vstd::prelude::*;
use crate::canvas::rect::Rect;
use crate::collections::mask::{
    Mask, mask_bits, count_true, lemma_count_true_push, lemma_count_true_monotone,
    lemma_count_true_prefix_step,
};
use crate::color::channel::{Channel, stride_of, default_pixel_of};
use crate::collections::braille::{braille_grid, braille_text};
use vstd::string::StringExecFns;

verus! {

/// Which positions of a pixel list hold a pixel.
pub open spec fn presence(ps: Seq<Option<Seq<u8>>>) -> Seq<bool> {
    Seq::new(ps.len(), |i: int| ps[i] is Some)
}

/// The bytes of the present pixels, concatenated in order.
pub open spec fn kept_bytes(ps: Seq<Option<Seq<u8>>>) -> Seq<u8>
    decreases ps.len(),
{
    if ps.len() == 0 {
        seq![]
    } else {
        kept_bytes(ps.drop_last()) + match ps.last() {
            Some(p) => p,
            None => seq![],
        }
    }
}

/// Every present pixel is `stride` bytes long.
pub open spec fn uniform(ps: Seq<Option<Seq<u8>>>, stride: nat) -> bool {
    forall|i: int| 0 <= i < ps.len() && (#[trigger] ps[i]) is Some ==> ps[i]->Some_0.len() == stride
}

/// Number of set bits before index `i`.
pub open spec fn rank(bits: Seq<bool>, i: int) -> nat {
    count_true(bits.subrange(0, i))
}

/// Pixel `i` of a packed layout: when bit `i` is set, the `stride` bytes
/// after as many pixels as there are set bits before `i`.
pub open spec fn unpack(bits: Seq<bool>, data: Seq<u8>, stride: nat) -> Seq<Option<Seq<u8>>> {
    Seq::new(
        bits.len(),
        |i: int|
            if bits[i] {
                Some(data.subrange((rank(bits, i) * stride) as int, (rank(bits, i) * stride + stride) as int))
            } else {
                None
            },
    )
}

proof fn lemma_mul_le(a: nat, b: nat, s: nat)
    requires
        a <= b,
    ensures
        a * s <= b * s,
{
    vstd::arithmetic::mul::lemma_mul_inequality(a as int, b as int, s as int);
}

/// Packing a list of equally sized pixels and unpacking it again gives the list back.
pub proof fn lemma_pack_unpack(ps: Seq<Option<Seq<u8>>>, stride: nat)
    requires
        uniform(ps, stride),
    ensures
        kept_bytes(ps).len() == count_true(presence(ps)) * stride,
        unpack(presence(ps), kept_bytes(ps), stride) == ps,
    decreases ps.len(),
{
    if ps.len() == 0 {
        assert(kept_bytes(ps) == Seq::<u8>::empty());
        assert(presence(ps).len() == 0);
        assert(count_true(presence(ps)) == 0);
        assert(0 * stride == 0) by (nonlinear_arith);
        assert(unpack(presence(ps), kept_bytes(ps), stride) =~= ps);
    } else {
        let qs = ps.drop_last();
        assert(uniform(qs, stride)) by {
            assert forall|i: int| 0 <= i < qs.len() && (#[trigger] qs[i]) is Some implies qs[i]->Some_0.len() == stride by {
                assert(qs[i] == ps[i]);
            }
        }
        lemma_pack_unpack(qs, stride);
        let last_some = ps.last() is Some;
        assert(presence(ps) =~= presence(qs).push(last_some));
        lemma_count_true_push(presence(qs), last_some);
        let cq = count_true(presence(qs));
        assert((cq + 1) * stride == cq * stride + stride) by (nonlinear_arith);
        if last_some {
            assert(ps[ps.len() - 1] is Some);
            assert(ps.last()->Some_0.len() == stride);
            assert(kept_bytes(ps).len() == kept_bytes(qs).len() + stride);
        } else {
            assert(kept_bytes(ps).len() == kept_bytes(qs).len());
        }
        assert(kept_bytes(ps).len() == count_true(presence(ps)) * stride);
        let bits = presence(ps);
        let data = kept_bytes(ps);
        assert forall|i: int| 0 <= i < ps.len() implies #[trigger] unpack(bits, data, stride)[i] == ps[i] by {
            if i < ps.len() - 1 {
                assert(bits.subrange(0, i) =~= presence(qs).subrange(0, i));
                if ps[i] is Some {
                    assert(presence(qs)[i]);
                    lemma_count_true_monotone(presence(qs), i, qs.len() as int);
                    assert(presence(qs).subrange(0, qs.len() as int) =~= presence(qs));
                    lemma_mul_le(rank(bits, i) + 1, cq, stride);
                    assert((rank(bits, i) + 1) * stride == rank(bits, i) * stride + stride) by (nonlinear_arith);
                    assert(data.subrange((rank(bits, i) * stride) as int, (rank(bits, i) * stride + stride) as int)
                        =~= kept_bytes(qs).subrange((rank(bits, i) * stride) as int, (rank(bits, i) * stride + stride) as int));
                    assert(unpack(presence(qs), kept_bytes(qs), stride)[i] == qs[i]);
                }
            } else {
                assert(bits.subrange(0, i) =~= presence(qs));
                if ps[i] is Some {
                    assert(data.subrange((rank(bits, i) * stride) as int, (rank(bits, i) * stride + stride) as int)
                        =~= ps[i]->Some_0);
                }
            }
        }
        assert(unpack(bits, data, stride) =~= ps);
    }
}

/// A sparse rectangular block of pixels: a presence bit per cell of `bounds`
/// (row-major) and the bytes of the present pixels, packed in order.
pub struct Stencil {
    bounds: Rect,
    mask: Mask,
    channel: Channel,
    empty_pixel: Vec<u8>,
    data: Vec<u8>,
}

/// A stencil as values: its bounds, its pixel layout and its cells.
pub struct StencilView {
    pub bounds: Rect,
    pub channel: Channel,
    pub pixels: Seq<Option<Seq<u8>>>,
}

/// The pixel of a stencil's values at coordinate (`x`, `y`), if it has one
/// there.
pub open spec fn view_at(v: StencilView, x: int, y: int) -> Option<Seq<u8>> {
    let b = v.bounds;
    if b.x <= x < b.x + b.w && b.y <= y < b.y + b.h {
        v.pixels[(y - b.y) * b.w + (x - b.x)]
    } else {
        None
    }
}

impl View for Stencil {
    type V = StencilView;

    open spec fn view(&self) -> StencilView {
        StencilView { bounds: self.view_bounds(), channel: self.view_channel(), pixels: self.pixels() }
    }
}

/// Number of cells of a rectangle with non-negative extent.
pub open spec fn area(r: Rect) -> nat {
    (r.w * r.h) as nat
}

/// The rectangle may back a stencil: non-negative extent, representable far
/// corner, and a cell count the mask can hold.
pub open spec fn rect_ok(r: Rect) -> bool {
    &&& 0 <= r.w
    &&& 0 <= r.h
    &&& r.corners_fit()
    &&& r.w * r.h <= i32::MAX
    &&& r.w * r.h <= usize::MAX / 8
}

/// Pixel `i` of `buffer` read as consecutive pixels of `stride` bytes.
pub open spec fn chunk(buffer: Seq<u8>, stride: nat, i: int) -> Seq<u8> {
    buffer.subrange(i * stride, i * stride + stride)
}

impl Stencil {
    /// Well-formedness: the mask has one bit per cell and the data one pixel
    /// per set bit.
    pub closed spec fn wf(&self) -> bool {
        &&& rect_ok(self.bounds)
        &&& mask_bits(self.mask).len() == area(self.bounds)
        &&& self.data@.len() == count_true(mask_bits(self.mask)) * stride_of(self.channel)
        &&& self.empty_pixel@ == default_pixel_of(self.channel)
    }

    pub closed spec fn view_bounds(&self) -> Rect {
        self.bounds
    }

    pub closed spec fn view_channel(&self) -> Channel {
        self.channel
    }

    /// The cells of the stencil in row-major order: `Some(bytes)` where a
    /// pixel is present.
    pub closed spec fn pixels(&self) -> Seq<Option<Seq<u8>>> {
        unpack(mask_bits(self.mask), self.data@, stride_of(self.channel))
    }

    /// The pixel at coordinate (`x`, `y`), if the stencil holds one there.
    pub open spec fn at(&self, x: int, y: int) -> Option<Seq<u8>> {
        let b = self.view_bounds();
        if b.x <= x < b.x + b.w && b.y <= y < b.y + b.h {
            self.pixels()[(y - b.y) * b.w + (x - b.x)]
        } else {
            None
        }
    }

    /// Facts every well-formed stencil satisfies.
    pub proof fn lemma_wf(&self)
        requires
            self.wf(),
        ensures
            rect_ok(self.view_bounds()),
            self.pixels().len() == area(self.view_bounds()),
            uniform(self.pixels(), stride_of(self.view_channel())),
    {
        let bits = mask_bits(self.mask);
        let s = stride_of(self.channel);
        assert forall|i: int| 0 <= i < self.pixels().len() && (#[trigger] self.pixels()[i]) is Some
            implies self.pixels()[i]->Some_0.len() == s by {
            lemma_count_true_monotone(bits, i, bits.len() as int);
            assert(bits.subrange(0, bits.len() as int) =~= bits);
            lemma_mul_le(rank(bits, i) + 1, count_true(bits), s);
            assert((rank(bits, i) + 1) * s == rank(bits, i) * s + s) by (nonlinear_arith);
        }
    }

    /// A pixel at any coordinate is one stride long.
    pub proof fn lemma_at_len(&self, x: int, y: int)
        requires
            self.wf(),
        ensures
            self.at(x, y) matches Some(p) ==> p.len() == stride_of(self.view_channel()),
    {
        self.lemma_wf();
        let b = self.view_bounds();
        if b.x <= x < b.x + b.w && b.y <= y < b.y + b.h {
            lemma_cell_index(x - b.x, y - b.y, b.w as int, b.h as int);
            let i = (y - b.y) * b.w + (x - b.x);
            if self.pixels()[i] is Some {
                assert(self.pixels()[i]->Some_0.len() == stride_of(self.view_channel()));
            }
        }
    }

    /// Retrieve rectangle
    pub fn bounds(&self) -> (r: Rect)
        ensures
            r == self.view_bounds(),
    {
        self.bounds
    }

    /// Which cells hold a pixel, in row-major order.
    pub fn mask(&self) -> (r: Vec<bool>)
        requires
            self.wf(),
        ensures
            r@ == presence(self.pixels()),
    {
        let r = self.mask.to_bools();
        assert(r@ =~= presence(self.pixels()));
        r
    }

    /// The bytes of the present pixels, packed in row-major order: the
    /// bytes that unpack, by the mask, into the stencil's pixels.
    pub fn data(&self) -> (r: &[u8])
        requires
            self.wf(),
        ensures
            r@.len() == count_true(presence(self.pixels())) * stride_of(self.view_channel()),
            unpack(presence(self.pixels()), r@, stride_of(self.view_channel())) == self.pixels(),
    {
        assert(presence(self.pixels()) =~= mask_bits(self.mask));
        self.data.as_slice()
    }

    /// A copy of this stencil.
    pub fn duplicate(&self) -> (r: Stencil)
        requires
            self.wf(),
        ensures
            r.wf(),
            r@ == self@,
    {
        let mut data: Vec<u8> = Vec::new();
        append_bytes(&mut data, self.data.as_slice());
        let mut empty_pixel: Vec<u8> = Vec::new();
        append_bytes(&mut empty_pixel, self.empty_pixel.as_slice());
        let r = Stencil {
            bounds: self.bounds,
            mask: self.mask.duplicate(),
            channel: self.channel,
            empty_pixel,
            data,
        };
        assert(r.pixels() =~= self.pixels());
        r
    }

    /// Retrieve channel
    pub fn channel(&self) -> (r: Channel)
        ensures
            r == self.view_channel(),
    {
        self.channel
    }

    /// Create a stencil from pixel data
    pub fn from_buffer(rect: Rect, channel: Channel, buffer: Vec<u8>) -> (r: Self)
        requires
            rect_ok(rect),
            buffer@.len() == area(rect) * stride_of(channel),
        ensures
            r.wf(),
            r.view_bounds() == rect,
            r.view_channel() == channel,
            r.pixels() == Seq::new(area(rect), |i: int| Some(chunk(buffer@, stride_of(channel), i))),
    {
        let len = (rect.w as usize) * (rect.h as usize);
        let ghost s = stride_of(channel);
        let ghost ps = Seq::new(area(rect), |i: int| Some(chunk(buffer@, s, i)));
        let mask = Mask::repeat(true, len);
        proof {
            assert(presence(ps) =~= mask_bits(mask));
            lemma_kept_chunks(buffer@, s, area(rect));
            assert forall|i: int| 0 <= i < ps.len() && (#[trigger] ps[i]) is Some implies ps[i]->Some_0.len() == s by {
                lemma_chunk_len(buffer@, s, area(rect), i);
            }
            lemma_pack_unpack(ps, s);
        }
        Stencil { bounds: rect, mask, channel, empty_pixel: channel.default_pixel(), data: buffer }
    }

    /// Create a stencil from its parts: a presence bit per cell of `rect`,
    /// row by row, and the bytes of the present pixels packed in order.
    pub fn from_raw_parts(rect: Rect, mask: Vec<bool>, channel: Channel, data: Vec<u8>) -> (r: Self)
        requires
            rect_ok(rect),
            mask@.len() == area(rect),
            data@.len() == count_true(mask@) * stride_of(channel),
        ensures
            r.wf(),
            r.view_bounds() == rect,
            r.view_channel() == channel,
            r.pixels() == unpack(mask@, data@, stride_of(channel)),
    {
        let bits = Mask::from_bools(&mask);
        Stencil { bounds: rect, mask: bits, channel, empty_pixel: channel.default_pixel(), data }
    }

    /// Create a new empty stencil
    pub fn new(rect: Rect, channel: Channel) -> (r: Self)
        requires
            rect_ok(rect),
            area(rect) * stride_of(channel) <= usize::MAX,
        ensures
            r.wf(),
            r.view_bounds() == rect,
            r.view_channel() == channel,
            r.pixels() == Seq::new(area(rect), |i: int| Some(default_pixel_of(channel))),
    {
        let len = (rect.w as usize) * (rect.h as usize);
        let stride = channel.pixel_stride();
        let default_pixel = channel.default_pixel();
        let mut buffer: Vec<u8> = Vec::new();
        let mut k: usize = 0;
        while k < len
            invariant
                k <= len,
                len == area(rect),
                stride == stride_of(channel),
                len * stride <= usize::MAX,
                default_pixel@ == default_pixel_of(channel),
                default_pixel@.len() == stride,
                buffer@.len() == k * stride,
                forall|i: int| 0 <= i < k ==> #[trigger] chunk(buffer@, stride as nat, i) == default_pixel@,
            decreases len - k,
        {
            let ghost before = buffer@;
            proof {
                lemma_mul_le((k + 1) as nat, len as nat, stride as nat);
                assert((k + 1) * stride == k * stride + stride) by (nonlinear_arith);
            }
            append_bytes(&mut buffer, default_pixel.as_slice());
            assert forall|i: int| 0 <= i < k + 1 implies #[trigger] chunk(buffer@, stride as nat, i) == default_pixel@ by {
                if i < k {
                    lemma_chunk_len(before, stride as nat, k as nat, i);
                    assert(chunk(buffer@, stride as nat, i) =~= chunk(before, stride as nat, i));
                } else {
                    assert(chunk(buffer@, stride as nat, i) =~= default_pixel@);
                }
            }
            k = k + 1;
        }
        let r = Self::from_buffer(rect, channel, buffer);
        assert(r.pixels() =~= Seq::new(area(rect), |i: int| Some(default_pixel_of(channel))));
        r
    }

    /// Create a stencil from pixel data and masking invisible one based on alpha
    pub fn from_buffer_mask_alpha(rect: Rect, channel: Channel, buffer: Vec<u8>) -> (r: Self)
        requires
            rect_ok(rect),
            buffer@.len() == area(rect) * stride_of(channel),
        ensures
            r.wf(),
            r.view_bounds() == rect,
            r.view_channel() == channel,
            r.pixels() == Seq::new(area(rect), |i: int| masked_pixel(channel, chunk(buffer@, stride_of(channel), i))),
    {
        let len = (rect.w as usize) * (rect.h as usize);
        let stride = channel.pixel_stride();
        let ghost s = stride as nat;
        let ghost target = Seq::new(area(rect), |i: int| masked_pixel(channel, chunk(buffer@, s, i)));
        let alpha: Option<usize> = match channel {
            Channel::Lumaa | Channel::LumaaNormal => Some(1),
            Channel::Rgba | Channel::RgbaNormal => Some(3),
            _ => None,
        };
        let mut mask = Mask::repeat(false, len);
        let mut data: Vec<u8> = Vec::new();
        let mut i: usize = 0;
        while i < len
            invariant
                i <= len,
                len == area(rect),
                stride == s,
                s == stride_of(channel),
                buffer@.len() == len * s,
                target == Seq::new(area(rect), |i: int| masked_pixel(channel, chunk(buffer@, s, i))),
                alpha == (match alpha_index(channel) { Some(k) => Some(k as usize), None => None::<usize> }),
                mask_bits(mask).len() == len,
                forall|j: int| 0 <= j < i ==> mask_bits(mask)[j] == (target[j] is Some),
                forall|j: int| i <= j < len ==> !mask_bits(mask)[j],
                data@ == kept_bytes(target.subrange(0, i as int)),
            decreases len - i,
        {
            proof {
                lemma_chunk_len(buffer@, s, len as nat, i as int);
            }
            let blen = buffer.len();
            let start = i * stride;
            let px = &buffer.as_slice()[start..start + stride];
            assert(px@ == chunk(buffer@, s, i as int));
            let keep = match alpha {
                Some(k) => px[k] != 0,
                None => true,
            };
            assert(keep == (target[i as int] is Some));
            if keep {
                mask.set(i, true);
                append_bytes(&mut data, px);
            }
            assert(target.subrange(0, i + 1).drop_last() =~= target.subrange(0, i as int));
            i = i + 1;
        }
        proof {
            assert(mask_bits(mask) =~= presence(target));
            assert(target.subrange(0, len as int) =~= target);
            assert forall|j: int| 0 <= j < target.len() && (#[trigger] target[j]) is Some implies target[j]->Some_0.len() == s by {
                lemma_chunk_len(buffer@, s, len as nat, j);
            }
            lemma_pack_unpack(target, s);
        }
        Stencil { bounds: rect, mask, channel, empty_pixel: channel.default_pixel(), data }
    }

    /// Try to retrieve a pixel at coordinate
    pub fn try_get(&self, x: i32, y: i32) -> (r: Option<&[u8]>)
        requires
            self.wf(),
        ensures
            match r {
                Some(p) => self.at(x as int, y as int) == Some(p@),
                None => self.at(x as int, y as int) is None,
            },
    {
        let b = self.bounds;
        if b.x <= x && x < b.x + b.w && b.y <= y && y < b.y + b.h {
            let dx = (x - b.x) as usize;
            let dy = (y - b.y) as usize;
            let w = b.w as usize;
            proof {
                lemma_cell_index(dx as int, dy as int, b.w as int, b.h as int);
            }
            self.try_index(dy * w + dx)
        } else {
            None
        }
    }

    /// The pixel at coordinate (`x`, `y`), or the default pixel where the
    /// stencil holds none.
    pub fn index_xy(&self, x: i32, y: i32) -> (r: &[u8])
        requires
            self.wf(),
        ensures
            r@ == match self.at(x as int, y as int) {
                Some(p) => p,
                None => default_pixel_of(self.view_channel()),
            },
    {
        match self.try_get(x, y) {
            Some(p) => p,
            None => self.empty_pixel.as_slice(),
        }
    }

    /// The pixel at cell `index`, or the default pixel where the stencil
    /// holds none.
    pub fn index(&self, index: usize) -> (r: &[u8])
        requires
            self.wf(),
            index < area(self.view_bounds()),
        ensures
            r@ == match self.pixels()[index as int] {
                Some(p) => p,
                None => default_pixel_of(self.view_channel()),
            },
    {
        match self.try_index(index) {
            Some(p) => p,
            None => self.empty_pixel.as_slice(),
        }
    }

    /// Iterate over pixel of this stencil: coordinates and bytes of every
    /// present pixel, in row-major order.
    pub fn iter(&self) -> (r: Vec<(i32, i32, Vec<u8>)>)
        requires
            self.wf(),
        ensures
            r@.len() == entries(self.pixels(), self.view_bounds(), area(self.view_bounds())).len(),
            forall|k: int| 0 <= k < r@.len() ==> {
                let e = #[trigger] entries(self.pixels(), self.view_bounds(), area(self.view_bounds()))[k];
                &&& r@[k].0 == e.0
                &&& r@[k].1 == e.1
                &&& r@[k].2@ == e.2
            },
    {
        let b = self.bounds;
        let len = self.mask.len();
        let stride = self.channel.pixel_stride();
        let ghost bits = mask_bits(self.mask);
        let ghost ps = self.pixels();
        let mut out: Vec<(i32, i32, Vec<u8>)> = Vec::new();
        let mut d: usize = 0;
        let mut i: usize = 0;
        while i < len
            invariant
                self.wf(),
                b == self.view_bounds(),
                ps == self.pixels(),
                bits == mask_bits(self.mask),
                len == bits.len(),
                len == area(b),
                stride == stride_of(self.channel),
                i <= len,
                d == rank(bits, i as int),
                out@.len() == entries(ps, b, i as nat).len(),
                forall|k: int| 0 <= k < out@.len() ==> {
                    let e = #[trigger] entries(ps, b, i as nat)[k];
                    &&& out@[k].0 == e.0
                    &&& out@[k].1 == e.1
                    &&& out@[k].2@ == e.2
                },
            decreases len - i,
        {
            proof {
                lemma_count_true_prefix_step(bits, i as int);
            }
            let ghost prev = entries(ps, b, i as nat);
            if self.mask.get(i) {
                let dlen = self.data.len();
                proof {
                    lemma_count_true_monotone(bits, i as int, bits.len() as int);
                    assert(bits.subrange(0, bits.len() as int) =~= bits);
                    lemma_mul_le((d + 1) as nat, count_true(bits), stride as nat);
                    assert((d + 1) * stride == d * stride + stride) by (nonlinear_arith);
                }
                let start = d * stride;
                let mut px: Vec<u8> = Vec::new();
                append_bytes(&mut px, &self.data.as_slice()[start..start + stride]);
                let w = b.w as usize;
                proof {
                    assert(b.w > 0) by (nonlinear_arith)
                        requires i < b.w * b.h, b.w >= 0, b.h >= 0, i >= 0;
                    vstd::arithmetic::div_mod::lemma_multiply_divide_lt(i as int, w as int, b.h as int);
                }
                let x = (i % w) as i32 + b.x;
                let y = (i / w) as i32 + b.y;
                out.push((x, y, px));
                d = d + 1;
            }
            assert(entries(ps, b, (i + 1) as nat) == prev + match ps[i as int] {
                Some(p) => seq![((i as int) % (b.w as int) + b.x, (i as int) / (b.w as int) + b.y, p)],
                None => seq![],
            });
            i = i + 1;
        }
        out
    }

    /// Merge two stencil and blend them together if need be.
    ///
    /// The result covers the union of both bounds. A cell present in only one
    /// stencil keeps that pixel; a cell present in both gets
    /// `blend(front, back)`, and is left empty where that result is fully
    /// transparent.
    pub fn merge<F: Fn(&[u8], &[u8]) -> Vec<u8>>(frt: &Self, bck: &Self, blend: F) -> (r: Self)
        requires
            frt.wf(),
            bck.wf(),
            frt.view_channel() == bck.view_channel(),
            frt.view_bounds().union_fits(bck.view_bounds()),
            rect_ok(frt.view_bounds().union_spec(bck.view_bounds())),
            area(frt.view_bounds().union_spec(bck.view_bounds())) * stride_of(frt.view_channel()) <= i32::MAX,
            forall|a: &[u8], b: &[u8]|
                a@.len() == stride_of(frt.view_channel()) && b@.len() == stride_of(frt.view_channel())
                    ==> call_requires(blend, (a, b)),
            forall|a: &[u8], b: &[u8], o: Vec<u8>|
                call_ensures(blend, (a, b), o) && a@.len() == stride_of(frt.view_channel())
                    ==> o@.len() == stride_of(frt.view_channel()),
        ensures
            r.wf(),
            r.view_bounds() == frt.view_bounds().union_spec(bck.view_bounds()),
            r.view_channel() == frt.view_channel(),
            forall|i: int| 0 <= i < area(r.view_bounds()) ==> merged_cell(
                r.view_channel(),
                frt.at(cell_x(r.view_bounds(), i), cell_y(r.view_bounds(), i)),
                bck.at(cell_x(r.view_bounds(), i), cell_y(r.view_bounds(), i)),
                blend,
                #[trigger] r.pixels()[i],
            ),
    {
        proof {
            frt.lemma_wf();
            bck.lemma_wf();
        }
        let channel = frt.channel;
        let rect = frt.bounds.union(bck.bounds);
        let stride = channel.pixel_stride();
        let ghost s = stride as nat;
        let len = (rect.w as usize) * (rect.h as usize);
        let mut mask = Mask::repeat(false, len);
        let mut data: Vec<u8> = Vec::new();
        let ghost mut ps: Seq<Option<Seq<u8>>> = seq![];
        let mut i: usize = 0;
        while i < len
            invariant
                frt.wf(),
                bck.wf(),
                channel == frt.view_channel(),
                channel == bck.view_channel(),
                rect == frt.view_bounds().union_spec(bck.view_bounds()),
                rect_ok(rect),
                len == area(rect),
                stride == s,
                s == stride_of(channel),
                forall|a: &[u8], b: &[u8]|
                    a@.len() == s && b@.len() == s ==> call_requires(blend, (a, b)),
                forall|a: &[u8], b: &[u8], o: Vec<u8>|
                    call_ensures(blend, (a, b), o) && a@.len() == s ==> o@.len() == s,
                i <= len,
                ps.len() == i,
                uniform(ps, s),
                mask_bits(mask).len() == len,
                forall|j: int| 0 <= j < i ==> mask_bits(mask)[j] == (ps[j] is Some),
                forall|j: int| i <= j < len ==> !mask_bits(mask)[j],
                data@ == kept_bytes(ps),
                forall|j: int| 0 <= j < i ==> merged_cell(
                    channel,
                    frt.at(cell_x(rect, j), cell_y(rect, j)),
                    bck.at(cell_x(rect, j), cell_y(rect, j)),
                    blend,
                    #[trigger] ps[j],
                ),
            decreases len - i,
        {
            let w = rect.w as usize;
            proof {
                assert(rect.w > 0) by (nonlinear_arith)
                    requires i < rect.w * rect.h, rect.w >= 0, rect.h >= 0, i >= 0;
                vstd::arithmetic::div_mod::lemma_multiply_divide_lt(i as int, w as int, rect.h as int);
            }
            let x = (i % w) as i32 + rect.x;
            let y = (i / w) as i32 + rect.y;
            let frt_buf = frt.try_get(x, y);
            let bck_buf = bck.try_get(x, y);
            proof {
                frt.lemma_at_len(x as int, y as int);
                bck.lemma_at_len(x as int, y as int);
            }
            let ghost cell: Option<Seq<u8>>;
            match (frt_buf, bck_buf) {
                (None, None) => {
                    proof { cell = None; }
                },
                (Some(f), None) => {
                    mask.set(i, true);
                    append_bytes(&mut data, f);
                    proof { cell = Some(f@); }
                },
                (None, Some(b)) => {
                    mask.set(i, true);
                    append_bytes(&mut data, b);
                    proof { cell = Some(b@); }
                },
                (Some(f), Some(b)) => {
                    assert(f@.len() == s && b@.len() == s);
                    let out = blend(f, b);
                    assert(out@.len() == s);
                    let keep = match channel {
                        Channel::Lumaa | Channel::LumaaNormal => out[1] > 0,
                        Channel::Rgba | Channel::RgbaNormal => out[3] > 0,
                        _ => true,
                    };
                    if keep {
                        mask.set(i, true);
                        append_bytes(&mut data, out.as_slice());
                    }
                    proof {
                        cell = masked_pixel(channel, out@);
                        assert(merged_cell(channel, Some(f@), Some(b@), blend, cell));
                    }
                },
            }
            proof {
                let old_ps = ps;
                ps = ps.push(cell);
                assert(ps.drop_last() =~= old_ps);
                assert forall|j: int| 0 <= j < ps.len() && (#[trigger] ps[j]) is Some implies ps[j]->Some_0.len() == s by {
                    if j < old_ps.len() {
                        assert(ps[j] == old_ps[j]);
                    }
                }
                assert forall|j: int| 0 <= j < i + 1 implies merged_cell(
                    channel,
                    frt.at(cell_x(rect, j), cell_y(rect, j)),
                    bck.at(cell_x(rect, j), cell_y(rect, j)),
                    blend,
                    #[trigger] ps[j],
                ) by {
                    if j < i {
                        assert(ps[j] == old_ps[j]);
                    }
                }
            }
            i = i + 1;
        }
        proof {
            assert(mask_bits(mask) =~= presence(ps));
            lemma_pack_unpack(ps, s);
        }
        Stencil { bounds: rect, mask, channel, empty_pixel: channel.default_pixel(), data }
    }

    /// Text form of the stencil: its presence mask drawn in braille, a cell
    /// per two columns and four rows of cells of the stencil.
    pub fn to_debug_string(&self) -> (r: String)
        requires
            self.wf(),
            4 * self.view_bounds().w * (self.view_bounds().h / 4 + 2) <= usize::MAX,
        ensures
            r@ == "Stencil ( "@ + braille_text(
                presence(self.pixels()),
                self.view_bounds().w as int,
                ((self.view_bounds().w + 1) / 2) as nat,
                ((self.view_bounds().h + 3) / 4) as nat,
                "\n           "@,
            ) + " )"@,
    {
        let b = self.bounds;
        proof {
            let bits = mask_bits(self.mask);
            assert(bits =~= presence(self.pixels()));
            assert forall|i: int| 0 <= i < bits.len() && bits[i] implies #[trigger] (i / (b.w as int)) / 4 < (b.h + 3) / 4 by {
                assert(b.w > 0) by (nonlinear_arith) requires bits.len() == b.w * b.h, 0 <= i < bits.len(), b.w >= 0, b.h >= 0;
                assert(i / (b.w as int) < b.h) by (nonlinear_arith)
                    requires 0 <= i < b.w * b.h, b.w > 0, b.h >= 0;
            }
            if bits.len() > 0 {
                assert(b.w > 0) by (nonlinear_arith) requires bits.len() == b.w * b.h, bits.len() > 0, b.w >= 0, b.h >= 0;
            }
        }
        let text = braille_grid(&self.mask, b.w as usize, b.h as usize, "\n           ");
        let mut out = String::from_str("Stencil ( ");
        out.append(text.as_str());
        out.append(" )");
        out
    }

    /// Try to retrieve a pixel at index
    pub fn try_index(&self, index: usize) -> (r: Option<&[u8]>)
        requires
            self.wf(),
            index < area(self.view_bounds()),
        ensures
            match r {
                Some(p) => self.pixels()[index as int] == Some(p@),
                None => self.pixels()[index as int] is None,
            },
    {
        if self.mask.get(index) {
            let stride = self.channel.pixel_stride();
            let count = self.mask.count_ones_before(index);
            let ghost bits = mask_bits(self.mask);
            proof {
                lemma_count_true_monotone(bits, index as int, bits.len() as int);
                assert(bits.subrange(0, bits.len() as int) =~= bits);
                lemma_mul_le((count + 1) as nat, count_true(bits), stride as nat);
                assert((count + 1) * stride == count * stride + stride) by (nonlinear_arith);
            }
            let dlen = self.data.len();
            assert(count * stride + stride <= dlen);
            let start = count * stride;
            let p = &self.data.as_slice()[start..start + stride];
            Some(p)
        } else {
            None
        }
    }
}

proof fn lemma_chunk_len(buffer: Seq<u8>, s: nat, n: nat, i: int)
    requires
        buffer.len() == n * s,
        0 <= i < n,
    ensures
        chunk(buffer, s, i).len() == s,
        0 <= i * s,
        i * s + s <= buffer.len(),
{
    lemma_mul_le((i + 1) as nat, n, s);
    assert((i + 1) * s == i * s + s) by (nonlinear_arith);
    assert(0 <= i * s) by (nonlinear_arith) requires 0 <= i;
}

/// Appends the bytes of `src`.
fn append_bytes(out: &mut Vec<u8>, src: &[u8])
    ensures
        final(out)@ == old(out)@ + src@,
{
    let ghost start = out@;
    let n = src.len();
    let mut k: usize = 0;
    while k < n
        invariant
            k <= n,
            n == src@.len(),
            out@ == start + src@.subrange(0, k as int),
        decreases n - k,
    {
        out.push(src[k]);
        k = k + 1;
        assert(out@ =~= start + src@.subrange(0, k as int));
    }
    assert(src@.subrange(0, n as int) =~= src@);
}

/// Position of the opacity byte within a pixel of layout `c`, for the
/// layouts that carry one.
pub open spec fn alpha_index(c: Channel) -> Option<nat> {
    match c {
        Channel::Lumaa | Channel::LumaaNormal => Some(1),
        Channel::Rgba | Channel::RgbaNormal => Some(3),
        _ => None,
    }
}

/// A pixel read from a buffer, dropped when it is fully transparent.
pub open spec fn masked_pixel(c: Channel, p: Seq<u8>) -> Option<Seq<u8>> {
    match alpha_index(c) {
        Some(k) => if p[k as int] == 0 { None } else { Some(p) },
        None => Some(p),
    }
}

/// The coordinates and bytes of the present pixels among the first `n`
/// cells of `ps`, cells laid out row-major over `b`.
pub open spec fn entries(ps: Seq<Option<Seq<u8>>>, b: Rect, n: nat) -> Seq<(int, int, Seq<u8>)>
    decreases n,
{
    if n == 0 {
        seq![]
    } else {
        let i = n - 1;
        entries(ps, b, (n - 1) as nat) + match ps[i] {
            Some(p) => seq![(i % (b.w as int) + b.x, i / (b.w as int) + b.y, p)],
            None => seq![],
        }
    }
}

/// Column of cell `i` of rectangle `b`.
pub open spec fn cell_x(b: Rect, i: int) -> int {
    i % (b.w as int) + b.x
}

/// Row of cell `i` of rectangle `b`.
pub open spec fn cell_y(b: Rect, i: int) -> int {
    i / (b.w as int) + b.y
}

/// What cell of a merge holds, given the front and back pixels at its
/// coordinate: the one present pixel, or the blend of both when the blend
/// is not fully transparent.
pub open spec fn merged_cell<F: Fn(&[u8], &[u8]) -> Vec<u8>>(
    c: Channel,
    f: Option<Seq<u8>>,
    b: Option<Seq<u8>>,
    blend: F,
    out: Option<Seq<u8>>,
) -> bool {
    match (f, b) {
        (None, None) => out is None,
        (Some(p), None) => out == Some(p),
        (None, Some(q)) => out == Some(q),
        (Some(p), Some(q)) => exists|pa: &[u8], qa: &[u8], o: Vec<u8>|
            pa@ == p && qa@ == q && call_ensures(blend, (pa, qa), o) && out == masked_pixel(c, o@),
    }
}

proof fn lemma_cell_index(dx: int, dy: int, w: int, h: int)
    requires
        0 <= dx < w,
        0 <= dy < h,
    ensures
        0 <= dy * w + dx < w * h,
{
    assert(0 <= dy * w + dx < w * h) by (nonlinear_arith)
        requires 0 <= dx < w, 0 <= dy < h;
}

/// Consecutive chunks of a buffer of exactly `n` pixels concatenate back to the buffer.
proof fn lemma_kept_chunks(buffer: Seq<u8>, s: nat, n: nat)
    requires
        buffer.len() == n * s,
    ensures
        kept_bytes(Seq::new(n, |i: int| Some(chunk(buffer, s, i)))) == buffer,
    decreases n,
{
    let ps = Seq::new(n, |i: int| Some(chunk(buffer, s, i)));
    if n == 0 {
        assert(buffer.len() == 0) by (nonlinear_arith) requires buffer.len() == n * s, n == 0;
        assert(kept_bytes(ps) == Seq::<u8>::empty());
        assert(kept_bytes(ps) =~= buffer);
    } else {
        let m = (n - 1) as nat;
        assert(n * s == m * s + s) by (nonlinear_arith) requires m == n - 1;
        let prefix = buffer.subrange(0, (m * s) as int);
        lemma_kept_chunks(prefix, s, m);
        assert forall|i: int| 0 <= i < m implies chunk(prefix, s, i) == chunk(buffer, s, i) by {
            lemma_mul_le((i + 1) as nat, m, s);
            assert((i + 1) * s == i * s + s) by (nonlinear_arith);
            assert(chunk(prefix, s, i) =~= chunk(buffer, s, i));
        }
        assert(ps.drop_last() =~= Seq::new(m, |i: int| Some(chunk(prefix, s, i))));
        assert(kept_bytes(ps.drop_last()) == prefix);
        assert(ps.last() == Some(chunk(buffer, s, m as int)));
        assert(kept_bytes(ps) == prefix + chunk(buffer, s, m as int));
        assert(kept_bytes(ps) =~= buffer);
    }
}

} // verus!
