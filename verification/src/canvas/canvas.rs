//! A canvas: stencils laid on a plane, found by position through an
//! R-tree of their bounds.
use vstd::prelude::*;
use vstd::multiset::Multiset;
use rstar::RTree;
use rstar::primitives::{GeomWithData, Rectangle};
use crate::canvas::CanvasError;
use crate::canvas::rect::Rect;
use crate::canvas::stencil::{Stencil, StencilView, rect_ok, area, merged_cell, cell_x, cell_y};
use crate::color::channel::{Channel, ChannelError, stride_of, lemma_component_inside_pixel};

verus! {

/// The corners of a box, low then high, and the place of the stencil it
/// bounds.
pub type Entry = (i32, i32, i32, i32, usize);

/// An R-tree of boxes, each tagged with a stencil's place.
#[verifier::external_body]
pub struct StencilIndex {
    tree: RTree<GeomWithData<Rectangle<[i32; 2]>, usize>>,
}

/// The boxes an index holds.
pub uninterp spec fn index_entries(index: StencilIndex) -> Multiset<Entry>;

/// The box contains the point; its edges count as inside.
pub open spec fn entry_contains(e: Entry, x: int, y: int) -> bool {
    e.0 <= x <= e.2 && e.1 <= y <= e.3
}

/// `rstar::RTree::bulk_load`: a tree holding exactly the given boxes.
#[verifier::external_body]
fn index_load(entries: Vec<Entry>) -> (r: StencilIndex)
    requires
        forall|i: int| 0 <= i < entries@.len() ==> entries@[i].0 <= entries@[i].2 && entries@[i].1 <= entries@[i].3,
    ensures
        index_entries(r) == entries@.to_multiset(),
{
    StencilIndex {
        tree: RTree::bulk_load(
            entries.into_iter().map(|(x0, y0, x1, y1, i)| GeomWithData::new(Rectangle::from_corners([x0, y0], [x1, y1]), i)).collect(),
        ),
    }
}

/// `rstar::RTree::locate_at_point`: the tag of some box that contains the
/// point, or `None` when no box does. Which box, when several do, depends
/// on how the tree was built, and is left unsaid.
#[verifier::external_body]
fn index_locate(index: &StencilIndex, x: i32, y: i32) -> (r: Option<usize>)
    ensures
        match r {
            Some(i) => exists|e: Entry| index_entries(*index).count(e) > 0 && e.4 == i && entry_contains(e, x as int, y as int),
            None => forall|e: Entry| index_entries(*index).count(e) > 0 ==> !entry_contains(e, x as int, y as int),
        },
{
    index.tree.locate_at_point(&[x, y]).map(|g| g.data)
}

/// The low and high corners of a box.
#[derive(Debug, Clone, Copy, PartialEq, Eq, Structural)]
pub struct Corners {
    pub x0: i32,
    pub y0: i32,
    pub x1: i32,
    pub y1: i32,
}

/// Each side of the box is the side of some box of `m`.
pub open spec fn reaches_each_side(m: Multiset<Entry>, c: Corners) -> bool {
    &&& exists|e: Entry| m.count(e) > 0 && e.0 == c.x0
    &&& exists|e: Entry| m.count(e) > 0 && e.1 == c.y0
    &&& exists|e: Entry| m.count(e) > 0 && e.2 == c.x1
    &&& exists|e: Entry| m.count(e) > 0 && e.3 == c.y1
}

/// `rstar::RTree::root` and `envelope`: the smallest box holding every box
/// of a tree that holds some.
#[verifier::external_body]
fn index_envelope(index: &StencilIndex) -> (r: Corners)
    requires
        index_entries(*index).len() > 0,
    ensures
        forall|e: Entry| index_entries(*index).count(e) > 0 ==> r.x0 <= e.0 && r.y0 <= e.1 && e.2 <= r.x1 && e.3 <= r.y1,
        reaches_each_side(index_entries(*index), r),
{
    let aabb = index.tree.root().envelope();
    let (lower, upper) = (aabb.lower(), aabb.upper());
    Corners { x0: lower[0], y0: lower[1], x1: upper[0], y1: upper[1] }
}

/// A stencil's bounds as a box tagged with its place `i`.
pub open spec fn entry_of(b: Rect, i: int) -> Entry {
    (b.x, b.y, (b.x + b.w) as i32, (b.y + b.h) as i32, i as usize)
}

/// The boxes of a list of stencils, each tagged with its place.
pub open spec fn entries_of(vs: Seq<StencilView>) -> Seq<Entry> {
    Seq::new(vs.len(), |i: int| entry_of(vs[i].bounds, i))
}

/// The values of a list of stencils.
pub open spec fn views(s: Seq<Stencil>) -> Seq<StencilView> {
    Seq::new(s.len(), |i: int| s[i]@)
}

/// A canvas as values: its pixel layout and its stencils, in order.
pub struct CanvasView {
    pub channel: Channel,
    pub stencils: Seq<StencilView>,
}

/// Stencils laid on a plane, all of one pixel layout, with an R-tree of
/// their bounds to find the one under a point.
pub struct Canvas {
    channel: Channel,
    empty_pixel: Vec<u8>,
    index: StencilIndex,
    stencils: Vec<Stencil>,
}

/// What a canvas gives where no stencil has a pixel: one stride of zero
/// bytes.
pub open spec fn blank_pixel_of(c: Channel) -> Seq<u8> {
    Seq::new(stride_of(c), |i: int| 0u8)
}

/// A new stencil bounded by `a` lies over an old one bounded by `b`: it
/// holds it or the two overlap.
pub open spec fn covers(a: Rect, b: Rect) -> bool {
    ||| (a.x <= b.x && b.x + b.w <= a.x + a.w && a.y <= b.y && b.y + b.h <= a.y + a.h)
    ||| (a.x + a.w > b.x && a.x < b.x + b.w && a.y + a.h > b.y && a.y < b.y + b.h)
}

/// Two stencils with these bounds and layout can be merged.
pub open spec fn merge_ok(a: Rect, b: Rect, c: Channel) -> bool {
    &&& a.union_fits(b)
    &&& rect_ok(a.union_spec(b))
    &&& area(a.union_spec(b)) * stride_of(c) <= i32::MAX
}

/// `o` is what merging front `f` with back `b` through `blend` gives.
pub open spec fn merged_view<F: Fn(&[u8], &[u8]) -> Vec<u8>>(f: StencilView, b: StencilView, blend: F, o: StencilView) -> bool {
    &&& o.bounds == f.bounds.union_spec(b.bounds)
    &&& o.channel == f.channel
    &&& o.pixels.len() == area(o.bounds)
    &&& forall|i: int| 0 <= i < area(o.bounds) ==> merged_cell(
        o.channel,
        crate::canvas::stencil::view_at(f, cell_x(o.bounds, i), cell_y(o.bounds, i)),
        crate::canvas::stencil::view_at(b, cell_x(o.bounds, i), cell_y(o.bounds, i)),
        blend,
        #[trigger] o.pixels[i],
    )
}

/// `out` is what laying stencil `s` on canvas `c` gives: every stencil `s`
/// lies over is merged with it, in place, old in front; when it lies over
/// none it comes after the others.
pub open spec fn applied<F: Fn(&[u8], &[u8]) -> Vec<u8>>(c: CanvasView, s: StencilView, blend: F, out: CanvasView) -> bool {
    &&& out.channel == c.channel
    &&& if exists|i: int| 0 <= i < c.stencils.len() && covers(s.bounds, #[trigger] c.stencils[i].bounds) {
        &&& out.stencils.len() == c.stencils.len()
        &&& forall|i: int| 0 <= i < c.stencils.len() ==> if covers(s.bounds, #[trigger] c.stencils[i].bounds) {
            merged_view(c.stencils[i], s, blend, out.stencils[i])
        } else {
            out.stencils[i] == c.stencils[i]
        }
    } else {
        out.stencils == c.stencils.push(s)
    }
}

/// What a lookup at (`x`, `y`) may give: nothing when no stencil's box
/// holds the point; otherwise the cell at the point of some stencil whose
/// box holds it.
pub open spec fn lookup_ok(c: CanvasView, x: int, y: int, r: Option<Seq<u8>>) -> bool {
    ||| r is None && forall|i: int| 0 <= i < c.stencils.len() ==> !entry_contains(#[trigger] entry_of(c.stencils[i].bounds, i), x, y)
    ||| exists|i: int| 0 <= i < c.stencils.len() && entry_contains(#[trigger] entry_of(c.stencils[i].bounds, i), x, y)
        && crate::canvas::stencil::view_at(c.stencils[i], x, y) == r
}

pub open spec fn opt_bytes(r: Option<&[u8]>) -> Option<Seq<u8>> {
    match r {
        Some(p) => Some(p@),
        None => None,
    }
}

/// The smallest rectangle holding every stencil's bounds; empty at the
/// origin when there is no stencil.
pub open spec fn spans(c: CanvasView, r: Rect) -> bool {
    if c.stencils.len() == 0 {
        r == (Rect { x: 0, y: 0, w: 0, h: 0 })
    } else {
        &&& forall|i: int| 0 <= i < c.stencils.len() ==> r.x <= #[trigger] c.stencils[i].bounds.x
            && r.y <= c.stencils[i].bounds.y
            && c.stencils[i].bounds.x + c.stencils[i].bounds.w <= r.x + r.w
            && c.stencils[i].bounds.y + c.stencils[i].bounds.h <= r.y + r.h
        &&& exists|i: int| 0 <= i < c.stencils.len() && r.x == #[trigger] c.stencils[i].bounds.x
        &&& exists|i: int| 0 <= i < c.stencils.len() && r.y == #[trigger] c.stencils[i].bounds.y
        &&& exists|i: int| 0 <= i < c.stencils.len() && r.x + r.w == #[trigger] c.stencils[i].bounds.x
            + c.stencils[i].bounds.w
        &&& exists|i: int| 0 <= i < c.stencils.len() && r.y + r.h == #[trigger] c.stencils[i].bounds.y
            + c.stencils[i].bounds.h
    }
}

/// The span of every pair of stencils is representable.
pub open spec fn spans_fit(c: CanvasView) -> bool {
    forall|i: int, j: int| 0 <= i < c.stencils.len() && 0 <= j < c.stencils.len() ==>
        #[trigger] c.stencils[j].bounds.x + c.stencils[j].bounds.w - #[trigger] c.stencils[i].bounds.x <= i32::MAX
        && c.stencils[j].bounds.y + c.stencils[j].bounds.h - c.stencils[i].bounds.y <= i32::MAX
}

impl View for Canvas {
    type V = CanvasView;

    closed spec fn view(&self) -> CanvasView {
        CanvasView { channel: self.channel, stencils: views(self.stencils@) }
    }
}

/// Every stencil is well formed and laid out as `c`.
pub open spec fn stencils_ok(s: Seq<Stencil>, c: Channel) -> bool {
    forall|i: int| 0 <= i < s.len() ==> (#[trigger] s[i]).wf() && s[i].view_channel() == c
}

fn build_index(stencils: &Vec<Stencil>) -> (r: StencilIndex)
    requires
        forall|i: int| 0 <= i < stencils@.len() ==> (#[trigger] stencils@[i]).wf(),
    ensures
        index_entries(r) == entries_of(views(stencils@)).to_multiset(),
{
    let mut entries: Vec<Entry> = Vec::new();
    let mut k: usize = 0;
    while k < stencils.len()
        invariant
            k <= stencils.len(),
            forall|i: int| 0 <= i < stencils@.len() ==> (#[trigger] stencils@[i]).wf(),
            entries@ == entries_of(views(stencils@)).subrange(0, k as int),
            forall|i: int| 0 <= i < entries@.len() ==> entries@[i].0 <= entries@[i].2 && entries@[i].1 <= entries@[i].3,
        decreases stencils.len() - k,
    {
        let b = stencils[k].bounds();
        proof { stencils@[k as int].lemma_wf(); }
        entries.push((b.x, b.y, b.x + b.w, b.y + b.h, k));
        k = k + 1;
        assert(entries@ =~= entries_of(views(stencils@)).subrange(0, k as int));
    }
    assert(entries_of(views(stencils@)).subrange(0, stencils@.len() as int) =~= entries_of(views(stencils@)));
    index_load(entries)
}

impl Canvas {
    /// Well-formedness: the stencils are well formed and share the
    /// canvas's layout, and the tree holds exactly their boxes.
    pub closed spec fn wf(&self) -> bool {
        &&& stencils_ok(self.stencils@, self.channel)
        &&& index_entries(self.index) == entries_of(views(self.stencils@)).to_multiset()
        &&& self.empty_pixel@ == blank_pixel_of(self.channel)
    }

    /// Retrieve channel
    pub fn channel(&self) -> (r: Channel)
        ensures
            r == self@.channel,
    {
        self.channel
    }

    /// Retrieve stencils
    pub fn stencils(&self) -> (r: &Vec<Stencil>)
        ensures
            views(r@) == self@.stencils,
    {
        &self.stencils
    }

    /// Create a canvas from its stencils.
    pub fn from_raw_parts(channel: Channel, stencils: Vec<Stencil>) -> (r: Self)
        requires
            stencils_ok(stencils@, channel),
        ensures
            r.wf(),
            r@ == (CanvasView { channel, stencils: views(stencils@) }),
    {
        let index = build_index(&stencils);
        let empty_pixel = vec![0u8; channel.pixel_stride()];
        assert(empty_pixel@ =~= blank_pixel_of(channel));
        Canvas { channel, empty_pixel, index, stencils }
    }

    /// Create an empty canvas
    pub fn new(channel: Channel) -> (r: Self)
        ensures
            r.wf(),
            r@ == (CanvasView { channel, stencils: Seq::empty() }),
    {
        let r = Canvas::from_raw_parts(channel, Vec::new());
        assert(views(Seq::<Stencil>::empty()) =~= Seq::<StencilView>::empty());
        r
    }

    /// Create a canvas from a stencil
    pub fn from_stencil(stencil: Stencil) -> (r: Self)
        requires
            stencil.wf(),
        ensures
            r.wf(),
            r@ == (CanvasView { channel: stencil.view_channel(), stencils: seq![stencil@] }),
    {
        let channel = stencil.channel();
        let mut stencils: Vec<Stencil> = Vec::new();
        stencils.push(stencil);
        let r = Canvas::from_raw_parts(channel, stencils);
        assert(r@.stencils =~= seq![r@.stencils[0]]);
        r
    }

    /// Try to retrieve a pixel at coordinate
    pub fn try_get(&self, x: i32, y: i32) -> (r: Option<&[u8]>)
        requires
            self.wf(),
        ensures
            lookup_ok(self@, x as int, y as int, opt_bytes(r)),
    {
        let ghost es = entries_of(views(self.stencils@));
        let n = self.stencils.len();
        proof {
            broadcast use vstd::seq_lib::group_to_multiset_ensures;
        }
        match index_locate(&self.index, x, y) {
            Some(i) => {
                proof {
                    let e = choose|e: Entry| index_entries(self.index).count(e) > 0 && e.4 == i
                        && entry_contains(e, x as int, y as int);
                    assert(es.contains(e));
                    let j = choose|j: int| 0 <= j < es.len() && es[j] == e;
                    assert(es[j] == entry_of(views(self.stencils@)[j].bounds, j));
                    assert(j <= n);
                    assert(j == i as int);
                }
                let r = self.stencils[i].try_get(x, y);
                proof {
                    assert(self.stencils@[i as int]@ == self@.stencils[i as int]);
                }
                r
            },
            None => {
                proof {
                    assert forall|i: int| 0 <= i < self@.stencils.len() implies !entry_contains(
                        #[trigger] entry_of(self@.stencils[i].bounds, i), x as int, y as int) by {
                        assert(es[i] == entry_of(self@.stencils[i].bounds, i));
                        assert(es.contains(es[i]));
                    }
                }
                None
            },
        }
    }

    /// Retrieve canvas bounds
    pub fn bounds(&self) -> (r: Rect)
        requires
            self.wf(),
            spans_fit(self@),
        ensures
            spans(self@, r),
    {
        if self.stencils.len() == 0 {
            return Rect::new(0, 0, 0, 0);
        }
        let ghost es = entries_of(views(self.stencils@));
        let ghost vs = self@.stencils;
        proof {
            broadcast use vstd::seq_lib::group_to_multiset_ensures;
            assert(es.contains(es[0]));
        }
        let c = index_envelope(&self.index);
        proof {
            assert forall|i: int| 0 <= i < vs.len() implies c.x0 <= #[trigger] vs[i].bounds.x
                && c.y0 <= vs[i].bounds.y && vs[i].bounds.x + vs[i].bounds.w <= c.x1
                && vs[i].bounds.y + vs[i].bounds.h <= c.y1 by {
                self.stencils@[i].lemma_wf();
                assert(vs[i] == self.stencils@[i]@);
                assert(es[i] == entry_of(vs[i].bounds, i));
                assert(es.contains(es[i]));
                assert(index_entries(self.index).count(es[i]) > 0);
            }
            let e0 = choose|e: Entry| index_entries(self.index).count(e) > 0 && e.0 == c.x0;
            let e2 = choose|e: Entry| index_entries(self.index).count(e) > 0 && e.2 == c.x1;
            let e1 = choose|e: Entry| index_entries(self.index).count(e) > 0 && e.1 == c.y0;
            let e3 = choose|e: Entry| index_entries(self.index).count(e) > 0 && e.3 == c.y1;
            assert(es.contains(e0) && es.contains(e1) && es.contains(e2) && es.contains(e3));
            let i0 = choose|j: int| 0 <= j < es.len() && es[j] == e0;
            let i1 = choose|j: int| 0 <= j < es.len() && es[j] == e1;
            let i2 = choose|j: int| 0 <= j < es.len() && es[j] == e2;
            let i3 = choose|j: int| 0 <= j < es.len() && es[j] == e3;
            self.stencils@[i2].lemma_wf();
            self.stencils@[i3].lemma_wf();
            assert(vs[i0].bounds.x == c.x0);
            assert(vs[i1].bounds.y == c.y0);
            assert(vs[i2].bounds.x + vs[i2].bounds.w == c.x1);
            assert(vs[i3].bounds.y + vs[i3].bounds.h == c.y1);
            assert(c.x1 - c.x0 <= i32::MAX && c.y1 - c.y0 <= i32::MAX);
        }
        let r = Rect::new(c.x0, c.y0, c.x1 - c.x0, c.y1 - c.y0);
        proof {
            let i0 = choose|j: int| 0 <= j < vs.len() && vs[j].bounds.x == c.x0;
            let i1 = choose|j: int| 0 <= j < vs.len() && vs[j].bounds.y == c.y0;
            let i2 = choose|j: int| 0 <= j < vs.len() && vs[j].bounds.x + vs[j].bounds.w == c.x1;
            let i3 = choose|j: int| 0 <= j < vs.len() && vs[j].bounds.y + vs[j].bounds.h == c.y1;
            assert(r.x == vs[i0].bounds.x);
            assert(r.y == vs[i1].bounds.y);
            assert(r.x + r.w == vs[i2].bounds.x + vs[i2].bounds.w);
            assert(r.y + r.h == vs[i3].bounds.y + vs[i3].bounds.h);
        }
        r
    }

    /// The pixel at a coordinate: the one a lookup finds, or a pixel of
    /// zero bytes where it finds none.
    pub fn index(&self, x: i32, y: i32) -> (r: &[u8])
        requires
            self.wf(),
        ensures
            lookup_ok(self@, x as int, y as int, Some(r@)) || (r@ == blank_pixel_of(self@.channel)
                && lookup_ok(self@, x as int, y as int, None)),
    {
        match self.try_get(x, y) {
            Some(p) => p,
            None => self.empty_pixel.as_slice(),
        }
    }
}

/// The stencils whose bounds a crop to `region` keeps, in order.
pub open spec fn kept(vs: Seq<StencilView>, region: Rect) -> Seq<StencilView>
    decreases vs.len(),
{
    if vs.len() == 0 {
        vs
    } else if covers(region, vs.last().bounds) {
        kept(vs.drop_last(), region).push(vs.last())
    } else {
        kept(vs.drop_last(), region)
    }
}

impl Canvas {
    /// Crop canvas: keep the stencils that the region holds or overlaps.
    pub fn crop(&self, region: Rect) -> (r: Self)
        requires
            self.wf(),
            region.corners_fit(),
        ensures
            r.wf(),
            r@ == (CanvasView { channel: self@.channel, stencils: kept(self@.stencils, region) }),
    {
        let mut stencils: Vec<Stencil> = Vec::new();
        let ghost vs = self@.stencils;
        let mut k: usize = 0;
        while k < self.stencils.len()
            invariant
                k <= self.stencils.len(),
                self.wf(),
                region.corners_fit(),
                vs == self@.stencils,
                stencils_ok(stencils@, self.channel),
                views(stencils@) == kept(vs.subrange(0, k as int), region),
            decreases self.stencils.len() - k,
        {
            let b = self.stencils[k].bounds();
            proof {
                self.stencils@[k as int].lemma_wf();
                assert(vs.subrange(0, k + 1).drop_last() =~= vs.subrange(0, k as int));
                assert(vs[k as int] == self.stencils@[k as int]@);
            }
            if region.contains_rect(b) || region.collides_with_rect(b) {
                let copy = self.stencils[k].duplicate();
                let ghost before = stencils@;
                stencils.push(copy);
                assert(views(stencils@) =~= views(before).push(copy@));
            }
            k = k + 1;
        }
        assert(vs.subrange(0, self.stencils.len() as int) =~= vs);
        let channel = self.channel;
        Canvas::from_raw_parts(channel, stencils)
    }

    /// Apply a stencil on this canvas by blending the stencil with each
    /// previous stencil it lies over, the previous one in front; a stencil
    /// that lies over none is laid after the others. A stencil of another
    /// pixel layout is refused.
    pub fn apply_stencil_with_blend<F: Fn(&[u8], &[u8]) -> Vec<u8> + Copy>(&self, stencil: Stencil, blend: F) -> (r: Result<Canvas, CanvasError>)
        requires
            self.wf(),
            stencil.wf(),
            forall|i: int| 0 <= i < self@.stencils.len() && covers(stencil.view_bounds(), #[trigger] self@.stencils[i].bounds)
                ==> merge_ok(self@.stencils[i].bounds, stencil.view_bounds(), self@.channel),
            forall|a: &[u8], b: &[u8]|
                a@.len() == stride_of(self@.channel) && b@.len() == stride_of(self@.channel)
                    ==> call_requires(blend, (a, b)),
            forall|a: &[u8], b: &[u8], o: Vec<u8>|
                call_ensures(blend, (a, b), o) && a@.len() == stride_of(self@.channel)
                    ==> o@.len() == stride_of(self@.channel),
        ensures
            stencil.view_channel() != self@.channel ==> r == Err::<Canvas, CanvasError>(
                CanvasError::ChannelError(ChannelError::Mismatch(self@.channel, stencil.view_channel())),
            ),
            stencil.view_channel() == self@.channel ==> (r matches Ok(c) && c.wf() && applied(self@, stencil@, blend, c@)),
    {
        if self.channel != stencil.channel() {
            return Err(CanvasError::ChannelError(ChannelError::Mismatch(self.channel, stencil.channel())));
        }
        let channel = self.channel;
        let bounds = stencil.bounds();
        proof { stencil.lemma_wf(); }
        let ghost vs = self@.stencils;
        let ghost sv = stencil@;
        let mut stencils: Vec<Stencil> = Vec::new();
        let mut merged = false;
        let mut k: usize = 0;
        while k < self.stencils.len()
            invariant
                k <= self.stencils.len(),
                self.wf(),
                stencil.wf(),
                stencil.view_channel() == channel,
                channel == self@.channel,
                bounds == sv.bounds,
                sv == stencil@,
                rect_ok(bounds),
                vs == self@.stencils,
                vs.len() == self.stencils@.len(),
                forall|i: int| 0 <= i < vs.len() && covers(bounds, #[trigger] vs[i].bounds)
                    ==> merge_ok(vs[i].bounds, bounds, channel),
                forall|a: &[u8], b: &[u8]|
                    a@.len() == stride_of(channel) && b@.len() == stride_of(channel)
                        ==> call_requires(blend, (a, b)),
                forall|a: &[u8], b: &[u8], o: Vec<u8>|
                    call_ensures(blend, (a, b), o) && a@.len() == stride_of(channel)
                        ==> o@.len() == stride_of(channel),
                stencils_ok(stencils@, channel),
                stencils@.len() == k,
                forall|i: int| 0 <= i < k ==> if covers(bounds, #[trigger] vs[i].bounds) {
                    merged_view(vs[i], sv, blend, stencils@[i]@)
                } else {
                    stencils@[i]@ == vs[i]
                },
                merged == exists|i: int| 0 <= i < k && covers(bounds, #[trigger] vs[i].bounds),
            decreases self.stencils.len() - k,
        {
            let old = &self.stencils[k];
            let ob = old.bounds();
            proof {
                old.lemma_wf();
                assert(vs[k as int] == old@);
            }
            let ghost before = stencils@;
            if bounds.contains_rect(ob) || bounds.collides_with_rect(ob) {
                let m = Stencil::merge(old, &stencil, blend);
                proof {
                    m.lemma_wf();
                    assert forall|i: int| 0 <= i < area(m.view_bounds()) implies merged_cell(
                        m.view_channel(),
                        crate::canvas::stencil::view_at(old@, cell_x(m.view_bounds(), i), cell_y(m.view_bounds(), i)),
                        crate::canvas::stencil::view_at(sv, cell_x(m.view_bounds(), i), cell_y(m.view_bounds(), i)),
                        blend,
                        #[trigger] m.pixels()[i],
                    ) by {
                        assert(merged_cell(
                            m.view_channel(),
                            old.at(cell_x(m.view_bounds(), i), cell_y(m.view_bounds(), i)),
                            stencil.at(cell_x(m.view_bounds(), i), cell_y(m.view_bounds(), i)),
                            blend,
                            m.pixels()[i],
                        ));
                    }
                }
                stencils.push(m);
                merged = true;
            } else {
                let copy = old.duplicate();
                stencils.push(copy);
            }
            proof {
                assert forall|i: int| 0 <= i < k + 1 implies if covers(bounds, #[trigger] vs[i].bounds) {
                    merged_view(vs[i], sv, blend, stencils@[i]@)
                } else {
                    stencils@[i]@ == vs[i]
                } by {
                    if i < k {
                        assert(stencils@[i] == before[i]);
                    }
                }
            }
            k = k + 1;
        }
        let ghost n = vs.len();
        if !merged {
            stencils.push(stencil);
            proof {
                assert(views(stencils@) =~= vs.push(sv)) by {
                    assert forall|i: int| 0 <= i < n implies views(stencils@)[i] == vs[i] by {
                        if covers(bounds, vs[i].bounds) {
                            assert(exists|j: int| 0 <= j < n && covers(bounds, #[trigger] vs[j].bounds));
                        }
                    }
                }
            }
        }
        let r = Canvas::from_raw_parts(channel, stencils);
        proof {
            if merged {
                assert forall|i: int| 0 <= i < vs.len() implies if covers(sv.bounds, #[trigger] vs[i].bounds) {
                    merged_view(vs[i], sv, blend, r@.stencils[i])
                } else {
                    r@.stencils[i] == vs[i]
                } by {
                    assert(r@.stencils[i] == stencils@[i]@);
                }
            }
        }
        Ok(r)
    }

    /// The pixels of a region, row by row: for each cell, what `index`
    /// gives there.
    pub fn iter_region(&self, region: Rect) -> (r: Vec<&[u8]>)
        requires
            self.wf(),
            rect_ok(region),
        ensures
            r@.len() == area(region),
            forall|i: int| 0 <= i < r@.len() ==> pixel_ok(self@, cell_x(region, i), cell_y(region, i), #[trigger] r@[i]@),
    {
        let n = (region.w as usize) * (region.h as usize);
        let w = region.w as usize;
        let mut out: Vec<&[u8]> = Vec::new();
        let mut k: usize = 0;
        while k < n
            invariant
                k <= n,
                n == area(region),
                w == region.w,
                self.wf(),
                rect_ok(region),
                out@.len() == k,
                forall|i: int| 0 <= i < k ==> pixel_ok(self@, cell_x(region, i), cell_y(region, i), #[trigger] out@[i]@),
            decreases n - k,
        {
            proof {
                assert(w > 0) by (nonlinear_arith) requires k < n, n == region.w * region.h, region.w >= 0, region.h >= 0, w == region.w;
                assert(k / w < region.h) by (nonlinear_arith) requires k < n, n == region.w * region.h, w > 0, w == region.w;
                vstd::arithmetic::div_mod::lemma_fundamental_div_mod(k as int, w as int);
            }
            let x = (k % w) as i32 + region.x;
            let y = (k / w) as i32 + region.y;
            let p = self.index(x, y);
            out.push(p);
            k = k + 1;
        }
        out
    }

    /// Iterate over each pixel of this canvas, row by row over its bounds.
    pub fn iter(&self) -> (r: Vec<&[u8]>)
        requires
            self.wf(),
            spans_fit(self@),
            exists|b: Rect| spans(self@, b) && rect_ok(b),
        ensures
            exists|b: Rect| #![auto] spans(self@, b) && r@.len() == area(b) && forall|i: int| 0 <= i < r@.len()
                ==> pixel_ok(self@, cell_x(b, i), cell_y(b, i), #[trigger] r@[i]@),
    {
        let b = self.bounds();
        proof { lemma_spans_unique(self@, b); }
        self.iter_region(b)
    }
}

impl Canvas {
    /// Whatever a lookup may give is one pixel long.
    pub proof fn lemma_pixel_len(&self, x: int, y: int, p: Seq<u8>)
        requires
            self.wf(),
            pixel_ok(self@, x, y, p),
        ensures
            p.len() == stride_of(self@.channel),
    {
        lemma_component_inside_pixel(self.channel, self.channel);
        if lookup_ok(self@, x, y, Some(p)) {
            let i = choose|i: int| 0 <= i < self@.stencils.len() && entry_contains(
                #[trigger] entry_of(self@.stencils[i].bounds, i), x, y)
                && crate::canvas::stencil::view_at(self@.stencils[i], x, y) == Some(p);
            self.stencils@[i].lemma_at_len(x, y);
            assert(self@.stencils[i] == self.stencils@[i]@);
        }
    }

    /// A stencil holding every pixel of the canvas over its bounds: what
    /// `index` gives at each cell.
    pub fn copy_to_stencil(&self) -> (r: Stencil)
        requires
            self.wf(),
            spans_fit(self@),
            exists|b: Rect| spans(self@, b) && rect_ok(b) && area(b) * stride_of(self@.channel) <= usize::MAX,
        ensures
            r.wf(),
            spans(self@, r.view_bounds()),
            r.view_channel() == self@.channel,
            forall|i: int| 0 <= i < area(r.view_bounds()) ==> ((#[trigger] r.pixels()[i]) matches Some(p)
                && pixel_ok(self@, cell_x(r.view_bounds(), i), cell_y(r.view_bounds(), i), p)),
    {
        let b = self.bounds();
        proof { lemma_spans_unique(self@, b); }
        let pixels = self.iter_region(b);
        let stride = self.channel.pixel_stride();
        let mut buffer: Vec<u8> = Vec::new();
        let mut k: usize = 0;
        while k < pixels.len()
            invariant
                k <= pixels@.len(),
                self.wf(),
                pixels@.len() == area(b),
                area(b) * stride <= usize::MAX,
                stride == stride_of(self@.channel),
                forall|i: int| 0 <= i < pixels@.len() ==> pixel_ok(self@, cell_x(b, i), cell_y(b, i), #[trigger] pixels@[i]@),
                buffer@.len() == k * stride,
                forall|i: int| 0 <= i < k ==> #[trigger] crate::canvas::stencil::chunk(buffer@, stride as nat, i) == pixels@[i]@,
            decreases pixels@.len() - k,
        {
            proof {
                self.lemma_pixel_len(cell_x(b, k as int), cell_y(b, k as int), pixels@[k as int]@);
                assert((k + 1) * stride == k * stride + stride) by (nonlinear_arith);
                assert((k + 1) * stride <= area(b) * stride) by (nonlinear_arith) requires k < area(b);
            }
            let ghost before = buffer@;
            append_pixel(&mut buffer, pixels[k]);
            proof {
                assert forall|i: int| 0 <= i < k + 1 implies #[trigger] crate::canvas::stencil::chunk(buffer@, stride as nat, i) == pixels@[i]@ by {
                    if i < k {
                        assert(i * stride + stride <= k * stride) by (nonlinear_arith) requires i < k, stride >= 0;
                        assert(crate::canvas::stencil::chunk(buffer@, stride as nat, i) =~= crate::canvas::stencil::chunk(before, stride as nat, i));
                    } else {
                        assert(crate::canvas::stencil::chunk(buffer@, stride as nat, i) =~= pixels@[i]@);
                    }
                }
            }
            k = k + 1;
        }
        let r = Stencil::from_buffer(b, self.channel, buffer);
        r
    }
}

fn append_pixel(out: &mut Vec<u8>, src: &[u8])
    ensures
        final(out)@ == old(out)@ + src@,
{
    let ghost start = out@;
    let n = src.len();
    let mut k: usize = 0;
    while k < n
        invariant
            k <= n,
            n == src@.len(),
            out@ == start + src@.subrange(0, k as int),
        decreases n - k,
    {
        out.push(src[k]);
        k = k + 1;
        assert(out@ =~= start + src@.subrange(0, k as int));
    }
    assert(src@.subrange(0, n as int) =~= src@);
}

/// What the pixel at (`x`, `y`) of a canvas may be: what a lookup may
/// give, or zero bytes where a lookup may give nothing.
pub open spec fn pixel_ok(c: CanvasView, x: int, y: int, p: Seq<u8>) -> bool {
    ||| lookup_ok(c, x, y, Some(p))
    ||| (p == blank_pixel_of(c.channel) && lookup_ok(c, x, y, None))
}

/// A canvas has one span.
pub proof fn lemma_spans_unique(c: CanvasView, r: Rect)
    requires
        spans(c, r),
    ensures
        forall|q: Rect| spans(c, q) ==> q == r,
{
    assert forall|q: Rect| spans(c, q) implies q == r by {
        if c.stencils.len() > 0 {
            let i0 = choose|i: int| 0 <= i < c.stencils.len() && r.x == #[trigger] c.stencils[i].bounds.x;
            let j0 = choose|i: int| 0 <= i < c.stencils.len() && q.x == #[trigger] c.stencils[i].bounds.x;
            let i1 = choose|i: int| 0 <= i < c.stencils.len() && r.y == #[trigger] c.stencils[i].bounds.y;
            let j1 = choose|i: int| 0 <= i < c.stencils.len() && q.y == #[trigger] c.stencils[i].bounds.y;
            let i2 = choose|i: int| 0 <= i < c.stencils.len() && r.x + r.w == #[trigger] c.stencils[i].bounds.x + c.stencils[i].bounds.w;
            let j2 = choose|i: int| 0 <= i < c.stencils.len() && q.x + q.w == #[trigger] c.stencils[i].bounds.x + c.stencils[i].bounds.w;
            let i3 = choose|i: int| 0 <= i < c.stencils.len() && r.y + r.h == #[trigger] c.stencils[i].bounds.y + c.stencils[i].bounds.h;
            let j3 = choose|i: int| 0 <= i < c.stencils.len() && q.y + q.h == #[trigger] c.stencils[i].bounds.y + c.stencils[i].bounds.h;
            assert(r.x <= c.stencils[j0].bounds.x && q.x <= c.stencils[i0].bounds.x);
            assert(r.x <= c.stencils[j1].bounds.x && q.x <= c.stencils[i1].bounds.x);
            assert(r.x <= c.stencils[j2].bounds.x && q.x <= c.stencils[i2].bounds.x);
            assert(r.x <= c.stencils[j3].bounds.x && q.x <= c.stencils[i3].bounds.x);
            assert(r.y <= c.stencils[j1].bounds.y && q.y <= c.stencils[i1].bounds.y);
            assert(c.stencils[j2].bounds.x + c.stencils[j2].bounds.w <= r.x + r.w);
            assert(c.stencils[i2].bounds.x + c.stencils[i2].bounds.w <= q.x + q.w);
            assert(c.stencils[j3].bounds.y + c.stencils[j3].bounds.h <= r.y + r.h);
            assert(c.stencils[i3].bounds.y + c.stencils[i3].bounds.h <= q.y + q.h);
        }
    }
}

/// Laying a stencil on an empty canvas gives the canvas of that stencil
/// alone, as `from_stencil` builds it.
pub proof fn lemma_apply_to_empty<F: Fn(&[u8], &[u8]) -> Vec<u8>>(channel: Channel, s: StencilView, blend: F, out: CanvasView)
    requires
        applied(CanvasView { channel, stencils: Seq::empty() }, s, blend, out),
    ensures
        out == (CanvasView { channel, stencils: seq![s] }),
{
    assert(Seq::<StencilView>::empty().push(s) =~= seq![s]);
}

/// A crop keeps exactly the stencils the region holds or overlaps, in
/// their order: none that the region misses, all that it meets.
pub proof fn lemma_crop_keeps_covered(vs: Seq<StencilView>, region: Rect)
    ensures
        forall|i: int| 0 <= i < kept(vs, region).len() ==> covers(region, #[trigger] kept(vs, region)[i].bounds),
        kept(vs, region).len() <= vs.len(),
        (forall|i: int| 0 <= i < vs.len() ==> covers(region, #[trigger] vs[i].bounds)) ==> kept(vs, region) == vs,
    decreases vs.len(),
{
    if vs.len() > 0 {
        lemma_crop_keeps_covered(vs.drop_last(), region);
        if forall|i: int| 0 <= i < vs.len() ==> covers(region, #[trigger] vs[i].bounds) {
            assert forall|i: int| 0 <= i < vs.drop_last().len() implies covers(region, #[trigger] vs.drop_last()[i].bounds) by {
                assert(vs.drop_last()[i] == vs[i]);
            }
            assert(vs.drop_last().push(vs.last()) =~= vs);
        }
    }
}

} // verus!
