use vstd::prelude::*;
use crate::color::color::{le32, from_le32, lemma_from_le32_roundtrip};

verus! {

/// A colour component stored in a pixel buffer.
pub trait Color: Sized {
    /// The bytes that hold this component inside a pixel.
    spec fn spec_bytes(&self) -> Seq<u8>;

    /// Number of bytes of this component.
    spec fn spec_size() -> nat;

    /// Number of values this component is made of.
    spec fn spec_components() -> nat;

    /// Number of values this component is made of.
    fn components() -> (r: u8)
        ensures
            r == Self::spec_components(),
    ;

    /// Number of bytes of this component.
    fn size() -> (r: usize)
        ensures
            r == Self::spec_size(),
    ;

    /// The bytes of this component, in pixel order.
    fn to_slice(&self) -> (r: Vec<u8>)
        ensures
            r@ == self.spec_bytes(),
            r@.len() == Self::spec_size(),
    ;

    /// Read a component from exactly `Self::size()` bytes.
    fn from_slice(slice: &[u8]) -> (r: Self)
        requires
            slice@.len() == Self::spec_size(),
        ensures
            r.spec_bytes() == slice@,
    ;
}

/// An intensity component.
#[derive(Debug, Default, Clone, Copy, PartialEq, Eq, Structural)]
pub struct I {
    pub i: u8,
}

/// Red, green and blue components.
#[derive(Debug, Default, Clone, Copy, PartialEq, Eq, Structural)]
pub struct RGB {
    pub r: u8,
    pub g: u8,
    pub b: u8,
}

/// An opacity component.
#[derive(Debug, Default, Clone, Copy, PartialEq, Eq, Structural)]
pub struct A {
    pub a: u8,
}

/// Texture coordinates; each value is the bit pattern of an IEEE-754
/// single-precision number.
#[derive(Debug, Default, Clone, Copy, PartialEq, Eq, Structural)]
pub struct UV {
    pub u: u32,
    pub v: u32,
}

/// A normal vector; each value is the bit pattern of an IEEE-754
/// single-precision number.
#[derive(Debug, Default, Clone, Copy, PartialEq, Eq, Structural)]
pub struct XYZ {
    pub x: u32,
    pub y: u32,
    pub z: u32,
}

impl I {
    pub fn new(i: u8) -> (r: Self)
        ensures
            r.i == i,
    {
        I { i }
    }
}

impl RGB {
    pub fn new(r: u8, g: u8, b: u8) -> (res: Self)
        ensures
            res.r == r && res.g == g && res.b == b,
    {
        RGB { r, g, b }
    }
}

impl A {
    pub fn new(a: u8) -> (r: Self)
        ensures
            r.a == a,
    {
        A { a }
    }
}

impl UV {
    pub fn new(u: u32, v: u32) -> (r: Self)
        ensures
            r.u == u && r.v == v,
    {
        UV { u, v }
    }
}

impl XYZ {
    pub fn new(x: u32, y: u32, z: u32) -> (r: Self)
        ensures
            r.x == x && r.y == y && r.z == z,
    {
        XYZ { x, y, z }
    }
}

fn read_le32(s: &[u8], at: usize) -> (r: u32)
    requires
        at + 4 <= s@.len(),
    ensures
        r == from_le32(s@.subrange(at as int, at + 4)),
{
    let a = s[at] as u32;
    let b = s[at + 1] as u32;
    let c = s[at + 2] as u32;
    let d = s[at + 3] as u32;
    a + 256 * b + 65536 * c + 16777216 * d
}

fn push_le32(out: &mut Vec<u8>, x: u32)
    ensures
        final(out)@ == old(out)@ + le32(x),
{
    out.push((x % 256) as u8);
    out.push(((x / 256) % 256) as u8);
    out.push(((x / 65536) % 256) as u8);
    out.push(((x / 16777216) % 256) as u8);
    assert(out@ =~= old(out)@ + le32(x));
}

impl Color for I {
    open spec fn spec_bytes(&self) -> Seq<u8> {
        seq![self.i]
    }

    open spec fn spec_size() -> nat {
        1
    }

    open spec fn spec_components() -> nat {
        1
    }

    fn components() -> (r: u8) {
        1
    }

    fn size() -> (r: usize) {
        1
    }

    fn to_slice(&self) -> (r: Vec<u8>) {
        let mut v: Vec<u8> = Vec::new();
        v.push(self.i);
        assert(v@ =~= self.spec_bytes());
        v
    }

    fn from_slice(slice: &[u8]) -> (r: Self) {
        let r = I { i: slice[0] };
        assert(r.spec_bytes() =~= slice@);
        r
    }
}

impl Color for RGB {
    open spec fn spec_bytes(&self) -> Seq<u8> {
        seq![self.r, self.g, self.b]
    }

    open spec fn spec_size() -> nat {
        3
    }

    open spec fn spec_components() -> nat {
        3
    }

    fn components() -> (r: u8) {
        3
    }

    fn size() -> (r: usize) {
        3
    }

    fn to_slice(&self) -> (r: Vec<u8>) {
        let mut v: Vec<u8> = Vec::new();
        v.push(self.r);
        v.push(self.g);
        v.push(self.b);
        assert(v@ =~= self.spec_bytes());
        v
    }

    fn from_slice(slice: &[u8]) -> (r: Self) {
        let r = RGB { r: slice[0], g: slice[1], b: slice[2] };
        assert(r.spec_bytes() =~= slice@);
        r
    }
}

impl Color for A {
    open spec fn spec_bytes(&self) -> Seq<u8> {
        seq![self.a]
    }

    open spec fn spec_size() -> nat {
        1
    }

    open spec fn spec_components() -> nat {
        1
    }

    fn components() -> (r: u8) {
        1
    }

    fn size() -> (r: usize) {
        1
    }

    fn to_slice(&self) -> (r: Vec<u8>) {
        let mut v: Vec<u8> = Vec::new();
        v.push(self.a);
        assert(v@ =~= self.spec_bytes());
        v
    }

    fn from_slice(slice: &[u8]) -> (r: Self) {
        let r = A { a: slice[0] };
        assert(r.spec_bytes() =~= slice@);
        r
    }
}

impl Color for UV {
    open spec fn spec_bytes(&self) -> Seq<u8> {
        le32(self.u) + le32(self.v)
    }

    open spec fn spec_size() -> nat {
        8
    }

    open spec fn spec_components() -> nat {
        2
    }

    fn components() -> (r: u8) {
        2
    }

    fn size() -> (r: usize) {
        8
    }

    fn to_slice(&self) -> (r: Vec<u8>) {
        let mut v: Vec<u8> = Vec::new();
        push_le32(&mut v, self.u);
        push_le32(&mut v, self.v);
        assert(v@ =~= self.spec_bytes());
        v
    }

    fn from_slice(slice: &[u8]) -> (r: Self) {
        let r = UV { u: read_le32(slice, 0), v: read_le32(slice, 4) };
        proof {
            lemma_from_le32_roundtrip(slice@.subrange(0, 4));
            lemma_from_le32_roundtrip(slice@.subrange(4, 8));
        }
        assert(r.spec_bytes() =~= slice@);
        r
    }
}

impl Color for XYZ {
    open spec fn spec_bytes(&self) -> Seq<u8> {
        le32(self.x) + le32(self.y) + le32(self.z)
    }

    open spec fn spec_size() -> nat {
        12
    }

    open spec fn spec_components() -> nat {
        3
    }

    fn components() -> (r: u8) {
        3
    }

    fn size() -> (r: usize) {
        12
    }

    fn to_slice(&self) -> (r: Vec<u8>) {
        let mut v: Vec<u8> = Vec::new();
        push_le32(&mut v, self.x);
        push_le32(&mut v, self.y);
        push_le32(&mut v, self.z);
        assert(v@ =~= self.spec_bytes());
        v
    }

    fn from_slice(slice: &[u8]) -> (r: Self) {
        let r = XYZ { x: read_le32(slice, 0), y: read_le32(slice, 4), z: read_le32(slice, 8) };
        proof {
            lemma_from_le32_roundtrip(slice@.subrange(0, 4));
            lemma_from_le32_roundtrip(slice@.subrange(4, 8));
            lemma_from_le32_roundtrip(slice@.subrange(8, 12));
        }
        assert(r.spec_bytes() =~= slice@);
        r
    }
}

/// A set of colour components, one bit per component: I, RGB, A, UV, XYZ.
/// A pixel holds the components of its set in that order.
#[derive(Debug, Clone, Copy, PartialEq, Eq, Structural)]
pub struct Channel {
    pub bits: u8,
}

/// Does `c` hold every component of `flag`?
pub open spec fn holds(c: Channel, flag: u8) -> bool {
    c.bits & flag == flag
}

pub open spec fn size_if(c: Channel, flag: u8, n: nat) -> nat {
    if holds(c, flag) { n } else { 0 }
}

/// Bytes per pixel of a component set.
pub open spec fn channel_size(c: Channel) -> nat {
    size_if(c, 1, 1) + size_if(c, 2, 3) + size_if(c, 4, 1) + size_if(c, 8, 8) + size_if(c, 16, 12)
}

/// Where `sub` starts inside a pixel of component set `c`: after the
/// components of `c` that come before it. A set that is none of the single
/// components gets the whole pixel size.
pub open spec fn channel_offset(c: Channel, sub: Channel) -> nat {
    if sub.bits == 1 {
        0
    } else if sub.bits == 2 {
        size_if(c, 1, 1)
    } else if sub.bits == 4 {
        size_if(c, 1, 1) + size_if(c, 2, 3)
    } else if sub.bits == 8 {
        size_if(c, 1, 1) + size_if(c, 2, 3) + size_if(c, 4, 1)
    } else if sub.bits == 16 {
        size_if(c, 1, 1) + size_if(c, 2, 3) + size_if(c, 4, 1) + size_if(c, 8, 8)
    } else {
        channel_size(c)
    }
}

/// Reading component `flag` of `c` from `pixel` gives a value whose bytes
/// are exactly those of the component, or nothing when `c` lacks it.
pub open spec fn component_read<T: Color>(c: Channel, flag: u8, pixel: Seq<u8>, r: Option<T>) -> bool {
    if !holds(c, flag) {
        r is None
    } else {
        let o = channel_offset(c, Channel { bits: flag });
        r is Some && r->Some_0.spec_bytes() == pixel.subrange(o as int, (o + T::spec_size()) as int)
    }
}

/// The pixel after component `flag` of `c` is overwritten with `bytes`.
pub open spec fn component_written(c: Channel, flag: u8, pixel: Seq<u8>, bytes: Seq<u8>) -> Seq<u8> {
    if !holds(c, flag) {
        pixel
    } else {
        let o = channel_offset(c, Channel { bits: flag });
        pixel.subrange(0, o as int) + bytes + pixel.subrange((o + bytes.len()) as int, pixel.len() as int)
    }
}

/// The pixel is long enough for component `flag` wherever `c` holds it.
pub open spec fn fits_component(c: Channel, flag: u8, size: nat, len: nat) -> bool {
    holds(c, flag) ==> channel_offset(c, Channel { bits: flag }) + size <= len
}

impl Channel {
    /// The intensity component's bit.
    pub const I: u8 = 1;
    /// The red-green-blue component's bit.
    pub const RGB: u8 = 2;
    /// The opacity component's bit.
    pub const A: u8 = 4;
    /// The texture-coordinate component's bit.
    pub const UV: u8 = 8;
    /// The normal-vector component's bit.
    pub const XYZ: u8 = 16;

    /// The component set whose bits are `bits`.
    pub fn from_bits(bits: u8) -> (r: Channel)
        ensures
            r.bits == bits,
    {
        Channel { bits }
    }

    /// The union of two component sets.
    pub fn union(self, other: Channel) -> (r: Channel)
        ensures
            r.bits == self.bits | other.bits,
    {
        Channel { bits: self.bits | other.bits }
    }

    fn contains(&self, flag: u8) -> (r: bool)
        ensures
            r == holds(*self, flag),
    {
        self.bits & flag == flag
    }

    /// Size of all channels of a Channel
    pub fn size(&self) -> (r: usize)
        ensures
            r == channel_size(*self),
    {
        let mut size = 0usize;
        if self.contains(1) {
            size += 1;
        }
        if self.contains(2) {
            size += 3;
        }
        if self.contains(4) {
            size += 1;
        }
        if self.contains(8) {
            size += 8;
        }
        if self.contains(16) {
            size += 12;
        }
        size
    }

    /// Offset of channel in a Channel
    ///
    /// Given a Channel with RGBA channels, retrive the offset of channel A.
    /// Offset is equal to the size of RGB channels.
    pub fn offset_of(&self, channel: Channel) -> (r: usize)
        ensures
            r == channel_offset(*self, channel),
    {
        let mut offset = 0usize;
        if channel.bits == 1 {
            return offset;
        }
        if self.contains(1) {
            offset += 1;
        }
        if channel.bits == 2 {
            return offset;
        }
        if self.contains(2) {
            offset += 3;
        }
        if channel.bits == 4 {
            return offset;
        }
        if self.contains(4) {
            offset += 1;
        }
        if channel.bits == 8 {
            return offset;
        }
        if self.contains(8) {
            offset += 8;
        }
        if channel.bits == 16 {
            return offset;
        }
        if self.contains(16) {
            offset += 12;
        }
        offset
    }
}

impl Channel {
    /// Retrieve the I component of a pixel, if this set holds it.
    pub fn i(&self, pixel: &[u8]) -> (r: Option<I>)
        requires
            fits_component(*self, 1, 1, pixel@.len()),
        ensures
            component_read(*self, 1, pixel@, r),
    {
        read_at(self, 1, pixel)
    }

    /// Overwrite the I component of a pixel, if this set holds it,
    /// and give back the value it held; the rest of the pixel keeps its bytes.
    pub fn i_mut(&self, pixel: &mut [u8], color: I) -> (r: Option<I>)
        requires
            fits_component(*self, 1, 1, old(pixel)@.len()),
        ensures
            component_read(*self, 1, old(pixel)@, r),
            final(pixel)@ == component_written(*self, 1, old(pixel)@, color.spec_bytes()),
    {
        let previous = read_at(self, 1, pixel);
        let bytes = color.to_slice();
        write_at(self, 1, pixel, &bytes);
        previous
    }

    /// Retrieve the RGB component of a pixel, if this set holds it.
    pub fn rgb(&self, pixel: &[u8]) -> (r: Option<RGB>)
        requires
            fits_component(*self, 2, 3, pixel@.len()),
        ensures
            component_read(*self, 2, pixel@, r),
    {
        read_at(self, 2, pixel)
    }

    /// Overwrite the RGB component of a pixel, if this set holds it,
    /// and give back the value it held; the rest of the pixel keeps its bytes.
    pub fn rgb_mut(&self, pixel: &mut [u8], color: RGB) -> (r: Option<RGB>)
        requires
            fits_component(*self, 2, 3, old(pixel)@.len()),
        ensures
            component_read(*self, 2, old(pixel)@, r),
            final(pixel)@ == component_written(*self, 2, old(pixel)@, color.spec_bytes()),
    {
        let previous = read_at(self, 2, pixel);
        let bytes = color.to_slice();
        write_at(self, 2, pixel, &bytes);
        previous
    }

    /// Retrieve the A component of a pixel, if this set holds it.
    pub fn a(&self, pixel: &[u8]) -> (r: Option<A>)
        requires
            fits_component(*self, 4, 1, pixel@.len()),
        ensures
            component_read(*self, 4, pixel@, r),
    {
        read_at(self, 4, pixel)
    }

    /// Overwrite the A component of a pixel, if this set holds it,
    /// and give back the value it held; the rest of the pixel keeps its bytes.
    pub fn a_mut(&self, pixel: &mut [u8], color: A) -> (r: Option<A>)
        requires
            fits_component(*self, 4, 1, old(pixel)@.len()),
        ensures
            component_read(*self, 4, old(pixel)@, r),
            final(pixel)@ == component_written(*self, 4, old(pixel)@, color.spec_bytes()),
    {
        let previous = read_at(self, 4, pixel);
        let bytes = color.to_slice();
        write_at(self, 4, pixel, &bytes);
        previous
    }

    /// Retrieve the UV component of a pixel, if this set holds it.
    pub fn uv(&self, pixel: &[u8]) -> (r: Option<UV>)
        requires
            fits_component(*self, 8, 8, pixel@.len()),
        ensures
            component_read(*self, 8, pixel@, r),
    {
        read_at(self, 8, pixel)
    }

    /// Overwrite the UV component of a pixel, if this set holds it,
    /// and give back the value it held; the rest of the pixel keeps its bytes.
    pub fn uv_mut(&self, pixel: &mut [u8], color: UV) -> (r: Option<UV>)
        requires
            fits_component(*self, 8, 8, old(pixel)@.len()),
        ensures
            component_read(*self, 8, old(pixel)@, r),
            final(pixel)@ == component_written(*self, 8, old(pixel)@, color.spec_bytes()),
    {
        let previous = read_at(self, 8, pixel);
        let bytes = color.to_slice();
        write_at(self, 8, pixel, &bytes);
        previous
    }

    /// Retrieve the XYZ component of a pixel, if this set holds it.
    pub fn xyz(&self, pixel: &[u8]) -> (r: Option<XYZ>)
        requires
            fits_component(*self, 16, 12, pixel@.len()),
        ensures
            component_read(*self, 16, pixel@, r),
    {
        read_at(self, 16, pixel)
    }

    /// Overwrite the XYZ component of a pixel, if this set holds it,
    /// and give back the value it held; the rest of the pixel keeps its bytes.
    pub fn xyz_mut(&self, pixel: &mut [u8], color: XYZ) -> (r: Option<XYZ>)
        requires
            fits_component(*self, 16, 12, old(pixel)@.len()),
        ensures
            component_read(*self, 16, old(pixel)@, r),
            final(pixel)@ == component_written(*self, 16, old(pixel)@, color.spec_bytes()),
    {
        let previous = read_at(self, 16, pixel);
        let bytes = color.to_slice();
        write_at(self, 16, pixel, &bytes);
        previous
    }
}

/// Bytes of one component of size `n`.
pub open spec fn flag_size(flag: u8) -> nat {
    if flag == 1 { 1 } else if flag == 2 { 3 } else if flag == 4 { 1 } else if flag == 8 { 8 } else { 12 }
}

/// A component that a set holds lies wholly inside a pixel of that set.
pub proof fn lemma_component_inside(c: Channel, flag: u8)
    requires
        flag == 1 || flag == 2 || flag == 4 || flag == 8 || flag == 16,
        holds(c, flag),
    ensures
        channel_offset(c, Channel { bits: flag }) + flag_size(flag) <= channel_size(c),
{
}

/// Writing a component and reading it back gives the written bytes; every
/// byte outside the component keeps its value.
pub proof fn lemma_component_write_read(c: Channel, flag: u8, pixel: Seq<u8>, bytes: Seq<u8>)
    requires
        holds(c, flag),
        channel_offset(c, Channel { bits: flag }) + bytes.len() <= pixel.len(),
    ensures
        ({
            let o = channel_offset(c, Channel { bits: flag }) as int;
            let w = component_written(c, flag, pixel, bytes);
            &&& w.len() == pixel.len()
            &&& w.subrange(o, o + bytes.len()) == bytes
            &&& forall|j: int| 0 <= j < pixel.len() && !(o <= j < o + bytes.len()) ==> w[j] == pixel[j]
        }),
{
    let o = channel_offset(c, Channel { bits: flag }) as int;
    let w = component_written(c, flag, pixel, bytes);
    assert(w.subrange(o, o + bytes.len()) =~= bytes);
}

fn read_at<T: Color>(c: &Channel, flag: u8, pixel: &[u8]) -> (r: Option<T>)
    requires
        flag == 1 || flag == 2 || flag == 4 || flag == 8 || flag == 16,
        fits_component(*c, flag, T::spec_size(), pixel@.len()),
    ensures
        component_read(*c, flag, pixel@, r),
{
    if !c.contains(flag) {
        None
    } else {
        let offset = c.offset_of(Channel { bits: flag });
        let size = T::size();
        let plen = pixel.len();
        Some(T::from_slice(&pixel[offset..offset + size]))
    }
}

fn write_at(c: &Channel, flag: u8, pixel: &mut [u8], bytes: &Vec<u8>) -> (r: bool)
    requires
        flag == 1 || flag == 2 || flag == 4 || flag == 8 || flag == 16,
        fits_component(*c, flag, bytes@.len(), old(pixel)@.len()),
    ensures
        r == holds(*c, flag),
        final(pixel)@ == component_written(*c, flag, old(pixel)@, bytes@),
{
    if !c.contains(flag) {
        return false;
    }
    let offset = c.offset_of(Channel { bits: flag });
    let ghost start = pixel@;
    let n = bytes.len();
    let total = pixel.len();
    let mut k: usize = 0;
    while k < n
        invariant
            k <= n,
            n == bytes@.len(),
            offset + n <= start.len(),
            total == start.len(),
            pixel@.len() == start.len(),
            forall|i: int| 0 <= i < offset ==> pixel@[i] == start[i],
            forall|i: int| offset <= i < offset + k ==> pixel@[i] == bytes@[i - offset],
            forall|i: int| offset + k <= i < start.len() ==> pixel@[i] == start[i],
        decreases n - k,
    {
        pixel[offset + k] = bytes[k];
        k = k + 1;
    }
    assert(pixel@ =~= component_written(*c, flag, start, bytes@));
    true
}

} // verus!
