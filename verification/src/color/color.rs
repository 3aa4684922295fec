use vstd::prelude::*;
use vstd::std_specs::convert::FromSpecImpl;

verus! {

/// A colour value with a fixed byte layout inside a pixel buffer.
pub trait Color: Sized {
    /// The bytes that hold this colour inside a pixel.
    spec fn spec_bytes(&self) -> Seq<u8>;

    /// Number of bytes of this colour.
    spec fn spec_size() -> nat;

    /// Number of bytes of this colour.
    fn size() -> (r: usize)
        ensures
            r == Self::spec_size(),
    ;

    /// The bytes of this colour, in pixel order.
    fn to_slice(&self) -> (r: Vec<u8>)
        ensures
            r@ == self.spec_bytes(),
            r@.len() == Self::spec_size(),
    ;

    /// Read a colour from exactly `Self::size()` bytes.
    fn from_slice(slice: &[u8]) -> (r: Self)
        requires
            slice@.len() == Self::spec_size(),
        ensures
            r.spec_bytes() == slice@,
    ;
}

/// Little-endian bytes of a 32-bit word.
pub open spec fn le32(x: u32) -> Seq<u8> {
    seq![
        (x % 256) as u8,
        ((x / 256) % 256) as u8,
        ((x / 65536) % 256) as u8,
        ((x / 16777216) % 256) as u8,
    ]
}

/// The 32-bit word whose little-endian bytes are `s[0..4]`.
pub open spec fn from_le32(s: Seq<u8>) -> u32 {
    (s[0] + 256 * s[1] + 65536 * s[2] + 16777216 * s[3]) as u32
}

/// A 32-bit number reads back from its four little-endian bytes.
pub proof fn lemma_le32_roundtrip(x: u32)
    ensures
        le32(x).len() == 4,
        from_le32(le32(x)) == x,
{
    assert(from_le32(le32(x)) == x) by (nonlinear_arith);
}

pub proof fn lemma_from_le32_roundtrip(s: Seq<u8>)
    requires
        s.len() == 4,
    ensures
        le32(from_le32(s)) == s,
{
    let x = from_le32(s);
    let (a, b, c, d) = (s[0], s[1], s[2], s[3]);
    assert(x == a + 256 * b + 65536 * c + 16777216 * d) by (nonlinear_arith)
        requires
            x == (a + 256 * b + 65536 * c + 16777216 * d) as u32,
            a < 256, b < 256, c < 256, d < 256;
    assert(x % 256 == a) by (nonlinear_arith)
        requires x == a + 256 * b + 65536 * c + 16777216 * d, a < 256, b < 256, c < 256, d < 256;
    assert((x / 256) % 256 == b) by (nonlinear_arith)
        requires x == a + 256 * b + 65536 * c + 16777216 * d, a < 256, b < 256, c < 256, d < 256;
    assert((x / 65536) % 256 == c) by (nonlinear_arith)
        requires x == a + 256 * b + 65536 * c + 16777216 * d, a < 256, b < 256, c < 256, d < 256;
    assert((x / 16777216) % 256 == d) by (nonlinear_arith)
        requires x == a + 256 * b + 65536 * c + 16777216 * d, a < 256, b < 256, c < 256, d < 256;
    assert(le32(x) =~= s);
}

fn write_le32(out: &mut Vec<u8>, x: u32)
    ensures
        final(out)@ == old(out)@ + le32(x),
{
    out.push((x % 256) as u8);
    out.push(((x / 256) % 256) as u8);
    out.push(((x / 65536) % 256) as u8);
    out.push(((x / 16777216) % 256) as u8);
    assert(out@ =~= old(out)@ + le32(x));
}

fn read_le32(s: &[u8], at: usize) -> (r: u32)
    requires
        at + 4 <= s@.len(),
    ensures
        r == from_le32(s@.subrange(at as int, at + 4)),
{
    let a = s[at] as u32;
    let b = s[at + 1] as u32;
    let c = s[at + 2] as u32;
    let d = s[at + 3] as u32;
    a + 256 * b + 65536 * c + 16777216 * d
}

/// A single luminance component.
#[derive(Debug, Clone, Copy, PartialEq, Eq, Structural)]
pub struct Luma {
    pub luma: u8,
}

/// Red, green and blue components.
#[derive(Debug, Clone, Copy, PartialEq, Eq, Structural)]
pub struct Rgb {
    pub red: u8,
    pub green: u8,
    pub blue: u8,
}

/// Texture coordinates; each component is the bit pattern of an IEEE-754
/// single-precision number.
#[derive(Debug, Clone, Copy, PartialEq, Eq, Structural)]
pub struct Uv {
    pub u: u32,
    pub v: u32,
}

/// A surface normal; each component is the bit pattern of an IEEE-754
/// single-precision number.
#[derive(Debug, Clone, Copy, PartialEq, Eq, Structural)]
pub struct Normal {
    pub x: u32,
    pub y: u32,
    pub z: u32,
}

/// A colour followed by an opacity byte.
#[derive(Debug, Clone, Copy, PartialEq, Eq)]
pub struct Alpha<C> {
    pub color: C,
    pub alpha: u8,
}

pub type Lumaa = Alpha<Luma>;

pub type Rgba = Alpha<Rgb>;

impl Luma {
    pub fn new(luma: u8) -> (r: Self)
        ensures
            r.luma == luma,
    {
        Luma { luma }
    }
}

impl Rgb {
    pub fn new(red: u8, green: u8, blue: u8) -> (r: Self)
        ensures
            r.red == red,
            r.green == green,
            r.blue == blue,
    {
        Rgb { red, green, blue }
    }
}

impl Uv {
    pub fn new(u: u32, v: u32) -> (r: Self)
        ensures
            r.u == u,
            r.v == v,
    {
        Uv { u, v }
    }
}

impl Normal {
    pub fn new(x: u32, y: u32, z: u32) -> (r: Self)
        ensures
            r.x == x,
            r.y == y,
            r.z == z,
    {
        Normal { x, y, z }
    }
}

impl<C> Alpha<C> {
    pub fn new(color: C, alpha: u8) -> (r: Self)
        ensures
            r.color == color,
            r.alpha == alpha,
    {
        Alpha { color, alpha }
    }
}

impl Default for Luma {
    fn default() -> (r: Self)
        ensures
            r.luma == 0,
    {
        Luma { luma: 0 }
    }
}

impl Default for Rgb {
    fn default() -> (r: Self)
        ensures
            r.red == 0 && r.green == 0 && r.blue == 0,
    {
        Rgb { red: 0, green: 0, blue: 0 }
    }
}

impl Default for Uv {
    fn default() -> (r: Self)
        ensures
            r.u == 0 && r.v == 0,
    {
        Uv { u: 0, v: 0 }
    }
}

impl Default for Normal {
    fn default() -> (r: Self)
        ensures
            r.x == 0 && r.y == 0 && r.z == 0,
    {
        Normal { x: 0, y: 0, z: 0 }
    }
}

impl Default for Lumaa {
    fn default() -> (r: Self)
        ensures
            r.color.luma == 0 && r.alpha == 255,
    {
        Alpha { color: Luma { luma: 0 }, alpha: 255 }
    }
}

impl Default for Rgba {
    fn default() -> (r: Self)
        ensures
            r.color.red == 0 && r.color.green == 0 && r.color.blue == 0 && r.alpha == 255,
    {
        Alpha { color: Rgb { red: 0, green: 0, blue: 0 }, alpha: 255 }
    }
}

impl Color for Luma {
    open spec fn spec_bytes(&self) -> Seq<u8> {
        seq![self.luma]
    }

    open spec fn spec_size() -> nat {
        1
    }

    fn size() -> (r: usize) {
        1
    }

    fn to_slice(&self) -> (r: Vec<u8>) {
        let mut v: Vec<u8> = Vec::new();
        v.push(self.luma);
        assert(v@ =~= self.spec_bytes());
        v
    }

    fn from_slice(slice: &[u8]) -> (r: Self) {
        let r = Luma { luma: slice[0] };
        assert(r.spec_bytes() =~= slice@);
        r
    }
}

impl Color for Rgb {
    open spec fn spec_bytes(&self) -> Seq<u8> {
        seq![self.red, self.green, self.blue]
    }

    open spec fn spec_size() -> nat {
        3
    }

    fn size() -> (r: usize) {
        3
    }

    fn to_slice(&self) -> (r: Vec<u8>) {
        let mut v: Vec<u8> = Vec::new();
        v.push(self.red);
        v.push(self.green);
        v.push(self.blue);
        assert(v@ =~= self.spec_bytes());
        v
    }

    fn from_slice(slice: &[u8]) -> (r: Self) {
        let r = Rgb { red: slice[0], green: slice[1], blue: slice[2] };
        assert(r.spec_bytes() =~= slice@);
        r
    }
}

impl Color for Uv {
    open spec fn spec_bytes(&self) -> Seq<u8> {
        le32(self.u) + le32(self.v)
    }

    open spec fn spec_size() -> nat {
        8
    }

    fn size() -> (r: usize) {
        8
    }

    fn to_slice(&self) -> (r: Vec<u8>) {
        let mut v: Vec<u8> = Vec::new();
        write_le32(&mut v, self.u);
        write_le32(&mut v, self.v);
        assert(v@ =~= self.spec_bytes());
        v
    }

    fn from_slice(slice: &[u8]) -> (r: Self) {
        let r = Uv { u: read_le32(slice, 0), v: read_le32(slice, 4) };
        proof {
            lemma_from_le32_roundtrip(slice@.subrange(0, 4));
            lemma_from_le32_roundtrip(slice@.subrange(4, 8));
        }
        assert(r.spec_bytes() =~= slice@);
        r
    }
}

impl Color for Normal {
    open spec fn spec_bytes(&self) -> Seq<u8> {
        le32(self.x) + le32(self.y) + le32(self.z)
    }

    open spec fn spec_size() -> nat {
        12
    }

    fn size() -> (r: usize) {
        12
    }

    fn to_slice(&self) -> (r: Vec<u8>) {
        let mut v: Vec<u8> = Vec::new();
        write_le32(&mut v, self.x);
        write_le32(&mut v, self.y);
        write_le32(&mut v, self.z);
        assert(v@ =~= self.spec_bytes());
        v
    }

    fn from_slice(slice: &[u8]) -> (r: Self) {
        let r = Normal { x: read_le32(slice, 0), y: read_le32(slice, 4), z: read_le32(slice, 8) };
        proof {
            lemma_from_le32_roundtrip(slice@.subrange(0, 4));
            lemma_from_le32_roundtrip(slice@.subrange(4, 8));
            lemma_from_le32_roundtrip(slice@.subrange(8, 12));
        }
        assert(r.spec_bytes() =~= slice@);
        r
    }
}

impl Color for Alpha<Luma> {
    open spec fn spec_bytes(&self) -> Seq<u8> {
        self.color.spec_bytes().push(self.alpha)
    }

    open spec fn spec_size() -> nat {
        2
    }

    fn size() -> (r: usize) {
        2
    }

    fn to_slice(&self) -> (r: Vec<u8>) {
        let mut v = self.color.to_slice();
        v.push(self.alpha);
        v
    }

    fn from_slice(slice: &[u8]) -> (r: Self) {
        let color = Luma::from_slice(&slice[0..1]);
        let r = Alpha { color, alpha: slice[1] };
        assert(r.spec_bytes() =~= slice@);
        r
    }
}

impl Color for Alpha<Rgb> {
    open spec fn spec_bytes(&self) -> Seq<u8> {
        self.color.spec_bytes().push(self.alpha)
    }

    open spec fn spec_size() -> nat {
        4
    }

    fn size() -> (r: usize) {
        4
    }

    fn to_slice(&self) -> (r: Vec<u8>) {
        let mut v = self.color.to_slice();
        v.push(self.alpha);
        v
    }

    fn from_slice(slice: &[u8]) -> (r: Self) {
        let color = Rgb::from_slice(&slice[0..3]);
        let r = Alpha { color, alpha: slice[3] };
        assert(r.spec_bytes() =~= slice@);
        r
    }
}

impl From<Luma> for Rgb {
    /// A grey with the luminance in every component.
    fn from(value: Luma) -> (r: Rgb) {
        Rgb::new(value.luma, value.luma, value.luma)
    }
}

impl FromSpecImpl<Luma> for Rgb {
    open spec fn obeys_from_spec() -> bool {
        true
    }

    open spec fn from_spec(value: Luma) -> Rgb {
        Rgb { red: value.luma, green: value.luma, blue: value.luma }
    }
}

impl<C: Color> From<C> for Alpha<C> {
    /// The colour, fully opaque.
    fn from(value: C) -> (r: Alpha<C>) {
        Alpha::new(value, 255)
    }
}

impl<C: Color> FromSpecImpl<C> for Alpha<C> {
    open spec fn obeys_from_spec() -> bool {
        true
    }

    open spec fn from_spec(value: C) -> Alpha<C> {
        Alpha { color: value, alpha: 255 }
    }
}

impl From<Alpha<Luma>> for Alpha<Rgb> {
    /// The grey of the luminance, with the same opacity.
    fn from(value: Alpha<Luma>) -> (r: Alpha<Rgb>) {
        Alpha::new(Rgb::from(value.color), value.alpha)
    }
}

impl FromSpecImpl<Alpha<Luma>> for Alpha<Rgb> {
    open spec fn obeys_from_spec() -> bool {
        true
    }

    open spec fn from_spec(value: Alpha<Luma>) -> Alpha<Rgb> {
        Alpha { color: Rgb { red: value.color.luma, green: value.color.luma, blue: value.color.luma }, alpha: value.alpha }
    }
}

} // verus!
