use vstd::prelude::*;

verus! {

/// A position on the document plane.
#[derive(Debug, Default, Clone, Copy, PartialEq, Eq, Structural)]
pub struct Vec2 {
    pub x: u32,
    pub y: u32,
}

/// A point whose coordinates are the bit patterns of IEEE-754
/// single-precision numbers.
#[derive(Debug, Default, Clone, Copy, PartialEq, Eq, Structural)]
pub struct Vec2Bits {
    pub x: u32,
    pub y: u32,
}

/// A width and a height.
#[derive(Debug, Default, Clone, Copy, PartialEq, Eq, Structural)]
pub struct Extent2 {
    pub w: u32,
    pub h: u32,
}

impl Vec2 {
    pub fn new(x: u32, y: u32) -> (r: Self)
        ensures
            r.x == x && r.y == y,
    {
        Vec2 { x, y }
    }
}

impl Extent2 {
    pub fn new(w: u32, h: u32) -> (r: Self)
        ensures
            r.w == w && r.h == h,
    {
        Extent2 { w, h }
    }
}

/// A node identifier: 128 bits, whose little-endian bytes are the 16 bytes
/// the identifier is stored as.
#[derive(Debug, Default, Clone, Copy, PartialEq, Eq, Structural)]
pub struct Uuid {
    pub value: u128,
}

impl Uuid {
    pub fn from_u128(value: u128) -> (r: Self)
        ensures
            r.value == value,
    {
        Uuid { value }
    }

    /// The identifier of nothing: all bits zero.
    pub fn nil() -> (r: Self)
        ensures
            r.value == 0,
    {
        Uuid { value: 0 }
    }
}

/// `uuid::Uuid::new_v4`: a random identifier. Nothing is promised of its
/// value.
#[verifier::external_body]
pub(crate) fn new_v4() -> (r: Uuid) {
    Uuid { value: u128::from_le_bytes(*uuid::Uuid::new_v4().as_bytes()) }
}

/// The lower-case hexadecimal digit for `n`, which lies in 0..16.
pub open spec fn hex_digit(n: int) -> char {
    if n < 10 {
        (48 + n) as char
    } else {
        (87 + n) as char
    }
}

/// Byte `k` of an identifier: byte `k` of its value, little-endian.
pub open spec fn id_byte(value: u128, k: int) -> int {
    ((value >> ((8 * k) as u128)) % 256) as int
}

/// Character `p` of an identifier's hyphenated text: the two hexadecimal
/// digits of each of its 16 bytes in order, high digit first, with a hyphen
/// at 8, 13, 18 and 23.
pub open spec fn id_text_char(value: u128, p: int) -> char {
    if p == 8 || p == 13 || p == 18 || p == 23 {
        '-'
    } else {
        let d = if p < 8 {
            p
        } else if p < 13 {
            p - 1
        } else if p < 18 {
            p - 2
        } else if p < 23 {
            p - 3
        } else {
            p - 4
        };
        let b = id_byte(value, d / 2);
        hex_digit(if d % 2 == 0 { b / 16 } else { b % 16 })
    }
}

/// An identifier's hyphenated text, 36 characters long.
pub open spec fn id_text(value: u128) -> Seq<char> {
    Seq::new(36, |p: int| id_text_char(value, p))
}

/// `uuid::Uuid`'s `to_string` on the uuid whose bytes are `id`'s
/// little-endian bytes: the crate writes the hyphenated lower-case form,
/// which is what the contract states character by character.
#[verifier::external_body]
pub(crate) fn id_to_string(id: Uuid) -> (r: String)
    ensures
        r@ == id_text(id.value),
{
    uuid::Uuid::from_bytes(id.value.to_le_bytes()).to_string()
}

} // verus!
