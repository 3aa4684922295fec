use vstd::prelude::*;
use vstd::string::StringExecFns;

verus! {

/// Layout of a pixel: which colour components it holds, in order.
#[derive(Debug, Clone, Copy, PartialEq, Eq, Structural)]
pub enum Channel {
    Luma,
    Lumaa,
    Rgb,
    Rgba,
    Uv,
    Normal,
    LumaNormal,
    LumaaNormal,
    RgbNormal,
    RgbaNormal,
    UvNormal,
}

/// Failure to locate a component within a pixel layout.
#[derive(Debug, Clone, Copy, PartialEq, Eq, Structural)]
pub enum ChannelError {
    NotFound(Channel),
    Mismatch(Channel, Channel),
}

/// Number of bytes of one pixel laid out as `c`.
pub open spec fn stride_of(c: Channel) -> nat {
    match c {
        Channel::Luma => 1,
        Channel::Lumaa => 2,
        Channel::Rgb => 3,
        Channel::Rgba => 4,
        Channel::Uv => 8,
        Channel::Normal => 12,
        Channel::LumaNormal => 13,
        Channel::LumaaNormal => 14,
        Channel::RgbNormal => 15,
        Channel::RgbaNormal => 16,
        Channel::UvNormal => 20,
    }
}

impl Channel {
    /// Stride of a pixel in this Channel
    pub fn pixel_stride(&self) -> (r: usize)
        ensures
            r == stride_of(*self),
    {
        match self {
            Channel::Luma => 1,
            Channel::Lumaa => 2,
            Channel::Rgb => 3,
            Channel::Rgba => 4,
            Channel::Uv => 8,
            Channel::Normal => 12,
            Channel::LumaNormal => 13,
            Channel::LumaaNormal => 14,
            Channel::RgbNormal => 15,
            Channel::RgbaNormal => 16,
            Channel::UvNormal => 20,
        }
    }
}

/// The pixel that a freshly allocated buffer of layout `c` holds:
/// every colour component zero and every alpha component opaque.
pub open spec fn default_pixel_of(c: Channel) -> Seq<u8> {
    let luma = seq![0u8];
    let lumaa = seq![0u8, 255u8];
    let rgb = seq![0u8, 0u8, 0u8];
    let rgba = seq![0u8, 0u8, 0u8, 255u8];
    let uv = Seq::new(8, |i: int| 0u8);
    let normal = Seq::new(12, |i: int| 0u8);
    match c {
        Channel::Luma => luma,
        Channel::Lumaa => lumaa,
        Channel::Rgb => rgb,
        Channel::Rgba => rgba,
        Channel::Uv => uv,
        Channel::Normal => normal,
        Channel::LumaNormal => luma + normal,
        Channel::LumaaNormal => lumaa + normal,
        Channel::RgbNormal => rgb + normal,
        Channel::RgbaNormal => rgba + normal,
        Channel::UvNormal => uv + normal,
    }
}

/// Where component `sub` starts inside a pixel of layout `c`, if `c` holds it.
pub open spec fn offset_in(c: Channel, sub: Channel) -> Option<nat> {
    match (c, sub) {
        (Channel::Luma, Channel::Luma) => Some(0),
        (Channel::Lumaa, Channel::Lumaa) => Some(0),
        (Channel::Rgb, Channel::Rgb) => Some(0),
        (Channel::Rgba, Channel::Rgba) => Some(0),
        (Channel::Uv, Channel::Uv) => Some(0),
        (Channel::Normal, Channel::Normal) => Some(0),
        (Channel::LumaNormal, Channel::Luma) => Some(0),
        (Channel::LumaaNormal, Channel::Lumaa) => Some(0),
        (Channel::RgbNormal, Channel::Rgb) => Some(0),
        (Channel::RgbaNormal, Channel::Rgba) => Some(0),
        (Channel::UvNormal, Channel::Uv) => Some(0),
        (Channel::LumaNormal, Channel::Normal) => Some(1),
        (Channel::LumaaNormal, Channel::Normal) => Some(2),
        (Channel::RgbNormal, Channel::Normal) => Some(3),
        (Channel::RgbaNormal, Channel::Normal) => Some(4),
        (Channel::UvNormal, Channel::Normal) => Some(8),
        _ => None,
    }
}

impl Channel {
    /// Return an empty pixel for Channel
    pub fn default_pixel(&self) -> (r: Vec<u8>)
        ensures
            r@ == default_pixel_of(*self),
            r@.len() == stride_of(*self),
    {
        let mut data: Vec<u8> = Vec::new();
        match self {
            Channel::Luma | Channel::LumaNormal => {
                data.push(0);
            },
            Channel::Lumaa | Channel::LumaaNormal => {
                data.push(0);
                data.push(255);
            },
            Channel::Rgb | Channel::RgbNormal => {
                data.push(0);
                data.push(0);
                data.push(0);
            },
            Channel::Rgba | Channel::RgbaNormal => {
                data.push(0);
                data.push(0);
                data.push(0);
                data.push(255);
            },
            Channel::Uv | Channel::UvNormal => {
                push_zeros(&mut data, 8);
            },
            _ => {},
        }
        match self {
            Channel::LumaNormal
            | Channel::LumaaNormal
            | Channel::RgbNormal
            | Channel::RgbaNormal
            | Channel::UvNormal
            | Channel::Normal => {
                push_zeros(&mut data, 12);
            },
            _ => {},
        }
        assert(data@ =~= default_pixel_of(*self));
        data
    }

    /// Offset of channel in a Channel
    ///
    /// Given a Channel of RgbaNormal, retrieve the offset of Normal.
    /// Offset is equal to the size of Rgba.
    pub fn offset_of(&self, channel: Channel) -> (r: Result<usize, ChannelError>)
        ensures
            match offset_in(*self, channel) {
                Some(o) => r == Ok::<usize, ChannelError>(o as usize),
                None => r == Err::<usize, ChannelError>(ChannelError::NotFound(channel)),
            },
    {
        match (self, channel) {
            (Channel::Luma, Channel::Luma)
            | (Channel::Lumaa, Channel::Lumaa)
            | (Channel::Rgb, Channel::Rgb)
            | (Channel::Rgba, Channel::Rgba)
            | (Channel::Uv, Channel::Uv)
            | (Channel::Normal, Channel::Normal)
            | (Channel::LumaNormal, Channel::Luma)
            | (Channel::LumaaNormal, Channel::Lumaa)
            | (Channel::RgbNormal, Channel::Rgb)
            | (Channel::RgbaNormal, Channel::Rgba)
            | (Channel::UvNormal, Channel::Uv) => Ok(0),
            (Channel::LumaNormal, Channel::Normal) => Ok(1),
            (Channel::LumaaNormal, Channel::Normal) => Ok(2),
            (Channel::RgbNormal, Channel::Normal) => Ok(3),
            (Channel::RgbaNormal, Channel::Normal) => Ok(4),
            (Channel::UvNormal, Channel::Normal) => Ok(8),
            _ => Err(ChannelError::NotFound(channel)),
        }
    }
}

/// Appends `n` zero bytes.
fn push_zeros(data: &mut Vec<u8>, n: usize)
    ensures
        final(data)@ == old(data)@ + Seq::new(n as nat, |i: int| 0u8),
{
    let ghost start = data@;
    let mut k: usize = 0;
    while k < n
        invariant
            k <= n,
            data@ == start + Seq::new(k as nat, |i: int| 0u8),
        decreases n - k,
    {
        data.push(0);
        k = k + 1;
        assert(data@ =~= start + Seq::new(k as nat, |i: int| 0u8));
    }
}

impl Default for Channel {
    fn default() -> (r: Self)
        ensures
            r == Channel::Luma,
    {
        Channel::Luma
    }
}

/// Wherever a layout holds a component, that component lies wholly inside
/// the pixel, and the default pixel is exactly one stride long.
pub proof fn lemma_component_inside_pixel(c: Channel, sub: Channel)
    ensures
        offset_in(c, sub) matches Some(o) ==> o + stride_of(sub) <= stride_of(c),
        default_pixel_of(c).len() == stride_of(c),
{
}

/// The text that names a layout.
pub open spec fn channel_text(c: Channel) -> Seq<char> {
    match c {
        Channel::Luma => "Channel::Luma"@,
        Channel::Lumaa => "Channel::Lumaa"@,
        Channel::Rgb => "Channel::Rgb"@,
        Channel::Rgba => "Channel::Rgba"@,
        Channel::Uv => "Channel::Uv"@,
        Channel::Normal => "Channel::Normal"@,
        Channel::LumaNormal => "Channel::LumaNormal"@,
        Channel::LumaaNormal => "Channel::LumaaNormal"@,
        Channel::RgbNormal => "Channel::RgbNormal"@,
        Channel::RgbaNormal => "Channel::RgbaNormal"@,
        Channel::UvNormal => "Channel::UvNormal"@,
    }
}

/// The text that explains a channel error.
pub open spec fn channel_error_text(e: ChannelError) -> Seq<char> {
    match e {
        ChannelError::NotFound(c) => "Channel "@ + channel_text(c) + " not found"@,
        ChannelError::Mismatch(a, b) => "Channel mismatch "@ + channel_text(a) + " != "@ + channel_text(b),
    }
}

impl Channel {
    fn name(&self) -> (r: &'static str)
        ensures
            r@ == channel_text(*self),
    {
        match self {
            Channel::Luma => "Channel::Luma",
            Channel::Lumaa => "Channel::Lumaa",
            Channel::Rgb => "Channel::Rgb",
            Channel::Rgba => "Channel::Rgba",
            Channel::Uv => "Channel::Uv",
            Channel::Normal => "Channel::Normal",
            Channel::LumaNormal => "Channel::LumaNormal",
            Channel::LumaaNormal => "Channel::LumaaNormal",
            Channel::RgbNormal => "Channel::RgbNormal",
            Channel::RgbaNormal => "Channel::RgbaNormal",
            Channel::UvNormal => "Channel::UvNormal",
        }
    }

    /// The layout's name, such as `Channel::Rgba`.
    pub fn to_string(&self) -> (r: String)
        ensures
            r@ == channel_text(*self),
    {
        self.name().to_owned()
    }
}

impl ChannelError {
    /// What went wrong, in words.
    pub fn to_string(&self) -> (r: String)
        ensures
            r@ == channel_error_text(*self),
    {
        match self {
            ChannelError::NotFound(c) => {
                let mut s = "Channel ".to_owned();
                s.append(c.name());
                s.append(" not found");
                s
            },
            ChannelError::Mismatch(a, b) => {
                let mut s = "Channel mismatch ".to_owned();
                s.append(a.name());
                s.append(" != ");
                s.append(b.name());
                s
            },
        }
    }
}

} // verus!
