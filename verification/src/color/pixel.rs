use vstd::prelude::*;
use crate::color::channel::{Channel, ChannelError, stride_of, offset_in, lemma_component_inside_pixel};
use crate::color::color::{Color, Luma, Lumaa, Rgb, Rgba, Uv, Normal};

verus! {

/// A read-only view of one pixel's bytes, laid out as `channel`.
#[derive(Debug, Clone)]
pub struct Pixel<'data> {
    pub data: &'data [u8],
    pub channel: Channel,
}

/// A writable view of one pixel's bytes, laid out as `channel`.
#[derive(Debug)]
pub struct PixelMut<'data> {
    pub data: &'data mut [u8],
    pub channel: Channel,
}

/// The bytes of component `sub` within pixel bytes `data` laid out as `c`.
pub open spec fn component_of(data: Seq<u8>, c: Channel, sub: Channel) -> Option<Seq<u8>> {
    match offset_in(c, sub) {
        Some(o) => Some(data.subrange(o as int, (o + stride_of(sub)) as int)),
        None => None,
    }
}

/// What reading component `sub` of type `C` from `data` gives back.
pub open spec fn read_ok<C: Color>(data: Seq<u8>, c: Channel, sub: Channel, r: Result<C, ChannelError>) -> bool {
    match component_of(data, c, sub) {
        Some(bytes) => r is Ok && r->Ok_0.spec_bytes() == bytes,
        None => r == Err::<C, ChannelError>(ChannelError::NotFound(sub)),
    }
}

/// What writing `bytes` as component `sub` into `old` gives.
pub open spec fn written(old: Seq<u8>, c: Channel, sub: Channel, bytes: Seq<u8>) -> Seq<u8> {
    match offset_in(c, sub) {
        Some(o) => old.subrange(0, o as int) + bytes + old.subrange((o + bytes.len()) as int, old.len() as int),
        None => old,
    }
}

/// Storing a component and reading it back gives the stored bytes, the
/// pixel keeps its length, and every other byte keeps its value.
pub proof fn lemma_write_then_read(data: Seq<u8>, c: Channel, sub: Channel, bytes: Seq<u8>)
    requires
        data.len() == stride_of(c),
        bytes.len() == stride_of(sub),
        offset_in(c, sub) is Some,
    ensures
        written(data, c, sub, bytes).len() == data.len(),
        component_of(written(data, c, sub, bytes), c, sub) == Some(bytes),
        forall|j: int| 0 <= j < data.len() && !(offset_in(c, sub)->Some_0 <= j < offset_in(c, sub)->Some_0 + bytes.len())
            ==> written(data, c, sub, bytes)[j] == data[j],
{
    lemma_component_inside_pixel(c, sub);
    let o = offset_in(c, sub)->Some_0 as int;
    let w = written(data, c, sub, bytes);
    assert(w.subrange(o, o + bytes.len()) =~= bytes);
}

fn read_component<C: Color>(data: &[u8], channel: Channel, sub: Channel) -> (r: Result<C, ChannelError>)
    requires
        data@.len() == stride_of(channel),
        C::spec_size() == stride_of(sub),
    ensures
        read_ok(data@, channel, sub, r),
{
    proof { lemma_component_inside_pixel(channel, sub); }
    let offset = channel.offset_of(sub)?;
    let size = C::size();
    Ok(C::from_slice(&data[offset..offset + size]))
}

fn write_component(data: &mut [u8], channel: Channel, sub: Channel, bytes: &Vec<u8>) -> (r: Result<(), ChannelError>)
    requires
        old(data)@.len() == stride_of(channel),
        bytes@.len() == stride_of(sub),
    ensures
        final(data)@ == written(old(data)@, channel, sub, bytes@),
        r == (match offset_in(channel, sub) {
            Some(_) => Ok::<(), ChannelError>(()),
            None => Err::<(), ChannelError>(ChannelError::NotFound(sub)),
        }),
{
    proof { lemma_component_inside_pixel(channel, sub); }
    let offset = match channel.offset_of(sub) {
        Ok(o) => o,
        Err(e) => {
            assert(old(data)@ =~= written(old(data)@, channel, sub, bytes@));
            return Err(e);
        },
    };
    let ghost start = data@;
    let n = bytes.len();
    let total = data.len();
    let mut k: usize = 0;
    while k < n
        invariant
            k <= n,
            n == bytes@.len(),
            offset + n <= start.len(),
            total == start.len(),
            data@.len() == start.len(),
            forall|i: int| 0 <= i < offset ==> data@[i] == start[i],
            forall|i: int| offset <= i < offset + k ==> data@[i] == bytes@[i - offset],
            forall|i: int| offset + k <= i < start.len() ==> data@[i] == start[i],
        decreases n - k,
    {
        data[offset + k] = bytes[k];
        k = k + 1;
    }
    assert(data@ =~= written(start, channel, sub, bytes@));
    Ok(())
}

impl<'data> Pixel<'data> {
    /// From buffer data and Channel
    pub fn from_buffer(data: &'data [u8], channel: Channel) -> (r: Self)
        requires
            data@.len() == stride_of(channel),
        ensures
            r.data@ == data@,
            r.channel == channel,
    {
        Pixel { data, channel }
    }

    /// Retrieve Luma color from Channel
    pub fn luma(&self) -> (r: Result<Luma, ChannelError>)
        requires
            self.data@.len() == stride_of(self.channel),
        ensures
            read_ok(self.data@, self.channel, Channel::Luma, r),
    {
        read_component(self.data, self.channel, Channel::Luma)
    }

    /// Retrieve Lumaa color from Channel
    pub fn lumaa(&self) -> (r: Result<Lumaa, ChannelError>)
        requires
            self.data@.len() == stride_of(self.channel),
        ensures
            read_ok(self.data@, self.channel, Channel::Lumaa, r),
    {
        read_component(self.data, self.channel, Channel::Lumaa)
    }

    /// Retrieve Rgb color from Channel
    pub fn rgb(&self) -> (r: Result<Rgb, ChannelError>)
        requires
            self.data@.len() == stride_of(self.channel),
        ensures
            read_ok(self.data@, self.channel, Channel::Rgb, r),
    {
        read_component(self.data, self.channel, Channel::Rgb)
    }

    /// Retrieve Rgba color from Channel
    pub fn rgba(&self) -> (r: Result<Rgba, ChannelError>)
        requires
            self.data@.len() == stride_of(self.channel),
        ensures
            read_ok(self.data@, self.channel, Channel::Rgba, r),
    {
        read_component(self.data, self.channel, Channel::Rgba)
    }

    /// Retrieve Uv color from Channel
    pub fn uv(&self) -> (r: Result<Uv, ChannelError>)
        requires
            self.data@.len() == stride_of(self.channel),
        ensures
            read_ok(self.data@, self.channel, Channel::Uv, r),
    {
        read_component(self.data, self.channel, Channel::Uv)
    }

    /// Retrieve Normal color from Channel
    pub fn normal(&self) -> (r: Result<Normal, ChannelError>)
        requires
            self.data@.len() == stride_of(self.channel),
        ensures
            read_ok(self.data@, self.channel, Channel::Normal, r),
    {
        read_component(self.data, self.channel, Channel::Normal)
    }
}

impl<'data> PixelMut<'data> {
    /// The bytes of the pixel.
    pub open spec fn bytes(&self) -> Seq<u8> {
        self.data@
    }

    /// From buffer data and Channel
    pub fn from_buffer_mut(data: &'data mut [u8], channel: Channel) -> (r: Self)
        requires
            old(data)@.len() == stride_of(channel),
        ensures
            r.bytes() == old(data)@,
            r.channel == channel,
            // What the view holds when it is done is what the buffer holds.
            final(data)@ == final(r.data)@,
    {
        PixelMut { data, channel }
    }

    /// Retrieve Luma color from Channel
    pub fn luma(&self) -> (r: Result<Luma, ChannelError>)
        requires
            self.bytes().len() == stride_of(self.channel),
        ensures
            read_ok(self.bytes(), self.channel, Channel::Luma, r),
    {
        read_component(self.data, self.channel, Channel::Luma)
    }

    /// Retrieve Lumaa color from Channel
    pub fn lumaa(&self) -> (r: Result<Lumaa, ChannelError>)
        requires
            self.bytes().len() == stride_of(self.channel),
        ensures
            read_ok(self.bytes(), self.channel, Channel::Lumaa, r),
    {
        read_component(self.data, self.channel, Channel::Lumaa)
    }

    /// Retrieve Rgb color from Channel
    pub fn rgb(&self) -> (r: Result<Rgb, ChannelError>)
        requires
            self.bytes().len() == stride_of(self.channel),
        ensures
            read_ok(self.bytes(), self.channel, Channel::Rgb, r),
    {
        read_component(self.data, self.channel, Channel::Rgb)
    }

    /// Retrieve Rgba color from Channel
    pub fn rgba(&self) -> (r: Result<Rgba, ChannelError>)
        requires
            self.bytes().len() == stride_of(self.channel),
        ensures
            read_ok(self.bytes(), self.channel, Channel::Rgba, r),
    {
        read_component(self.data, self.channel, Channel::Rgba)
    }

    /// Retrieve Uv color from Channel
    pub fn uv(&self) -> (r: Result<Uv, ChannelError>)
        requires
            self.bytes().len() == stride_of(self.channel),
        ensures
            read_ok(self.bytes(), self.channel, Channel::Uv, r),
    {
        read_component(self.data, self.channel, Channel::Uv)
    }

    /// Retrieve Normal color from Channel
    pub fn normal(&self) -> (r: Result<Normal, ChannelError>)
        requires
            self.bytes().len() == stride_of(self.channel),
        ensures
            read_ok(self.bytes(), self.channel, Channel::Normal, r),
    {
        read_component(self.data, self.channel, Channel::Normal)
    }

    /// Store a Luma color into its place within the pixel; the rest of the
    /// pixel keeps its bytes.
    pub fn set_luma(&mut self, color: Luma) -> (r: Result<(), ChannelError>)
        requires
            old(self).bytes().len() == stride_of(old(self).channel),
        ensures
            final(self).channel == old(self).channel,
            final(self).bytes() == written(old(self).bytes(), old(self).channel, Channel::Luma, color.spec_bytes()),
            final(final(self).data)@ == final(old(self).data)@,
            r == (match offset_in(old(self).channel, Channel::Luma) {
                Some(_) => Ok::<(), ChannelError>(()),
                None => Err::<(), ChannelError>(ChannelError::NotFound(Channel::Luma)),
            }),
    {
        let bytes = color.to_slice();
        write_component(self.data, self.channel, Channel::Luma, &bytes)
    }

    /// Store a Lumaa color into its place within the pixel; the rest of the
    /// pixel keeps its bytes.
    pub fn set_lumaa(&mut self, color: Lumaa) -> (r: Result<(), ChannelError>)
        requires
            old(self).bytes().len() == stride_of(old(self).channel),
        ensures
            final(self).channel == old(self).channel,
            final(self).bytes() == written(old(self).bytes(), old(self).channel, Channel::Lumaa, color.spec_bytes()),
            final(final(self).data)@ == final(old(self).data)@,
            r == (match offset_in(old(self).channel, Channel::Lumaa) {
                Some(_) => Ok::<(), ChannelError>(()),
                None => Err::<(), ChannelError>(ChannelError::NotFound(Channel::Lumaa)),
            }),
    {
        let bytes = color.to_slice();
        write_component(self.data, self.channel, Channel::Lumaa, &bytes)
    }

    /// Store a Rgb color into its place within the pixel; the rest of the
    /// pixel keeps its bytes.
    pub fn set_rgb(&mut self, color: Rgb) -> (r: Result<(), ChannelError>)
        requires
            old(self).bytes().len() == stride_of(old(self).channel),
        ensures
            final(self).channel == old(self).channel,
            final(self).bytes() == written(old(self).bytes(), old(self).channel, Channel::Rgb, color.spec_bytes()),
            final(final(self).data)@ == final(old(self).data)@,
            r == (match offset_in(old(self).channel, Channel::Rgb) {
                Some(_) => Ok::<(), ChannelError>(()),
                None => Err::<(), ChannelError>(ChannelError::NotFound(Channel::Rgb)),
            }),
    {
        let bytes = color.to_slice();
        write_component(self.data, self.channel, Channel::Rgb, &bytes)
    }

    /// Store a Rgba color into its place within the pixel; the rest of the
    /// pixel keeps its bytes.
    pub fn set_rgba(&mut self, color: Rgba) -> (r: Result<(), ChannelError>)
        requires
            old(self).bytes().len() == stride_of(old(self).channel),
        ensures
            final(self).channel == old(self).channel,
            final(self).bytes() == written(old(self).bytes(), old(self).channel, Channel::Rgba, color.spec_bytes()),
            final(final(self).data)@ == final(old(self).data)@,
            r == (match offset_in(old(self).channel, Channel::Rgba) {
                Some(_) => Ok::<(), ChannelError>(()),
                None => Err::<(), ChannelError>(ChannelError::NotFound(Channel::Rgba)),
            }),
    {
        let bytes = color.to_slice();
        write_component(self.data, self.channel, Channel::Rgba, &bytes)
    }

    /// Store a Uv color into its place within the pixel; the rest of the
    /// pixel keeps its bytes.
    pub fn set_uv(&mut self, color: Uv) -> (r: Result<(), ChannelError>)
        requires
            old(self).bytes().len() == stride_of(old(self).channel),
        ensures
            final(self).channel == old(self).channel,
            final(self).bytes() == written(old(self).bytes(), old(self).channel, Channel::Uv, color.spec_bytes()),
            final(final(self).data)@ == final(old(self).data)@,
            r == (match offset_in(old(self).channel, Channel::Uv) {
                Some(_) => Ok::<(), ChannelError>(()),
                None => Err::<(), ChannelError>(ChannelError::NotFound(Channel::Uv)),
            }),
    {
        let bytes = color.to_slice();
        write_component(self.data, self.channel, Channel::Uv, &bytes)
    }

    /// Store a Normal color into its place within the pixel; the rest of the
    /// pixel keeps its bytes.
    pub fn set_normal(&mut self, color: Normal) -> (r: Result<(), ChannelError>)
        requires
            old(self).bytes().len() == stride_of(old(self).channel),
        ensures
            final(self).channel == old(self).channel,
            final(self).bytes() == written(old(self).bytes(), old(self).channel, Channel::Normal, color.spec_bytes()),
            final(final(self).data)@ == final(old(self).data)@,
            r == (match offset_in(old(self).channel, Channel::Normal) {
                Some(_) => Ok::<(), ChannelError>(()),
                None => Err::<(), ChannelError>(ChannelError::NotFound(Channel::Normal)),
            }),
    {
        let bytes = color.to_slice();
        write_component(self.data, self.channel, Channel::Normal, &bytes)
    }

    /// As immutable
    pub fn as_immutable(&self) -> (r: Pixel<'_>)
        ensures
            r.data@ == self.bytes(),
            r.channel == self.channel,
    {
        Pixel { data: &*self.data, channel: self.channel }
    }
}

} // verus!
