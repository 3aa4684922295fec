use pxlr::color::blending::{Blending, Compositing, Factor};
use pxlr::color::channel::{Channel, ChannelError};
use pxlr::color::color::{Alpha, Color, Luma, Lumaa, Normal, Rgb, Rgba, Uv};
use pxlr::color::pixel::{Pixel, PixelMut};

fn f(v: f32) -> u32 {
    v.to_bits()
}

#[test]
fn channel_strides() {
    assert_eq!(Channel::Luma.pixel_stride(), 1);
    assert_eq!(Channel::Lumaa.pixel_stride(), 2);
    assert_eq!(Channel::Rgb.pixel_stride(), 3);
    assert_eq!(Channel::Rgba.pixel_stride(), 4);
    assert_eq!(Channel::Uv.pixel_stride(), 8);
    assert_eq!(Channel::Normal.pixel_stride(), 12);
    assert_eq!(Channel::LumaNormal.pixel_stride(), 13);
    assert_eq!(Channel::LumaaNormal.pixel_stride(), 14);
    assert_eq!(Channel::RgbNormal.pixel_stride(), 15);
    assert_eq!(Channel::RgbaNormal.pixel_stride(), 16);
    assert_eq!(Channel::UvNormal.pixel_stride(), 20);
}

#[test]
fn channel_default_pixel() {
    assert_eq!(Channel::Luma.default_pixel(), vec![0]);
    assert_eq!(Channel::Lumaa.default_pixel(), vec![0, 255]);
    assert_eq!(Channel::Rgb.default_pixel(), vec![0, 0, 0]);
    assert_eq!(Channel::Rgba.default_pixel(), vec![0, 0, 0, 255]);
    assert_eq!(Channel::Uv.default_pixel(), vec![0, 0, 0, 0, 0, 0, 0, 0]);
    assert_eq!(
        Channel::Normal.default_pixel(),
        vec![0, 0, 0, 0, 0, 0, 0, 0, 0, 0, 0, 0]
    );
    assert_eq!(
        Channel::LumaNormal.default_pixel(),
        vec![0, 0, 0, 0, 0, 0, 0, 0, 0, 0, 0, 0, 0]
    );
    assert_eq!(
        Channel::LumaaNormal.default_pixel(),
        vec![0, 255, 0, 0, 0, 0, 0, 0, 0, 0, 0, 0, 0, 0]
    );
    assert_eq!(
        Channel::RgbNormal.default_pixel(),
        vec![0, 0, 0, 0, 0, 0, 0, 0, 0, 0, 0, 0, 0, 0, 0]
    );
    assert_eq!(
        Channel::RgbaNormal.default_pixel(),
        vec![0, 0, 0, 255, 0, 0, 0, 0, 0, 0, 0, 0, 0, 0, 0, 0]
    );
    assert_eq!(
        Channel::UvNormal.default_pixel(),
        vec![0, 0, 0, 0, 0, 0, 0, 0, 0, 0, 0, 0, 0, 0, 0, 0, 0, 0, 0, 0]
    );
}

#[test]
fn color_sizes() {
    assert_eq!(std::mem::size_of::<Luma>(), 1);
    assert_eq!(std::mem::size_of::<Lumaa>(), 2);
    assert_eq!(std::mem::size_of::<Rgb>(), 3);
    assert_eq!(std::mem::size_of::<Rgba>(), 4);
    assert_eq!(std::mem::size_of::<Uv>(), 8);
    assert_eq!(std::mem::size_of::<Normal>(), 12);
    assert_eq!(Luma::size(), 1);
    assert_eq!(Lumaa::size(), 2);
    assert_eq!(Rgb::size(), 3);
    assert_eq!(Rgba::size(), 4);
    assert_eq!(Uv::size(), 8);
    assert_eq!(Normal::size(), 12);
}

#[test]
fn pixel_get_color_within_channel() {
    let buffer = Channel::LumaNormal.default_pixel();
    let pixel = Pixel::from_buffer(&buffer, Channel::LumaNormal);
    assert!(pixel.luma().is_ok());
    assert!(pixel.normal().is_ok());
    assert_eq!(pixel.luma().unwrap(), Luma::default());
    assert_eq!(pixel.normal().unwrap(), Normal::default());

    let buffer = Channel::LumaaNormal.default_pixel();
    let pixel = Pixel::from_buffer(&buffer, Channel::LumaaNormal);
    assert!(pixel.lumaa().is_ok());
    assert!(pixel.normal().is_ok());
    assert_eq!(pixel.lumaa().unwrap(), Lumaa::default());
    assert_eq!(pixel.normal().unwrap(), Normal::default());

    let buffer = Channel::RgbNormal.default_pixel();
    let pixel = Pixel::from_buffer(&buffer, Channel::RgbNormal);
    assert!(pixel.rgb().is_ok());
    assert!(pixel.normal().is_ok());
    assert_eq!(pixel.rgb().unwrap(), Rgb::default());
    assert_eq!(pixel.normal().unwrap(), Normal::default());

    let buffer = Channel::RgbaNormal.default_pixel();
    let pixel = Pixel::from_buffer(&buffer, Channel::RgbaNormal);
    assert!(pixel.rgba().is_ok());
    assert!(pixel.normal().is_ok());
    assert_eq!(pixel.rgba().unwrap(), Rgba::default());
    assert_eq!(pixel.normal().unwrap(), Normal::default());

    let buffer = Channel::UvNormal.default_pixel();
    let pixel = Pixel::from_buffer(&buffer, Channel::UvNormal);
    assert!(pixel.uv().is_ok());
    assert!(pixel.normal().is_ok());
    assert_eq!(pixel.uv().unwrap(), Uv::default());
    assert_eq!(pixel.normal().unwrap(), Normal::default());
}

#[test]
fn pixel_set_color_within_channel() {
    let normal = Normal::new(f(0.2), f(0.5), f(0.8));

    let mut buffer = Channel::LumaNormal.default_pixel();
    let mut pixel = PixelMut::from_buffer_mut(&mut buffer, Channel::LumaNormal);
    assert!(pixel.luma().is_ok());
    assert!(pixel.normal().is_ok());
    pixel.set_luma(Luma::new(128)).unwrap();
    pixel.set_normal(normal).unwrap();
    assert_eq!(pixel.luma().unwrap(), Luma::new(128));
    assert_eq!(pixel.normal().unwrap(), normal);
    assert_eq!(buffer, vec![128, 205, 204, 76, 62, 0, 0, 0, 63, 205, 204, 76, 63]);

    let mut buffer = Channel::LumaaNormal.default_pixel();
    let mut pixel = PixelMut::from_buffer_mut(&mut buffer, Channel::LumaaNormal);
    assert!(pixel.lumaa().is_ok());
    assert!(pixel.normal().is_ok());
    pixel.set_lumaa(Lumaa::new(Luma::new(64), 128)).unwrap();
    pixel.set_normal(normal).unwrap();
    assert_eq!(pixel.lumaa().unwrap(), Lumaa::new(Luma::new(64), 128));
    assert_eq!(pixel.normal().unwrap(), normal);
    assert_eq!(buffer, vec![64, 128, 205, 204, 76, 62, 0, 0, 0, 63, 205, 204, 76, 63]);

    let mut buffer = Channel::RgbNormal.default_pixel();
    let mut pixel = PixelMut::from_buffer_mut(&mut buffer, Channel::RgbNormal);
    assert!(pixel.rgb().is_ok());
    assert!(pixel.normal().is_ok());
    pixel.set_rgb(Rgb::new(32, 64, 96)).unwrap();
    pixel.set_normal(normal).unwrap();
    assert_eq!(pixel.rgb().unwrap(), Rgb::new(32, 64, 96));
    assert_eq!(pixel.normal().unwrap(), normal);
    assert_eq!(buffer, vec![32, 64, 96, 205, 204, 76, 62, 0, 0, 0, 63, 205, 204, 76, 63]);

    let mut buffer = Channel::RgbaNormal.default_pixel();
    let mut pixel = PixelMut::from_buffer_mut(&mut buffer, Channel::RgbaNormal);
    assert!(pixel.rgba().is_ok());
    assert!(pixel.normal().is_ok());
    pixel.set_rgba(Rgba::new(Rgb::new(32, 64, 96), 128)).unwrap();
    pixel.set_normal(normal).unwrap();
    assert_eq!(pixel.rgba().unwrap(), Rgba::new(Rgb::new(32, 64, 96), 128));
    assert_eq!(pixel.normal().unwrap(), normal);
    assert_eq!(buffer, vec![32, 64, 96, 128, 205, 204, 76, 62, 0, 0, 0, 63, 205, 204, 76, 63]);

    let mut buffer = Channel::UvNormal.default_pixel();
    let mut pixel = PixelMut::from_buffer_mut(&mut buffer, Channel::UvNormal);
    assert!(pixel.uv().is_ok());
    assert!(pixel.normal().is_ok());
    pixel.set_uv(Uv::new(f(0.2), f(0.8))).unwrap();
    pixel.set_normal(normal).unwrap();
    assert_eq!(pixel.uv().unwrap(), Uv::new(f(0.2), f(0.8)));
    assert_eq!(pixel.normal().unwrap(), normal);
    assert_eq!(
        buffer,
        vec![205, 204, 76, 62, 205, 204, 76, 63, 205, 204, 76, 62, 0, 0, 0, 63, 205, 204, 76, 63]
    );
}

#[test]
fn pixel_missing_component_is_not_found() {
    let buffer = Channel::Rgb.default_pixel();
    let pixel = Pixel::from_buffer(&buffer, Channel::Rgb);
    assert_eq!(pixel.luma(), Err(ChannelError::NotFound(Channel::Luma)));
    assert_eq!(pixel.normal(), Err(ChannelError::NotFound(Channel::Normal)));
    let mut buffer = Channel::Luma.default_pixel();
    let mut pixel = PixelMut::from_buffer_mut(&mut buffer, Channel::Luma);
    assert_eq!(pixel.set_rgb(Rgb::new(1, 2, 3)), Err(ChannelError::NotFound(Channel::Rgb)));
    let view = pixel.as_immutable();
    assert_eq!(view.luma().unwrap(), Luma::new(0));
    assert_eq!(buffer, vec![0]);
}

#[test]
fn channel_offsets() {
    assert_eq!(Channel::RgbaNormal.offset_of(Channel::Rgba), Ok(0));
    assert_eq!(Channel::RgbaNormal.offset_of(Channel::Normal), Ok(4));
    assert_eq!(Channel::LumaNormal.offset_of(Channel::Normal), Ok(1));
    assert_eq!(Channel::UvNormal.offset_of(Channel::Normal), Ok(8));
    assert_eq!(Channel::Rgb.offset_of(Channel::Normal), Err(ChannelError::NotFound(Channel::Normal)));
    assert_eq!(Channel::default(), Channel::Luma);
}

#[test]
fn colors_round_trip_through_bytes() {
    let c = Alpha::new(Rgb::new(1, 2, 3), 4);
    assert_eq!(c.to_slice(), vec![1, 2, 3, 4]);
    assert_eq!(Rgba::from_slice(&[1, 2, 3, 4]), c);
    let n = Normal::new(f(1.0), f(-1.0), 7);
    assert_eq!(Normal::from_slice(&n.to_slice()), n);
    assert_eq!(Uv::new(f(1.0), 0).to_slice(), vec![0, 0, 128, 63, 0, 0, 0, 0]);
}

#[test]
fn compositing_factors() {
    assert_eq!(Compositing::SourceOver.factors(), (Factor::One, Factor::OneMinusFrontAlpha));
    assert_eq!(Compositing::Lighter.factors(), (Factor::One, Factor::One));
    assert_eq!(Compositing::SourceOut.factors(), (Factor::OneMinusBackAlpha, Factor::Zero));
    assert_eq!(Compositing::Clear.factors(), (Factor::Zero, Factor::Zero));
    assert_eq!(Blending::default(), Blending::Normal);
}

#[test]
fn channels_and_errors_in_words() {
    assert_eq!(Channel::Rgba.to_string(), "Channel::Rgba");
    assert_eq!(Channel::UvNormal.to_string(), "Channel::UvNormal");
    assert_eq!(ChannelError::NotFound(Channel::Luma).to_string(), "Channel Channel::Luma not found");
    assert_eq!(
        ChannelError::Mismatch(Channel::Rgb, Channel::Uv).to_string(),
        "Channel mismatch Channel::Rgb != Channel::Uv"
    );
}
