use pxlr::canvas::rect::Rect;
use pxlr::canvas::sampling::SamplingError;
use pxlr::canvas::stencil::Stencil;
use pxlr::canvas::CanvasError;
use pxlr::color::blending::{Compositing, Factor};
use pxlr::color::channel::{Channel, ChannelError};

fn weight(f: Factor, fa: f32, ba: f32) -> f32 {
    match f {
        Factor::Zero => 0.,
        Factor::One => 1.,
        Factor::FrontAlpha => fa,
        Factor::BackAlpha => ba,
        Factor::OneMinusFrontAlpha => 1. - fa,
        Factor::OneMinusBackAlpha => 1. - ba,
    }
}

/// Composes two luma-alpha pixels with a Porter-Duff operator.
fn compose_lumaa(op: Compositing) -> impl Fn(&[u8], &[u8]) -> Vec<u8> + Copy {
    move |f: &[u8], b: &[u8]| {
        let (fl, fa) = (f[0] as f32 / 255., f[1] as f32 / 255.);
        let (bl, ba) = (b[0] as f32 / 255., b[1] as f32 / 255.);
        let (wf, wb) = op.factors();
        let (wf, wb) = (weight(wf, fa, ba), weight(wb, fa, ba));
        let rl = fl * wf + bl * wb;
        let ra = fa * wf + ba * wb;
        vec![(rl * 255.).round() as u8, (ra * 255.).round() as u8]
    }
}

fn debug(s: &Stencil) -> String {
    s.to_debug_string()
}

#[test]
fn test_from_buffer() {
    let s = Stencil::from_buffer(Rect::new(0, 0, 2, 2), Channel::Luma, vec![1, 2, 3, 4]);
    assert_eq!(s.mask(), vec![true, true, true, true]);
    assert_eq!(s.data(), [1, 2, 3, 4]);
}

#[test]
fn test_from_buffer_mask_alpha() {
    let s = Stencil::from_buffer_mask_alpha(
        Rect::new(0, 0, 2, 2),
        Channel::Lumaa,
        vec![1, 255, 0, 0, 0, 0, 4, 1],
    );
    assert_eq!(s.mask(), vec![true, false, false, true]);
    assert_eq!(s.data(), [1, 255, 4, 1]);
}

#[test]
fn test_debug() {
    let s = Stencil::new(Rect::new(0, 0, 3, 1), Channel::Luma);
    assert_eq!(debug(&s), "Stencil ( ⠉⠁ )");
    let s = Stencil::new(Rect::new(0, 0, 1, 3), Channel::Luma);
    assert_eq!(debug(&s), "Stencil ( ⠇ )");
}

#[test]
fn test_merge() {
    let a = Stencil::from_buffer_mask_alpha(
        Rect::new(0, 0, 2, 2),
        Channel::Lumaa,
        vec![1, 255, 0, 0, 0, 0, 4, 255],
    );
    assert_eq!(debug(&a), "Stencil ( ⠑ )");
    let b = Stencil::from_buffer_mask_alpha(
        Rect::new(0, 0, 2, 2),
        Channel::Lumaa,
        vec![0, 0, 2, 255, 3, 255, 0, 0],
    );
    assert_eq!(debug(&b), "Stencil ( ⠊ )");
    let c = Stencil::merge(&a, &b, compose_lumaa(Compositing::Lighter));
    assert_eq!(debug(&c), "Stencil ( ⠛ )");
    assert_eq!(c.data().to_vec(), vec![1, 255, 2, 255, 3, 255, 4, 255]);

    let a = Stencil::from_buffer_mask_alpha(
        Rect::new(0, 0, 2, 2),
        Channel::Lumaa,
        vec![1, 255, 2, 255, 0, 0, 4, 255],
    );
    assert_eq!(debug(&a), "Stencil ( ⠙ )");
    let b = Stencil::from_buffer_mask_alpha(
        Rect::new(0, 0, 2, 2),
        Channel::Lumaa,
        vec![0, 0, 20, 255, 3, 255, 0, 0],
    );
    assert_eq!(debug(&b), "Stencil ( ⠊ )");
    let c = Stencil::merge(&a, &b, compose_lumaa(Compositing::Lighter));
    assert_eq!(debug(&c), "Stencil ( ⠛ )");
    assert_eq!(c.data().to_vec(), vec![1, 255, 22, 255, 3, 255, 4, 255]);

    let a = Stencil::from_buffer_mask_alpha(Rect::new(0, 0, 1, 2), Channel::Lumaa, vec![1, 255, 2, 255]);
    assert_eq!(debug(&a), "Stencil ( ⠃ )");
    let b = Stencil::from_buffer_mask_alpha(Rect::new(2, 0, 1, 2), Channel::Lumaa, vec![3, 255, 4, 255]);
    assert_eq!(debug(&b), "Stencil ( ⠃ )");
    let c = Stencil::merge(&a, &b, compose_lumaa(Compositing::Lighter));
    assert_eq!(debug(&c), "Stencil ( ⠃⠃ )");
    assert_eq!(c.data().to_vec(), vec![1, 255, 3, 255, 2, 255, 4, 255]);

    let a = Stencil::from_buffer(
        Rect::new(0, 0, 4, 4),
        Channel::Lumaa,
        vec![
            1, 255, 2, 255, 3, 255, 4, 255, 5, 255, 6, 255, 7, 255, 8, 255, 9, 255, 10, 255, 11, 255,
            12, 255, 13, 255, 14, 255, 15, 255, 16, 255,
        ],
    );
    assert_eq!(debug(&a), "Stencil ( ⣿⣿ )");
    let b = Stencil::from_buffer(Rect::new(1, 1, 2, 2), Channel::Lumaa, vec![1, 255, 1, 255, 1, 255, 1, 255]);
    assert_eq!(debug(&b), "Stencil ( ⠛ )");
    let c = Stencil::merge(&a, &b, compose_lumaa(Compositing::SourceOut));
    assert_eq!(debug(&c), "Stencil ( ⣏⣹ )");
    assert_eq!(
        c.data().to_vec(),
        vec![
            1, 255, 2, 255, 3, 255, 4, 255, 5, 255, 8, 255, 9, 255, 12, 255, 13, 255, 14, 255, 15,
            255, 16, 255
        ]
    );
}

#[test]
fn stencil_iter() {
    let a = Stencil::from_buffer(Rect::new(0, 0, 2, 2), Channel::Lumaa, vec![1, 255, 2, 255, 3, 255, 4, 255]);
    let pixels: Vec<u8> = a.iter().into_iter().map(|(_, _, data)| data).flatten().collect();
    assert_eq!(pixels, vec![1, 255, 2, 255, 3, 255, 4, 255]);

    let a = Stencil::from_buffer_mask_alpha(
        Rect::new(0, 0, 2, 2),
        Channel::Lumaa,
        vec![1, 255, 0, 0, 0, 0, 4, 255],
    );
    let pixels: Vec<u8> = a.iter().into_iter().map(|(_, _, data)| data).flatten().collect();
    assert_eq!(pixels, vec![1, 255, 4, 255]);
}

#[test]
fn stencil_iter_gives_coordinates() {
    let a = Stencil::from_buffer_mask_alpha(Rect::new(3, 5, 2, 2), Channel::Lumaa, vec![1, 255, 0, 0, 0, 0, 4, 255]);
    let coords: Vec<(i32, i32)> = a.iter().into_iter().map(|(x, y, _)| (x, y)).collect();
    assert_eq!(coords, vec![(3, 5), (4, 6)]);
}

#[test]
fn stencil_lookup() {
    let a = Stencil::from_buffer_mask_alpha(Rect::new(1, 1, 2, 2), Channel::Lumaa, vec![1, 255, 0, 0, 3, 255, 4, 255]);
    assert_eq!(a.try_get(1, 1), Some(&[1u8, 255][..]));
    assert_eq!(a.try_get(2, 1), None);
    assert_eq!(a.try_get(0, 0), None);
    assert_eq!(a.try_get(2, 2), Some(&[4u8, 255][..]));
    assert_eq!(a.index_xy(1, 2), &[3u8, 255][..]);
    assert_eq!(a.try_index(1), None);
    assert_eq!(a.index(3), &[4u8, 255][..]);
    assert_eq!(a.bounds(), Rect::new(1, 1, 2, 2));
    assert_eq!(a.channel(), Channel::Lumaa);
}

#[test]
fn stencil_new_is_filled_with_default_pixel() {
    let s = Stencil::new(Rect::new(0, 0, 2, 1), Channel::Rgba);
    assert_eq!(s.data(), [0, 0, 0, 255, 0, 0, 0, 255]);
    assert_eq!(s.mask(), vec![true, true]);
}

#[test]
fn rect_relations() {
    let a = Rect::new(0, 0, 4, 4);
    let b = Rect::new(1, 1, 2, 2);
    let c = Rect::new(4, 0, 2, 2);
    assert!(a.contains_rect(b));
    assert!(!b.contains_rect(a));
    assert!(a.contains_point(4, 4));
    assert!(!a.contains_point(5, 0));
    assert!(a.collides_with_rect(b));
    assert!(!a.collides_with_rect(c));
    assert_eq!(a.union(c), Rect::new(0, 0, 6, 4));
    assert_eq!(b.union(Rect::new(-1, 2, 1, 3)), Rect::new(-1, 1, 4, 4));
}

#[test]
fn errors_wrap_channel_errors() {
    let e = ChannelError::NotFound(Channel::Rgb);
    assert_eq!(CanvasError::from(e), CanvasError::ChannelError(e));
    assert_eq!(SamplingError::from(e), SamplingError::ChannelError(e));
}

use pxlr::canvas::canvas::Canvas;

#[test]
fn default_canvas() {
    let a = Canvas::new(Channel::default());
    assert_eq!(a.bounds(), Rect::new(0, 0, 0, 0));
}

#[test]
fn canvas_apply_and_look_up() {
    let a = Canvas::new(Channel::Lumaa);
    let stencil = Stencil::from_buffer_mask_alpha(Rect::new(0, 0, 2, 2), Channel::Lumaa, vec![1, 255, 0, 0, 0, 0, 4, 1]);
    let b = a.apply_stencil_with_blend(stencil, compose_lumaa(Compositing::Lighter)).unwrap();
    assert_eq!(b.bounds(), Rect::new(0, 0, 2, 2));
    assert_eq!(b.stencils().len(), 1);
    assert_eq!(b.try_get(0, 0), Some(&[1u8, 255][..]));
    assert_eq!(b.try_get(1, 0), None);
    assert_eq!(b.try_get(5, 5), None);
    assert_eq!(b.index(1, 1), &[4u8, 1][..]);
    assert_eq!(b.index(1, 0), &[0u8, 0][..]);
    let pixels: Vec<u8> = b.iter().into_iter().flatten().copied().collect();
    assert_eq!(pixels, vec![1, 255, 0, 0, 0, 0, 4, 1]);
    let pixels: Vec<u8> = b.iter_region(Rect::new(1, 0, 1, 2)).into_iter().flatten().copied().collect();
    assert_eq!(pixels, vec![0, 0, 4, 1]);
}

#[test]
fn canvas_merges_overlapping_stencils() {
    let a = Canvas::from_stencil(Stencil::from_buffer(
        Rect::new(0, 0, 4, 4),
        Channel::Lumaa,
        vec![
            1, 255, 2, 255, 3, 255, 4, 255, 5, 255, 6, 255, 7, 255, 8, 255, 9, 255, 10, 255, 11, 255,
            12, 255, 13, 255, 14, 255, 15, 255, 16, 255,
        ],
    ));
    let b = a
        .apply_stencil_with_blend(
            Stencil::from_buffer(Rect::new(1, 1, 2, 2), Channel::Lumaa, vec![1, 255, 1, 255, 1, 255, 1, 255]),
            compose_lumaa(Compositing::SourceOut),
        )
        .unwrap();
    assert_eq!(b.bounds(), Rect::new(0, 0, 4, 4));
    assert_eq!(b.stencils().len(), 1);
    assert_eq!(b.try_get(1, 1), None);
    assert_eq!(b.try_get(0, 1), Some(&[5u8, 255][..]));
    let copy = b.copy_to_stencil();
    assert_eq!(copy.bounds(), Rect::new(0, 0, 4, 4));
    assert_eq!(copy.index_xy(2, 2), &[0u8, 0][..]);
    assert_eq!(copy.index_xy(3, 3), &[16u8, 255][..]);
}

#[test]
fn canvas_keeps_apart_stencils_and_crops() {
    let a = Canvas::from_stencil(Stencil::from_buffer_mask_alpha(Rect::new(0, 0, 2, 2), Channel::Lumaa, vec![1, 255, 0, 0, 0, 0, 4, 1]));
    let b = a
        .apply_stencil_with_blend(
            Stencil::from_buffer_mask_alpha(Rect::new(10, 10, 2, 2), Channel::Lumaa, vec![1, 255, 0, 0, 0, 0, 4, 1]),
            compose_lumaa(Compositing::Lighter),
        )
        .unwrap();
    assert_eq!(b.stencils().len(), 2);
    assert_eq!(b.bounds(), Rect::new(0, 0, 12, 12));
    assert_eq!(b.try_get(11, 11), Some(&[4u8, 1][..]));
    let c = b.crop(Rect::new(1, 0, 1, 2));
    assert_eq!(c.stencils().len(), 1);
    assert_eq!(c.bounds(), Rect::new(0, 0, 2, 2));
    let pixels: Vec<u8> = c.iter().into_iter().flatten().copied().collect();
    assert_eq!(pixels, vec![1, 255, 0, 0, 0, 0, 4, 1]);
}

#[test]
fn canvas_refuses_other_layout() {
    let a = Canvas::new(Channel::Rgba);
    let s = Stencil::new(Rect::new(0, 0, 1, 1), Channel::Luma);
    let r = a.apply_stencil_with_blend(s, compose_lumaa(Compositing::Lighter));
    assert!(matches!(r, Err(CanvasError::ChannelError(ChannelError::Mismatch(Channel::Rgba, Channel::Luma)))));
    assert_eq!(a.channel(), Channel::Rgba);
}

#[test]
fn canvas_errors_in_words() {
    let e = CanvasError::ChannelError(ChannelError::NotFound(Channel::Uv));
    assert_eq!(e.to_string(), "Channel Channel::Uv not found");
    assert_eq!(SamplingError::OutOfBounds.to_string(), "Position is out of bounds");
    assert_eq!(SamplingError::Empty.to_string(), "Position is out of bounds");
    let s = SamplingError::ChannelError(ChannelError::Mismatch(Channel::Luma, Channel::Lumaa));
    assert_eq!(s.to_string(), "Channel mismatch Channel::Luma != Channel::Lumaa");
}

#[test]
fn canvas_iter() {
    let a = Canvas::new(Channel::Lumaa);
    let stencil = Stencil::from_buffer_mask_alpha(Rect::new(0, 0, 2, 2), Channel::Lumaa, vec![1, 255, 0, 0, 0, 0, 4, 1]);
    let b = a.apply_stencil_with_blend(stencil, compose_lumaa(Compositing::Lighter)).unwrap();
    let pixels: Vec<u8> = b.iter().into_iter().flatten().copied().collect();
    assert_eq!(pixels, vec![1, 255, 0, 0, 0, 0, 4, 1]);
    let pixels: Vec<u8> = b.iter_region(Rect::new(1, 0, 1, 2)).into_iter().flatten().copied().collect();
    assert_eq!(pixels, vec![0, 0, 4, 1]);
    let pixels: Vec<u8> = b.iter_region(Rect::new(-10, -10, 2, 2)).into_iter().flatten().copied().collect();
    assert_eq!(pixels, vec![0, 0, 0, 0, 0, 0, 0, 0]);
}

#[test]
fn crop() {
    let a = Canvas::from_stencil(Stencil::from_buffer_mask_alpha(Rect::new(0, 0, 2, 2), Channel::Lumaa, vec![1, 255, 0, 0, 0, 0, 4, 1]));
    let pixels: Vec<u8> = a.iter().into_iter().flatten().copied().collect();
    assert_eq!(pixels, vec![1, 255, 0, 0, 0, 0, 4, 1]);
    let b = a
        .apply_stencil_with_blend(
            Stencil::from_buffer_mask_alpha(Rect::new(10, 10, 2, 2), Channel::Lumaa, vec![1, 255, 0, 0, 0, 0, 4, 1]),
            compose_lumaa(Compositing::Lighter),
        )
        .unwrap();
    let c = b.crop(Rect::new(1, 0, 1, 2));
    let pixels: Vec<u8> = c.iter().into_iter().flatten().copied().collect();
    assert_eq!(pixels, vec![1, 255, 0, 0, 0, 0, 4, 1]);
}

#[test]
fn stencil_from_raw_parts() {
    let s = Stencil::from_raw_parts(Rect::new(2, 3, 2, 2), vec![false, true, true, false], Channel::Lumaa, vec![7, 255, 9, 128]);
    assert_eq!(s.bounds(), Rect::new(2, 3, 2, 2));
    assert_eq!(s.try_get(2, 3), None);
    assert_eq!(s.try_get(3, 3), Some(&[7u8, 255][..]));
    assert_eq!(s.try_get(2, 4), Some(&[9u8, 128][..]));
    assert_eq!(s.try_get(3, 4), None);
    assert_eq!(s.mask(), vec![false, true, true, false]);
    assert_eq!(s.data().to_vec(), vec![7, 255, 9, 128]);
}

#[test]
fn apply_stencil() {
    let a = Canvas::new(Channel::Lumaa);
    let stencil = Stencil::from_buffer_mask_alpha(Rect::new(0, 0, 2, 2), Channel::Lumaa, vec![1, 255, 0, 0, 0, 0, 4, 1]);
    let b = a.apply_stencil_with_blend(stencil, compose_lumaa(Compositing::Lighter)).unwrap();
    assert_eq!(b.bounds(), Rect::new(0, 0, 2, 2));

    let a = Canvas::from_stencil(Stencil::from_buffer(
        Rect::new(0, 0, 4, 4),
        Channel::Lumaa,
        vec![
            1, 255, 2, 255, 3, 255, 4, 255, 5, 255, 6, 255, 7, 255, 8, 255, 9, 255, 10, 255, 11, 255,
            12, 255, 13, 255, 14, 255, 15, 255, 16, 255,
        ],
    ));
    let b = a
        .apply_stencil_with_blend(
            Stencil::from_buffer(Rect::new(1, 1, 2, 2), Channel::Lumaa, vec![1, 255, 1, 255, 1, 255, 1, 255]),
            compose_lumaa(Compositing::SourceOut),
        )
        .unwrap();
    assert_eq!(b.bounds(), Rect::new(0, 0, 4, 4));
    let pixels: Vec<u8> = b.iter().into_iter().flatten().copied().collect();
    assert_eq!(
        pixels,
        vec![
            1, 255, 2, 255, 3, 255, 4, 255, 5, 255, 0, 0, 0, 0, 8, 255, 9, 255, 0, 0, 0, 0, 12, 255,
            13, 255, 14, 255, 15, 255, 16, 255
        ]
    );
}
