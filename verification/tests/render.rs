use niribg::color::Color;
use niribg::config::Mode;
use niribg::daemon::anim::ONE;
use niribg::daemon::render::{
    blend, blend_into, can_compose, compose, compose_scaled, copy_into, layout, solid, Pixmap, Size,
};

const RED: Color = Color { r: 255, g: 0, b: 0, a: 255 };

fn image(w: u32, h: u32, px: [u8; 4]) -> Pixmap {
    let mut data = Vec::new();
    for _ in 0..w * h {
        data.extend_from_slice(&px);
    }
    Pixmap::new(w, h, data).unwrap()
}

fn bgra_at(buf: &[u8], size: Size, x: u32, y: u32) -> [u8; 4] {
    let i = (y as usize * size.w as usize + x as usize) * 4;
    [buf[i], buf[i + 1], buf[i + 2], buf[i + 3]]
}

#[test]
fn stretch_covers_everything() {
    let l = layout(Size::new(4, 4), Size::new(10, 6), Mode::Stretch);
    assert_eq!(l.scaled, Size::new(10, 6));
    assert_eq!((l.dst_x, l.dst_y), (0, 0));
    assert_eq!((l.src_w, l.src_h), (4, 4));
}

#[test]
fn fit_letterboxes_wide_dst() {
    let l = layout(Size::new(100, 100), Size::new(10, 6), Mode::Fit);
    assert_eq!(l.scaled, Size::new(6, 6));
    assert_eq!((l.dst_x, l.dst_y), (2, 0));
}

#[test]
fn fit_pillarboxes_tall_dst() {
    let l = layout(Size::new(100, 100), Size::new(6, 10), Mode::Fit);
    assert_eq!(l.scaled, Size::new(6, 6));
    assert_eq!((l.dst_x, l.dst_y), (0, 2));
}

#[test]
fn fill_crops_source_to_dst_aspect() {
    let l = layout(Size::new(20, 10), Size::new(10, 10), Mode::Fill);
    assert_eq!((l.src_w, l.src_h), (10, 10));
    assert_eq!(l.src_x, 5);
    assert_eq!(l.scaled, Size::new(10, 10));
    assert_eq!((l.dst_x, l.dst_y), (0, 0));
}

#[test]
fn center_small_image_is_bordered_not_scaled() {
    let l = layout(Size::new(4, 2), Size::new(10, 6), Mode::Center);
    assert_eq!(l.scaled, Size::new(4, 2)); // no scaling
    assert_eq!((l.src_w, l.src_h), (4, 2));
    assert_eq!((l.dst_x, l.dst_y), (3, 2));
}

#[test]
fn center_large_image_is_cropped() {
    let l = layout(Size::new(20, 20), Size::new(10, 6), Mode::Center);
    assert_eq!(l.scaled, Size::new(10, 6));
    assert_eq!((l.src_x, l.src_y), (5, 7));
    assert_eq!((l.dst_x, l.dst_y), (0, 0));
}

#[test]
fn layout_invariants_hold_across_sizes() {
    let sizes = [
        Size::new(1, 1),
        Size::new(3, 7),
        Size::new(16, 9),
        Size::new(1920, 1080),
        Size::new(200, 200),
    ];
    for &src in &sizes {
        for &dst in &sizes {
            for mode in [Mode::Fill, Mode::Fit, Mode::Stretch, Mode::Center] {
                let l = layout(src, dst, mode);
                assert!(
                    l.src_x + l.src_w <= src.w,
                    "src x overflow {src:?}->{dst:?} {mode:?}"
                );
                assert!(
                    l.src_y + l.src_h <= src.h,
                    "src y overflow {src:?}->{dst:?} {mode:?}"
                );
                assert!(
                    l.dst_x + l.scaled.w <= dst.w,
                    "dst x overflow {src:?}->{dst:?} {mode:?}"
                );
                assert!(
                    l.dst_y + l.scaled.h <= dst.h,
                    "dst y overflow {src:?}->{dst:?} {mode:?}"
                );
                assert!(l.src_w >= 1 && l.src_h >= 1);
            }
        }
    }
}

#[test]
fn compose_stretch_fills_output_with_image() {
    let src = image(2, 2, [0, 128, 255, 255]);
    let out = compose(&src, Mode::Stretch, RED, Size::new(4, 3));
    assert_eq!(out.len(), 4 * 3 * 4);
    for y in 0..3 {
        for x in 0..4 {
            assert_eq!(bgra_at(&out, Size::new(4, 3), x, y), [255, 128, 0, 255]);
        }
    }
}

#[test]
fn compose_fit_paints_bars_with_fill_colour() {
    let src = image(10, 10, [0, 0, 0, 255]);
    let size = Size::new(10, 6);
    let out = compose(&src, Mode::Fit, RED, size);
    assert_eq!(bgra_at(&out, size, 0, 0), [0, 0, 255, 255]);
    assert_eq!(bgra_at(&out, size, 5, 3), [0, 0, 0, 255]);
}

#[test]
fn compose_center_borders_small_image() {
    let src = image(2, 2, [10, 20, 30, 255]);
    let size = Size::new(6, 6);
    let out = compose(&src, Mode::Center, RED, size);
    assert_eq!(bgra_at(&out, size, 0, 0), [0, 0, 255, 255]); // border = red
    assert_eq!(bgra_at(&out, size, 3, 3), [30, 20, 10, 255]); // image, BGRA
}

#[test]
fn compose_blends_semi_transparent_over_fill() {
    let src = image(1, 1, [255, 255, 255, 128]);
    let out = compose(&src, Mode::Stretch, RED, Size::new(1, 1));
    let [b, g, r, a] = [out[0], out[1], out[2], out[3]];
    assert_eq!(a, 255);
    assert!((120..=136).contains(&b), "b={b}");
    assert!((120..=136).contains(&g), "g={g}");
    assert!(r >= 250, "r={r}"); // red channel stays high
    assert_eq!([b, g, r], [128, 128, 255]);
}

#[test]
fn compose_zero_dst_is_empty() {
    let src = image(4, 4, [1, 2, 3, 255]);
    assert!(compose(&src, Mode::Fill, RED, Size::new(0, 5)).is_empty());
}

#[test]
fn solid_fills_the_whole_buffer_with_the_pattern() {
    for size in [
        Size::new(1, 1),
        Size::new(3, 5),
        Size::new(64, 40),
        Size::new(2879, 1),
    ] {
        let c = Color { r: 10, g: 20, b: 30, a: 255 };
        let out = solid(c, size);
        assert_eq!(out.len(), size.w as usize * size.h as usize * 4);
        for px in out.chunks_exact(4) {
            assert_eq!(px, c.to_shm_bgra());
        }
    }
}

#[test]
fn solid_black_is_opaque_zero_rgb() {
    let out = solid(Color::black(), Size::new(17, 9));
    assert_eq!(out.len(), 17 * 9 * 4);
    for px in out.chunks_exact(4) {
        assert_eq!(px, [0, 0, 0, 255]); // Xrgb8888: R=G=B=0, X=0xff
    }
}

#[test]
fn compose_output_stride_is_width_times_four() {
    let src = image(3, 3, [9, 9, 9, 255]);
    let out = compose(&src, Mode::Fill, RED, Size::new(7, 5));
    assert_eq!(out.len(), 7 * 5 * 4);
}

#[test]
fn rescaling_mixes_neighbours() {
    // Half black, half white: the seam is neither after a rescale to three.
    let src = Pixmap::new(2, 1, vec![0, 0, 0, 255, 255, 255, 255, 255]).unwrap();
    let out = compose(&src, Mode::Stretch, RED, Size::new(3, 1));
    assert!(out[0] < 64, "{}", out[0]);
    assert!((64..=191).contains(&out[4]), "{}", out[4]);
    assert!(out[8] > 191, "{}", out[8]);
}

#[test]
fn transparent_pixels_show_the_fill() {
    let src = image(2, 2, [9, 9, 9, 0]);
    let size = Size::new(2, 2);
    let out = compose(&src, Mode::Center, RED, size);
    assert_eq!(out, solid(RED, size));
}

#[test]
fn exact_size_is_copied_pixel_by_pixel() {
    let px: Vec<u8> = vec![1, 2, 3, 255, 4, 5, 6, 255];
    let src = Pixmap::new(2, 1, px.clone()).unwrap();
    let size = Size::new(2, 1);
    for mode in [Mode::Fill, Mode::Fit, Mode::Stretch, Mode::Center] {
        assert_eq!(compose(&src, mode, RED, size), [3, 2, 1, 255, 6, 5, 4, 255]);
    }
    let lay = layout(size, size, Mode::Fit);
    assert_eq!(compose_scaled(&px, lay, RED, size), [3, 2, 1, 255, 6, 5, 4, 255]);
}

#[test]
fn pixmaps_need_four_bytes_per_pixel() {
    assert!(Pixmap::new(2, 2, vec![0; 16]).is_some());
    assert!(Pixmap::new(2, 2, vec![0; 15]).is_none());
    assert_eq!(image(3, 2, [0; 4]).get_size(), Size::new(3, 2));
}

#[test]
fn sizes_that_can_be_shown() {
    assert!(Size::new(3840, 2160).is_showable());
    assert!(Size::new((1 << 29) - 1, 1).is_showable());
    assert!(!Size::new(1 << 29, 1).is_showable());
    assert!(!Size::new(1, 1 << 31).is_showable());
    assert!(can_compose(Size::new(10, 10), Mode::Fill, Size::new(20, 20)));
    assert!(!can_compose(Size::new(10, 10), Mode::Fill, Size::new(u32::MAX, u32::MAX)));
    // Only beyond the resampler's precision is a side refused.
    let long = |n: u32| Size::new(n, 1);
    assert!(can_compose(long(1), Mode::Stretch, long(u32::MAX)));
    assert!(can_compose(long(2_000_000), Mode::Stretch, long(1_500_000)));
    assert!(can_compose(long(1 << 24), Mode::Stretch, long(u32::MAX)));
    assert!(can_compose(long(1 << 28), Mode::Stretch, long(1 << 22)));
    assert!(can_compose(long(1 << 28), Mode::Stretch, Size::new(1 << 28, 2)));
    assert!(!can_compose(long((1 << 24) + 1), Mode::Stretch, long(1 << 25)));
    assert!(!can_compose(long((1 << 24) + 1), Mode::Stretch, long((1 << 22) + 1)));
}

#[test]
fn long_sides_are_rescaled() {
    let src = image(2_000_000, 1, [1, 2, 3, 255]);
    let out = compose(&src, Mode::Stretch, RED, Size::new(1_500_000, 1));
    assert_eq!(out.len(), 1_500_000 * 4);
    assert!(out.chunks(4).all(|p| p == [3, 2, 1, 255]));
}

#[test]
fn a_pixel_is_stretched_as_far_as_asked() {
    let out = compose(&image(1, 1, [1, 2, 3, 255]), Mode::Stretch, RED, Size::new(1_048_577, 1));
    assert_eq!(out.len(), 1_048_577 * 4);
    assert!(out.chunks(4).all(|p| p == [3, 2, 1, 255]));
}

#[test]
fn blend_ends_and_middle() {
    let from = [0u8, 10, 255, 7];
    let to = [255u8, 20, 0, 7];
    assert_eq!(blend(&from, &to, 0), from);
    assert_eq!(blend(&from, &to, ONE), to);
    assert_eq!(blend(&from, &to, u32::MAX), to);
    assert_eq!(blend(&from, &to, ONE / 2), [128, 15, 128, 7]);
    assert_eq!(blend(&from, &to, ONE / 4), [64, 13, 191, 7]);
}

#[test]
fn blend_into_reaches_as_far_as_all_three() {
    let mut canvas = [9u8; 5];
    blend_into(&mut canvas, &[0, 0, 0], &[100, 100, 100, 100], ONE / 2);
    assert_eq!(canvas, [50, 50, 50, 9, 9]);
    let mut canvas = [9u8; 2];
    copy_into(&mut canvas, &[1, 2, 3]);
    assert_eq!(canvas, [1, 2]);
    let mut canvas = [9u8; 3];
    copy_into(&mut canvas, &[1]);
    assert_eq!(canvas, [1, 9, 9]);
}

#[test]
fn a_sample_past_the_last_pixel_still_has_weight() {
    // Single precision puts the last samples of these sides two pixels too far.
    let src = image(10_479_707, 1, [1, 2, 3, 255]);
    let out = compose(&src, Mode::Stretch, RED, Size::new(20_943_041, 1));
    assert_eq!(out.len(), 20_943_041 * 4);
    assert!(out.chunks(4).all(|p| p == [3, 2, 1, 255]));
}
