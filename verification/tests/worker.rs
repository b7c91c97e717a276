use image::{Rgba, RgbaImage};
use niribg::color::Color;
use niribg::config::Mode;
use niribg::daemon::render::{Pixmap, Size};
use niribg::daemon::worker::{
    check_area, check_dimensions, render_decoded, render_image, Job, Rendered,
};

fn png(w: u32, h: u32, px: [u8; 4]) -> Vec<u8> {
    let mut out = std::io::Cursor::new(Vec::new());
    RgbaImage::from_pixel(w, h, Rgba(px))
        .write_to(&mut out, image::ImageFormat::Png)
        .unwrap();
    out.into_inner()
}

fn job(target: Size) -> Job {
    Job {
        token: 7,
        generation: 3,
        output: "eDP-1".to_string(),
        target,
        path: "/tmp/wall.png".to_string(),
        mode: Mode::Stretch,
        fill: Color::black(),
        blur_radius: 30,
        blur_dim_bits: 0,
        fade: true,
    }
}

#[test]
fn area_guard() {
    assert!(check_area(10_000, 10_000).is_ok()); // exactly 100 MP
    assert!(check_area(10_001, 10_000).is_err());
    assert!(check_area(u32::MAX, u32::MAX).is_err());
    let msg = check_area(20_000, 20_000).unwrap_err().to_string();
    assert!(msg.contains("400000000"), "{msg}");
    assert_eq!(
        msg,
        "image is 20000x20000 (400000000 pixels); the limit is 100000000"
    );
}

#[test]
fn renders_a_png_to_target_size() {
    let data = png(8, 8, [0, 128, 255, 255]);
    let j = job(Size::new(4, 3));
    let sharp = render_image(&j.path, &data, j.mode, j.fill, j.target).unwrap().expect("ok");
    let blurred = sharp.clone();
    let size = j.target;
    let res = j.answer(Ok(Rendered { size, sharp, blurred }));
    assert_eq!(res.token, 7);
    assert_eq!(res.generation, 3);
    assert_eq!(res.output, "eDP-1");
    assert!(res.fade);
    let rendered = res.outcome.expect("ok");
    assert_eq!(rendered.size, Size::new(4, 3));
    assert_eq!(rendered.sharp.len(), 4 * 3 * 4);
    // stretch of a solid image: every pixel is that colour in BGRA
    assert_eq!(&rendered.sharp[0..4], &[255, 128, 0, 255]);
}

#[test]
fn a_normal_image_passes_and_composes() {
    let data = png(64, 64, [1, 2, 3, 255]);
    let r = render_image("ok.png", &data, Mode::Fit, Color::black(), Size::new(10, 10))
        .unwrap()
        .unwrap();
    assert_eq!(r.len(), 10 * 10 * 4);
}

#[test]
fn garbage_is_refused_by_its_dimensions() {
    let err = render_image("/x/w.png", b"no png", Mode::Fit, Color::black(), Size::new(2, 2))
        .unwrap()
        .unwrap_err();
    assert!(err.starts_with("reading image dimensions of /x/w.png: "), "{err}");
}

#[test]
fn an_unknown_extension_is_refused() {
    let data = png(2, 2, [1, 2, 3, 255]);
    let err = render_image("/x/w.txt", &data, Mode::Fit, Color::black(), Size::new(2, 2))
        .unwrap()
        .unwrap_err();
    assert!(err.starts_with("reading image dimensions of /x/w.txt: "), "{err}");
}

#[test]
fn an_empty_extension_names_no_format() {
    let data = png(2, 2, [1, 2, 3, 255]);
    for (path, why) in [
        ("/x/w.", "The image format could not be determined"),
        ("/x/w", "The image format could not be determined"),
        ("/x/w.txt", "The file extension `.\"txt\"` was not recognized as an image format"),
    ] {
        let err = render_image(path, &data, Mode::Fit, Color::black(), Size::new(2, 2))
            .unwrap()
            .unwrap_err();
        assert_eq!(err, format!("reading image dimensions of {path}: {why}"));
    }
}

#[test]
fn a_truncated_image_fails_to_decode() {
    let mut data = png(64, 64, [1, 2, 3, 255]);
    data.truncate(60);
    let err = render_image("w.png", &data, Mode::Fit, Color::black(), Size::new(2, 2))
        .unwrap()
        .unwrap_err();
    assert!(err.starts_with("decoding w.png: "), "{err}");
}

#[test]
fn dimensions_decide_what_is_decoded() {
    assert_eq!(check_dimensions("a.png", Ok((10, 10))), Ok(()));
    assert_eq!(
        check_dimensions("a.png", Ok((20_000, 20_000))),
        Err("a.png: image is 20000x20000 (400000000 pixels); the limit is 100000000".to_string())
    );
    assert_eq!(
        check_dimensions("a.png", Err("nope".to_string())),
        Err("reading image dimensions of a.png: nope".to_string())
    );
}

#[test]
fn a_decoded_image_is_composed() {
    let size = Size::new(1, 1);
    let img = Pixmap::new(1, 1, vec![1, 2, 3, 255]).unwrap();
    assert_eq!(
        render_decoded("a.png", Ok(img), Mode::Fill, Color::black(), size),
        Ok(vec![3, 2, 1, 255])
    );
    assert_eq!(
        render_decoded("a.png", Err("torn".to_string()), Mode::Fill, Color::black(), size),
        Err("decoding a.png: torn".to_string())
    );
}

#[test]
fn a_failed_job_keeps_its_tags() {
    let res = job(Size::new(1, 1)).answer(Err("gone".to_string()));
    assert_eq!((res.token, res.generation), (7, 3));
    assert_eq!(res.outcome, Err("gone".to_string()));
}

#[test]
fn a_buffer_beyond_the_machine_is_not_composed() {
    let data = png(2, 2, [1, 2, 3, 255]);
    let target = Size::new(u32::MAX, u32::MAX);
    assert!(render_image("w.png", &data, Mode::Fill, Color::black(), target).is_none());
}
