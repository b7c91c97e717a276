//! Fit-mode geometry, composition of an image over a fill colour, and the
//! crossfade of two finished buffers. Pure: no Wayland, no files.

use vstd::arithmetic::div_mod::*;
use vstd::arithmetic::mul::*;
use vstd::prelude::*;

use crate::color;
use crate::color::Color;
use crate::config::Mode;
use crate::daemon::anim::ONE;

verus! {

/// A size in physical pixels.
#[derive(Debug, Clone, Copy, PartialEq, Eq, Structural)]
pub struct Size {
    pub w: u32,
    pub h: u32,
}

/// How the source maps onto the destination for one fit mode.
#[derive(Debug, Clone, Copy, PartialEq, Eq, Structural)]
pub struct Layout {
    /// Sub-rectangle of the source image to use.
    pub src_x: u32,
    pub src_y: u32,
    pub src_w: u32,
    pub src_h: u32,
    /// Size that the cropped source is scaled to (the crop's own size for
    /// `center`).
    pub scaled: Size,
    /// Where the scaled image's top-left sits in the destination.
    pub dst_x: u32,
    pub dst_y: u32,
}

/// A decoded image: rows of RGBA pixels, alpha not premultiplied.
#[derive(Debug)]
pub struct Pixmap {
    w: u32,
    h: u32,
    data: Vec<u8>,
}

/// How long a side may be to be rescaled to any length. The resampler places its
/// samples with single-precision floats, which tell all pixels apart up to here;
/// beyond, a sample near the end of the side can miss every pixel.
pub const MAX_EXACT_SIDE: u32 = 0x100_0000;

/// What a longer side can still be rescaled to: then a sample takes in so many
/// pixels that it does not matter which of them are told apart.
pub const MAX_REDUCED_SIDE: u32 = 0x40_0000;

// ------------------------------------------------------------------- model

impl Size {
    /// Whether there is no pixel.
    pub open spec fn no_pixels(self) -> bool {
        self.w == 0 || self.h == 0
    }

    /// Bytes of a four-byte-per-pixel buffer of this size.
    pub open spec fn bytes(self) -> nat {
        self.w as nat * self.h as nat * 4
    }

    /// Whether such a buffer can be allocated at all.
    pub open spec fn allocatable(self) -> bool {
        self.bytes() <= isize::MAX
    }

    /// Whether a buffer of this size can be handed to a compositor, which counts
    /// rows and the bytes of a row in signed 32-bit numbers.
    pub open spec fn showable(self) -> bool {
        &&& self.w * 4 <= i32::MAX
        &&& self.h <= i32::MAX
        &&& self.allocatable()
    }
}

/// `a / b` rounded down, but at least 1.
pub open spec fn ratio_at_least_one(a: nat, b: nat) -> nat {
    if a / b >= 1 {
        a / b
    } else {
        1
    }
}

/// Largest size with the aspect ratio of `src` that fits inside `dst`, no side
/// below 1.
pub open spec fn contained(src: Size, dst: Size) -> Size {
    let w = dst.h as nat * src.w as nat / src.h as nat;
    if w <= dst.w {
        Size { w: ratio_at_least_one(dst.h as nat * src.w as nat, src.h as nat) as u32, h: dst.h }
    } else {
        Size { w: dst.w, h: ratio_at_least_one(dst.w as nat * src.h as nat, src.w as nat) as u32 }
    }
}

/// Part of `src` with the aspect ratio of `dst`, one side kept whole and no
/// side below 1.
pub open spec fn cropped_to_aspect(src: Size, dst: Size) -> Size {
    if src.w as nat * dst.h as nat > dst.w as nat * src.h as nat {
        Size { w: ratio_at_least_one(src.h as nat * dst.w as nat, dst.h as nat) as u32, h: src.h }
    } else {
        Size { w: src.w, h: ratio_at_least_one(src.w as nat * dst.h as nat, dst.w as nat) as u32 }
    }
}

/// The smaller of two lengths.
pub open spec fn least(a: u32, b: u32) -> u32 {
    if a <= b {
        a
    } else {
        b
    }
}

/// How `src` is placed into `dst` under `mode`.
pub open spec fn placed(src: Size, dst: Size, mode: Mode) -> Layout {
    if src.no_pixels() || dst.no_pixels() {
        Layout {
            src_x: 0,
            src_y: 0,
            src_w: src.w,
            src_h: src.h,
            scaled: Size { w: 0, h: 0 },
            dst_x: 0,
            dst_y: 0,
        }
    } else {
        match mode {
            Mode::Stretch => Layout {
                src_x: 0,
                src_y: 0,
                src_w: src.w,
                src_h: src.h,
                scaled: dst,
                dst_x: 0,
                dst_y: 0,
            },
            Mode::Fit => {
                let s = contained(src, dst);
                Layout {
                    src_x: 0,
                    src_y: 0,
                    src_w: src.w,
                    src_h: src.h,
                    scaled: s,
                    dst_x: ((dst.w - s.w) / 2) as u32,
                    dst_y: ((dst.h - s.h) / 2) as u32,
                }
            },
            Mode::Fill => {
                let c = cropped_to_aspect(src, dst);
                Layout {
                    src_x: ((src.w - c.w) / 2) as u32,
                    src_y: ((src.h - c.h) / 2) as u32,
                    src_w: c.w,
                    src_h: c.h,
                    scaled: dst,
                    dst_x: 0,
                    dst_y: 0,
                }
            },
            Mode::Center => {
                let c = Size { w: least(src.w, dst.w), h: least(src.h, dst.h) };
                Layout {
                    src_x: ((src.w - c.w) / 2) as u32,
                    src_y: ((src.h - c.h) / 2) as u32,
                    src_w: c.w,
                    src_h: c.h,
                    scaled: c,
                    dst_x: ((dst.w - c.w) / 2) as u32,
                    dst_y: ((dst.h - c.h) / 2) as u32,
                }
            },
        }
    }
}

/// A buffer of `size` in which every pixel is `fill`.
pub open spec fn solid_pixels(fill: Color, size: Size) -> Seq<u8> {
    Seq::new(size.bytes(), |i: int| color::shm_bgra(fill)[i % 4])
}

impl Pixmap {
    /// Width and height.
    pub closed spec fn size(self) -> Size {
        Size { w: self.w, h: self.h }
    }

    #[verifier::type_invariant]
    spec fn filled(self) -> bool {
        self.data@.len() == self.w as nat * self.h as nat * 4
    }
}

impl View for Pixmap {
    type V = Seq<u8>;

    closed spec fn view(&self) -> Seq<u8> {
        self.data@
    }
}

/// Byte `i` of the `w`-wide rectangle at `(x, y)` of an image `src_w` wide.
pub open spec fn crop_byte(src: Seq<u8>, src_w: nat, x: nat, y: nat, w: nat, i: int) -> u8 {
    src[((y + i / 4 / (w as int)) * src_w + x + i / 4 % (w as int)) * 4 + i % 4]
}

/// The `w` by `h` rectangle at `(x, y)` of an image `src_w` wide.
pub open spec fn cropped(src: Seq<u8>, src_w: nat, x: nat, y: nat, w: nat, h: nat) -> Seq<u8> {
    Seq::new(w * h * 4, |i: int| crop_byte(src, src_w, x, y, w, i))
}

/// `out`, of `w` by `h` pixels, is what rescaling the `src_w` by `src_h` RGBA
/// image `src` with the Lanczos3 filter of `image::imageops::resize` gives.
pub uninterp spec fn lanczos3(
    src: Seq<u8>,
    src_w: u32,
    src_h: u32,
    out: Seq<u8>,
    w: u32,
    h: u32,
) -> bool;

/// `scaled` is the part of `src` that `lay` uses, at the size that it is shown.
pub open spec fn scaled_part(src: Seq<u8>, src_w: u32, lay: Layout, scaled: Seq<u8>) -> bool {
    let crop = cropped(
        src,
        src_w as nat,
        lay.src_x as nat,
        lay.src_y as nat,
        lay.src_w as nat,
        lay.src_h as nat,
    );
    &&& scaled.len() == lay.scaled.bytes()
    &&& if lay.scaled == (Size { w: lay.src_w, h: lay.src_h }) {
        scaled == crop
    } else {
        lanczos3(crop, lay.src_w, lay.src_h, scaled, lay.scaled.w, lay.scaled.h)
    }
}

/// Channel `c` (blue, green, red, pad) of the RGBA pixel at `k` of `fg` laid
/// over `fill`, where `under` is what the buffer holds.
pub open spec fn over_byte(fg: Seq<u8>, k: int, fill: Color, under: u8, c: int) -> u8 {
    let a = fg[k + 3];
    if a == 0 {
        under
    } else if c == 3 {
        255
    } else {
        let fgc = fg[k + 2 - c];
        let bgc = if c == 0 {
            fill.b
        } else if c == 1 {
            fill.g
        } else {
            fill.r
        };
        if a == 255 {
            fgc
        } else {
            ((fgc * a + bgc * (255 - a)) / 255) as u8
        }
    }
}

/// Byte `i` of `base`, a buffer `w` wide, after the `fw` by `fh` image `fg` was
/// laid over it at `(ox, oy)`.
pub open spec fn blit_byte(
    base: Seq<u8>,
    w: nat,
    fg: Seq<u8>,
    fw: nat,
    fh: nat,
    ox: nat,
    oy: nat,
    fill: Color,
    i: int,
) -> u8 {
    let x = i / 4 % (w as int);
    let y = i / 4 / (w as int);
    if ox <= x < ox + fw && oy <= y < oy + fh {
        over_byte(fg, ((y - oy) * fw + (x - ox)) * 4, fill, base[i], i % 4)
    } else {
        base[i]
    }
}

/// `base` after the blit.
pub open spec fn blitted(
    base: Seq<u8>,
    w: nat,
    fg: Seq<u8>,
    fw: nat,
    fh: nat,
    ox: nat,
    oy: nat,
    fill: Color,
) -> Seq<u8> {
    Seq::new(base.len(), |i: int| blit_byte(base, w, fg, fw, fh, ox, oy, fill, i))
}

/// The buffer that shows `scaled` where `lay` puts it, over `fill`.
pub open spec fn painted(scaled: Seq<u8>, lay: Layout, fill: Color, out: Size) -> Seq<u8> {
    blitted(
        solid_pixels(fill, out),
        out.w as nat,
        scaled,
        lay.scaled.w as nat,
        lay.scaled.h as nat,
        lay.dst_x as nat,
        lay.dst_y as nat,
        fill,
    )
}

/// `r` shows the RGBA image `src` of `size` pixels in an `out` buffer, as
/// `mode` places it, over `fill`.
pub open spec fn composition(
    src: Seq<u8>,
    size: Size,
    mode: Mode,
    fill: Color,
    out: Size,
    r: Seq<u8>,
) -> bool {
    let lay = placed(size, out, mode);
    if lay.scaled.no_pixels() {
        r == solid_pixels(fill, out)
    } else {
        exists|scaled: Seq<u8>| #[trigger]
            scaled_part(src, size.w, lay, scaled) && r == painted(scaled, lay, fill, out)
    }
}

/// Whether the resampler can rescale a side of `from` pixels to one of `to`: its
/// precision suffices, and its list of weights, which grows by doubling, can be
/// allocated.
pub open spec fn side_ok(from: u32, to: u32) -> bool {
    &&& from == to || from <= MAX_EXACT_SIDE || to <= MAX_REDUCED_SIDE
    &&& from as nat * 8 <= isize::MAX
}

/// Whether the resampler can do what `lay` asks for: it can rescale both sides,
/// and the intermediate buffer can be allocated.
pub open spec fn resample_ok(lay: Layout) -> bool {
    ||| lay.scaled == (Size { w: lay.src_w, h: lay.src_h })
    ||| {
        &&& side_ok(lay.src_w, lay.scaled.w)
        &&& side_ok(lay.src_h, lay.scaled.h)
        &&& lay.src_w as nat * lay.scaled.h as nat * 16 <= isize::MAX
    }
}

/// Whether an image of `src` pixels can be composed into `out`.
pub open spec fn composable(src: Size, mode: Mode, out: Size) -> bool {
    out.allocatable() && (placed(src, out, mode).scaled.no_pixels() || resample_ok(
        placed(src, out, mode),
    ))
}

/// One byte of a crossfade at `t`, in units of `1 / ONE`, rounded to nearest.
pub open spec fn mixed(a: u8, b: u8, t: nat) -> u8 {
    ((a * (ONE - t) + b * t + ONE / 2) / (ONE as int)) as u8
}

/// `t`, but no more than [`ONE`].
pub open spec fn clamped(t: u32) -> nat {
    if t <= ONE {
        t as nat
    } else {
        ONE as nat
    }
}

/// The crossfade of two buffers at `t`.
pub open spec fn blended(from: Seq<u8>, to: Seq<u8>, t: nat) -> Seq<u8> {
    Seq::new(from.len(), |i: int| mixed(from[i], to[i], t))
}

// -------------------------------------------------------------------- code

impl Size {
    #[must_use]
    pub fn new(w: u32, h: u32) -> (r: Size)
        ensures
            r == (Size { w, h }),
    {
        Size { w, h }
    }

    /// Whether there is no pixel.
    pub fn is_empty(self) -> (r: bool)
        ensures
            r == self.no_pixels(),
    {
        self.w == 0 || self.h == 0
    }
}

/// `ratio_at_least_one` is at most `bound` where `a <= b * bound`.
proof fn lemma_ratio_bound(a: nat, b: nat, bound: nat)
    requires
        b > 0,
        bound >= 1,
        a <= b * bound,
    ensures
        1 <= ratio_at_least_one(a, b) <= bound,
{
    lemma_div_is_ordered(a as int, (b * bound) as int, b as int);
    lemma_div_multiples_vanish(bound as int, b as int);
    assert(b * bound == bound * b) by (nonlinear_arith);
}

proof fn lemma_u32_product(a: u32, b: u32)
    ensures
        0 <= a as nat * b as nat <= u64::MAX,
{
    assert(a as nat * b as nat <= 0xffff_ffff * 0xffff_ffff) by (nonlinear_arith)
        requires
            a <= 0xffff_ffff,
            b <= 0xffff_ffff,
    ;
}

/// Neither side of `contained` exceeds the destination.
proof fn lemma_contained(src: Size, dst: Size)
    requires
        !src.no_pixels(),
        !dst.no_pixels(),
    ensures
        1 <= contained(src, dst).w <= dst.w,
        1 <= contained(src, dst).h <= dst.h,
        dst.h as nat * src.w as nat / src.h as nat <= dst.w ==> contained(src, dst).w
            == ratio_at_least_one(dst.h as nat * src.w as nat, src.h as nat),
        dst.h as nat * src.w as nat / src.h as nat > dst.w ==> contained(src, dst).h
            == ratio_at_least_one(dst.w as nat * src.h as nat, src.w as nat),
{
    let a = dst.h as nat * src.w as nat;
    let w = a / src.h as nat;
    if w > dst.w {
        // a >= src.h * (dst.w + 1), so dst.w * src.h <= src.w * dst.h.
        lemma_fundamental_div_mod(a as int, src.h as int);
        assert(dst.w as nat * src.h as nat <= src.w as nat * dst.h as nat) by (nonlinear_arith)
            requires
                a == dst.h as nat * src.w as nat,
                a == src.h as nat * w + a % src.h as nat,
                w > dst.w,
        ;
        lemma_ratio_bound(dst.w as nat * src.h as nat, src.w as nat, dst.h as nat);
    }
}

/// Neither side of the crop exceeds the source.
proof fn lemma_cropped(src: Size, dst: Size)
    requires
        !src.no_pixels(),
        !dst.no_pixels(),
    ensures
        1 <= cropped_to_aspect(src, dst).w <= src.w,
        1 <= cropped_to_aspect(src, dst).h <= src.h,
        src.w as nat * dst.h as nat > dst.w as nat * src.h as nat ==> cropped_to_aspect(
            src,
            dst,
        ).w == ratio_at_least_one(src.h as nat * dst.w as nat, dst.h as nat),
        src.w as nat * dst.h as nat <= dst.w as nat * src.h as nat ==> cropped_to_aspect(
            src,
            dst,
        ).h == ratio_at_least_one(src.w as nat * dst.h as nat, dst.w as nat),
{
    if src.w as nat * dst.h as nat > dst.w as nat * src.h as nat {
        assert(src.h as nat * dst.w as nat <= dst.h as nat * src.w as nat) by (nonlinear_arith)
            requires
                src.w as nat * dst.h as nat > dst.w as nat * src.h as nat,
        ;
        lemma_ratio_bound(src.h as nat * dst.w as nat, dst.h as nat, src.w as nat);
    } else {
        lemma_ratio_bound(src.w as nat * dst.h as nat, dst.w as nat, src.h as nat);
    }
}

/// Largest size with `src`'s aspect ratio that fits inside `dst`.
fn contain(src: Size, dst: Size) -> (r: Size)
    requires
        !src.no_pixels(),
        !dst.no_pixels(),
    ensures
        r == contained(src, dst),
        1 <= r.w <= dst.w,
        1 <= r.h <= dst.h,
{
    proof {
        lemma_contained(src, dst);
        lemma_u32_product(dst.h, src.w);
        lemma_u32_product(dst.w, src.h);
    }
    let w: u64 = dst.h as u64 * src.w as u64 / src.h as u64;
    if w <= dst.w as u64 {
        let w: u64 = if w >= 1 {
            w
        } else {
            1
        };
        Size { w: w as u32, h: dst.h }
    } else {
        let h: u64 = dst.w as u64 * src.h as u64 / src.w as u64;
        let h: u64 = if h >= 1 {
            h
        } else {
            1
        };
        Size { w: dst.w, h: h as u32 }
    }
}

/// Sub-size of `src` whose aspect ratio matches `dst`.
fn crop_to_aspect(src: Size, dst: Size) -> (r: Size)
    requires
        !src.no_pixels(),
        !dst.no_pixels(),
    ensures
        r == cropped_to_aspect(src, dst),
        1 <= r.w <= src.w,
        1 <= r.h <= src.h,
{
    proof {
        lemma_cropped(src, dst);
        lemma_u32_product(src.w, dst.h);
        lemma_u32_product(dst.w, src.h);
        lemma_u32_product(src.h, dst.w);
    }
    if src.w as u64 * dst.h as u64 > dst.w as u64 * src.h as u64 {
        let w: u64 = src.h as u64 * dst.w as u64 / dst.h as u64;
        let w: u64 = if w >= 1 {
            w
        } else {
            1
        };
        Size { w: w as u32, h: src.h }
    } else {
        let h: u64 = src.w as u64 * dst.h as u64 / dst.w as u64;
        let h: u64 = if h >= 1 {
            h
        } else {
            1
        };
        Size { w: src.w, h: h as u32 }
    }
}

/// Compute the [`Layout`] for placing `src` into `dst` under `mode`.
///
/// A source or destination without pixels gives an empty `scaled`.
#[must_use]
pub fn layout(src: Size, dst: Size, mode: Mode) -> (r: Layout)
    ensures
        r == placed(src, dst, mode),
{
    if src.is_empty() || dst.is_empty() {
        return Layout {
            src_x: 0,
            src_y: 0,
            src_w: src.w,
            src_h: src.h,
            scaled: Size { w: 0, h: 0 },
            dst_x: 0,
            dst_y: 0,
        };
    }
    match mode {
        Mode::Stretch => Layout {
            src_x: 0,
            src_y: 0,
            src_w: src.w,
            src_h: src.h,
            scaled: dst,
            dst_x: 0,
            dst_y: 0,
        },
        Mode::Fit => {
            let scaled = contain(src, dst);
            Layout {
                src_x: 0,
                src_y: 0,
                src_w: src.w,
                src_h: src.h,
                scaled,
                dst_x: (dst.w - scaled.w) / 2,
                dst_y: (dst.h - scaled.h) / 2,
            }
        },
        Mode::Fill => {
            let crop = crop_to_aspect(src, dst);
            Layout {
                src_x: (src.w - crop.w) / 2,
                src_y: (src.h - crop.h) / 2,
                src_w: crop.w,
                src_h: crop.h,
                scaled: dst,
                dst_x: 0,
                dst_y: 0,
            }
        },
        Mode::Center => {
            let crop_w: u32 = if src.w <= dst.w {
                src.w
            } else {
                dst.w
            };
            let crop_h: u32 = if src.h <= dst.h {
                src.h
            } else {
                dst.h
            };
            Layout {
                src_x: (src.w - crop_w) / 2,
                src_y: (src.h - crop_h) / 2,
                src_w: crop_w,
                src_h: crop_h,
                scaled: Size { w: crop_w, h: crop_h },
                dst_x: (dst.w - crop_w) / 2,
                dst_y: (dst.h - crop_h) / 2,
            }
        },
    }
}

/// The byte range of pixel `(x, y)` in a buffer `w` wide.
proof fn lemma_pixel_index(y: nat, x: nat, w: nat, i: int)
    requires
        x < w,
        (y * w + x) * 4 <= i < (y * w + x) * 4 + 4,
    ensures
        i / 4 == y * w + x,
        i / 4 / (w as int) == y,
        i / 4 % (w as int) == x,
        i % 4 == i - (y * w + x) * 4,
{
    lemma_fundamental_div_mod_converse((y * w + x) as int, w as int, y as int, x as int);
}

/// Pixel `(x, y)` lies inside a `w` by `h` buffer.
proof fn lemma_pixel_inside(y: nat, x: nat, w: nat, h: nat)
    requires
        x < w,
        y < h,
    ensures
        y * w + x + 1 <= w * h,
        y * w <= w * h,
{
    assert(y * w + x + 1 <= w * h) by (nonlinear_arith)
        requires
            x < w,
            y < h,
    ;
    assert(y * w <= w * h) by (nonlinear_arith)
        requires
            y < h,
    ;
}

/// A buffer of `size.w * size.h * 4` bytes filled with `fill` in `Xrgb8888`
/// order: the colour-only wallpaper, and the background that [`compose`] paints
/// images over.
#[must_use]
pub fn solid(fill: Color, size: Size) -> (r: Vec<u8>)
    requires
        size.allocatable(),
    ensures
        r@ == solid_pixels(fill, size),
{
    assert(size.w as nat * size.h as nat <= size.bytes()) by (nonlinear_arith)
        requires
            size.bytes() == size.w as nat * size.h as nat * 4,
    ;
    let len: usize = (size.w as usize) * (size.h as usize) * 4;
    let px = fill.to_shm_bgra();
    let mut out: Vec<u8> = Vec::with_capacity(len);
    while out.len() < len
        invariant
            len == size.bytes(),
            px@ == color::shm_bgra(fill),
            out@.len() <= len,
            out@.len() % 4 == 0,
            len % 4 == 0,
            out@ == solid_pixels(fill, size).take(out@.len() as int),
        decreases len - out@.len(),
    {
        let ghost before = out@;
        out.push(px[0]);
        out.push(px[1]);
        out.push(px[2]);
        out.push(px[3]);
        assert(out@ =~= solid_pixels(fill, size).take(out@.len() as int));
    }
    assert(out@ =~= solid_pixels(fill, size));
    out
}

impl Pixmap {
    /// The image of `w` by `h` pixels with the given RGBA bytes; none if their
    /// number is wrong.
    pub fn new(w: u32, h: u32, data: Vec<u8>) -> (r: Option<Pixmap>)
        ensures
            match r {
                Some(p) => data@.len() == w as nat * h as nat * 4 && p.size() == (Size { w, h })
                    && p@ == data@,
                None => data@.len() != w as nat * h as nat * 4,
            },
    {
        proof {
            lemma_u32_product(w, h);
        }
        let area: u128 = w as u128 * h as u128 * 4;
        if data.len() as u128 == area {
            Some(Pixmap { w, h, data })
        } else {
            None
        }
    }

    /// The `w` by `h` rectangle at `(x, y)` of this image.
    fn crop(&self, x: u32, y: u32, w: u32, h: u32) -> (r: Pixmap)
        requires
            w > 0,
            x + w <= self.size().w,
            y + h <= self.size().h,
        ensures
            r.size() == (Size { w, h }),
            r@ == cropped(self@, self.size().w as nat, x as nat, y as nat, w as nat, h as nat),
    {
        proof {
            use_type_invariant(self);
        }
        let ghost goal = cropped(
            self@,
            self.size().w as nat,
            x as nat,
            y as nat,
            w as nat,
            h as nat,
        );
        let (cw, ch, sw) = (w as usize, h as usize, self.w as usize);
        let (cx, cy) = (x as usize, y as usize);
        let total: usize = self.data.len();
        let mut out: Vec<u8> = Vec::new();
        let mut row: usize = 0;
        while row < ch
            invariant
                total == self.data@.len(),
                self.data@.len() == self.w as nat * self.h as nat * 4,
                cw == w,
                ch == h,
                sw == self.w,
                cx == x,
                cy == y,
                cw > 0,
                cx + cw <= self.w,
                cy + ch <= self.h,
                row <= ch,
                goal == cropped(self@, self.w as nat, x as nat, y as nat, w as nat, h as nat),
                out@.len() == row * cw * 4,
                forall|i: int| 0 <= i < out@.len() ==> #[trigger] out@[i] == goal[i],
                out@.len() <= goal.len(),
            decreases ch - row,
        {
            let mut col: usize = 0;
            while col < cw
                invariant
                    total == self.data@.len(),
                self.data@.len() == self.w as nat * self.h as nat * 4,
                    cw == w,
                    ch == h,
                    sw == self.w,
                    cx == x,
                    cy == y,
                    cx + cw <= self.w,
                    cy + ch <= self.h,
                    row < ch,
                    col <= cw,
                    goal == cropped(self@, self.w as nat, x as nat, y as nat, w as nat, h as nat),
                    out@.len() == (row * cw + col) * 4,
                    forall|i: int| 0 <= i < out@.len() ==> #[trigger] out@[i] == goal[i],
                decreases cw - col,
            {
                proof {
                    lemma_pixel_inside((cy + row) as nat, (cx + col) as nat, sw as nat, self.h as nat);
                    lemma_pixel_inside(row as nat, col as nat, cw as nat, ch as nat);
                }
                let k: usize = ((cy + row) * sw + (cx + col)) * 4;
                let ghost before = out@;
                out.push(self.data[k]);
                out.push(self.data[k + 1]);
                out.push(self.data[k + 2]);
                out.push(self.data[k + 3]);
                proof {
                    assert forall|i: int| 0 <= i < out@.len() implies #[trigger] out@[i] == goal[i] by {
                        if i < before.len() {
                            assert(out@[i] == before[i]);
                        } else {
                            lemma_pixel_index(row as nat, col as nat, cw as nat, i);
                            assert(goal[i] == self@[k + i % 4]);
                        }
                    }
                }
                col += 1;
            }
            proof {
                assert((row * cw + cw) * 4 == (row + 1) * cw * 4) by (nonlinear_arith);
                assert((row + 1) * cw * 4 <= goal.len()) by (nonlinear_arith)
                    requires
                        row < ch,
                        goal.len() == cw * ch * 4,
                ;
            }
            row += 1;
        }
        assert(ch * cw * 4 == cw * ch * 4) by (nonlinear_arith);
        assert(out@ =~= goal);
        Pixmap { w, h, data: out }
    }
}

/// Rescale with `image::imageops::resize` and its Lanczos3 filter. It divides by
/// the sum of the weights around each sample and fails if that is not a number:
/// sides on which single precision could leave a sample without weight are left
/// out, as are sizes that cannot be allocated. The result
/// has the size asked for, and is what [`lanczos3`] relates to the source; the
/// values of its bytes are not stated further, since the filter's weights come
/// from the platform's floating-point sine.
#[verifier::external_body]
fn resize_lanczos3(src: Pixmap, w: u32, h: u32) -> (r: Vec<u8>)
    requires
        !src.size().no_pixels(),
        !(Size { w, h }).no_pixels(),
        side_ok(src.size().w, w),
        side_ok(src.size().h, h),
        (Size { w, h }).allocatable(),
        src.size().w as nat * h as nat * 16 <= isize::MAX,
    ensures
        r@.len() == (Size { w, h }).bytes(),
        lanczos3(src@, src.size().w, src.size().h, r@, w, h),
{
    let image = image::RgbaImage::from_raw(src.w, src.h, src.data).expect("the buffer is filled");
    image::imageops::resize(&image, w, h, image::imageops::FilterType::Lanczos3).into_raw()
}

/// One channel of a partly transparent pixel over an opaque one.
fn mix_channel(c: u8, under: u8, a: u8) -> (r: u8)
    ensures
        r == ((c * a + under * (255 - a)) / 255) as u8,
{
    assert(c * a + under * (255 - a) <= 255 * 255) by (nonlinear_arith)
        requires
            0 <= c <= 255,
            0 <= under <= 255,
            0 <= a <= 255,
    ;
    assert(0 <= c * a <= 255 * 255) by (nonlinear_arith)
        requires
            0 <= c <= 255,
            0 <= a <= 255,
    ;
    assert(0 <= under * (255 - a) <= 255 * 255) by (nonlinear_arith)
        requires
            0 <= under <= 255,
            0 <= a <= 255,
    ;
    ((c as u32 * a as u32 + under as u32 * (255 - a as u32)) / 255) as u8
}

/// Alpha-composite `fg` (RGBA, `fg_size`) over the already painted `out`
/// (BGRA), at `(ox, oy)`.
fn blit_over(
    out: &mut Vec<u8>,
    out_size: Size,
    fg: &Vec<u8>,
    fg_size: Size,
    ox: u32,
    oy: u32,
    fill: Color,
)
    requires
        old(out)@.len() == out_size.bytes(),
        fg@.len() == fg_size.bytes(),
        ox + fg_size.w <= out_size.w,
        oy + fg_size.h <= out_size.h,
    ensures
        final(out)@ == blitted(
            old(out)@,
            out_size.w as nat,
            fg@,
            fg_size.w as nat,
            fg_size.h as nat,
            ox as nat,
            oy as nat,
            fill,
        ),
{
    let ghost base = out@;
    let ghost w = out_size.w as nat;
    let ghost fw = fg_size.w as nat;
    let ghost fh = fg_size.h as nat;
    let ghost goal = blitted(base, w, fg@, fw, fh, ox as nat, oy as nat, fill);
    let (cols, rows) = (fg_size.w as usize, fg_size.h as usize);
    let (left, top) = (ox as usize, oy as usize);
    let stride: usize = out_size.w as usize;
    let total: usize = out.len();
    let fg_total: usize = fg.len();
    let mut fy: usize = 0;
    while fy < rows
        invariant
            total == base.len(),
            fg_total == fg@.len(),
            base.len() == out_size.bytes(),
            fg@.len() == fg_size.bytes(),
            w == out_size.w == stride,
            fw == fg_size.w == cols,
            fh == fg_size.h == rows,
            left == ox,
            top == oy,
            left + cols <= out_size.w,
            top + rows <= out_size.h,
            goal == blitted(base, w, fg@, fw, fh, ox as nat, oy as nat, fill),
            fy <= rows,
            out@.len() == base.len(),
            forall|i: int|
                0 <= i < base.len() ==> #[trigger] out@[i] == (if i / 4 / (w as int) < oy + fy {
                    goal[i]
                } else {
                    base[i]
                }),
        decreases rows - fy,
    {
        let mut fx: usize = 0;
        while fx < cols
            invariant
                total == base.len(),
                fg_total == fg@.len(),
                base.len() == out_size.bytes(),
                fg@.len() == fg_size.bytes(),
                w == out_size.w == stride,
                fw == fg_size.w == cols,
                fh == fg_size.h == rows,
                left == ox,
                top == oy,
                left + cols <= out_size.w,
                top + rows <= out_size.h,
                goal == blitted(base, w, fg@, fw, fh, ox as nat, oy as nat, fill),
                fy < rows,
                fx <= cols,
                out@.len() == base.len(),
                forall|i: int|
                    0 <= i < base.len() ==> #[trigger] out@[i] == (if i / 4 / (w as int) < oy + fy
                        || (i / 4 / (w as int) == oy + fy && i / 4 % (w as int) < ox + fx) {
                        goal[i]
                    } else {
                        base[i]
                    }),
            decreases cols - fx,
        {
            proof {
                lemma_pixel_inside((top + fy) as nat, (left + fx) as nat, w, out_size.h as nat);
                lemma_pixel_inside(fy as nat, fx as nat, fw, fh);
            }
            let i: usize = ((top + fy) * stride + (left + fx)) * 4;
            let k: usize = (fy * cols + fx) * 4;
            let (r, g, b, a) = (fg[k], fg[k + 1], fg[k + 2], fg[k + 3]);
            let ghost before = out@;
            proof {
                lemma_pixel_index((top + fy) as nat, (left + fx) as nat, w, i as int);
                lemma_pixel_index((top + fy) as nat, (left + fx) as nat, w, i + 1);
                lemma_pixel_index((top + fy) as nat, (left + fx) as nat, w, i + 2);
                lemma_pixel_index((top + fy) as nat, (left + fx) as nat, w, i + 3);
                assert(goal[i as int] == over_byte(fg@, k as int, fill, base[i as int], 0));
                assert(goal[i + 1] == over_byte(fg@, k as int, fill, base[i + 1], 1));
                assert(goal[i + 2] == over_byte(fg@, k as int, fill, base[i + 2], 2));
                assert(goal[i + 3] == over_byte(fg@, k as int, fill, base[i + 3], 3));
            }
            if a == 255 {
                out.set(i, b);
                out.set(i + 1, g);
                out.set(i + 2, r);
                out.set(i + 3, 255);
            } else if a == 0 {
            } else {
                out.set(i, mix_channel(b, fill.b, a));
                out.set(i + 1, mix_channel(g, fill.g, a));
                out.set(i + 2, mix_channel(r, fill.r, a));
                out.set(i + 3, 255);
            }
            proof {
                assert forall|j: int| 0 <= j < base.len() implies #[trigger] out@[j] == (if j / 4
                    / (w as int) < oy + fy || (j / 4 / (w as int) == oy + fy && j / 4 % (w as int) < ox
                    + fx + 1) {
                    goal[j]
                } else {
                    base[j]
                }) by {
                    if i <= j < i + 4 {
                        assert(before[j] == base[j]);
                    } else {
                        assert(out@[j] == before[j]);
                        if j / 4 / (w as int) == oy + fy && j / 4 % (w as int) == ox + fx {
                            lemma_fundamental_div_mod(j / 4, w as int);
                            lemma_mul_is_commutative(w as int, (oy + fy) as int);
                            assert(j / 4 == (top + fy) * stride + (left + fx));
                        }
                    }
                }
            }
            fx += 1;
        }
        proof {
            assert forall|j: int| 0 <= j < base.len() implies #[trigger] out@[j] == (if j / 4
                / (w as int) < oy + fy + 1 {
                goal[j]
            } else {
                base[j]
            }) by {
                if j / 4 / (w as int) == oy + fy && j / 4 % (w as int) >= ox + fw {
                    assert(goal[j] == base[j]);
                }
            }
        }
        fy += 1;
    }
    proof {
        assert forall|j: int| 0 <= j < base.len() implies out@[j] == goal[j] by {
            if j / 4 / (w as int) >= oy + fh {
                assert(goal[j] == base[j]);
            }
        }
        assert(out@ =~= goal);
    }
}

impl Size {
    /// Whether a buffer of this size can be handed to a compositor.
    #[must_use]
    pub fn is_showable(&self) -> (r: bool)
        ensures
            r == self.showable(),
    {
        proof {
            lemma_u32_product(self.w, self.h);
        }
        self.w as u64 * 4 <= i32::MAX as u64 && self.h <= i32::MAX as u32 && self.w as u128
            * self.h as u128 * 4 <= isize::MAX as u128
    }
}

/// Whether the resampler can rescale a side of `from` pixels to one of `to`.
fn can_rescale(from: u32, to: u32) -> (r: bool)
    ensures
        r == side_ok(from, to),
{
    (from == to || from <= MAX_EXACT_SIDE || to <= MAX_REDUCED_SIDE) && from as u64 * 8
        <= isize::MAX as u64
}

/// Whether [`compose`] can place an image of `src` pixels into `out_size`.
pub fn can_compose(src: Size, mode: Mode, out_size: Size) -> (r: bool)
    ensures
        r == composable(src, mode, out_size),
{
    proof {
        lemma_u32_product(out_size.w, out_size.h);
    }
    let lay = layout(src, out_size, mode);
    proof {
        lemma_u32_product(lay.src_w, lay.scaled.h);
    }
    let bytes: u128 = out_size.w as u128 * out_size.h as u128 * 4;
    let inner: u128 = lay.src_w as u128 * lay.scaled.h as u128 * 16;
    bytes <= isize::MAX as u128 && (lay.scaled.is_empty() || lay.scaled == (Size {
        w: lay.src_w,
        h: lay.src_h,
    }) || (can_rescale(lay.src_w, lay.scaled.w) && can_rescale(lay.src_h, lay.scaled.h) && inner
        <= isize::MAX as u128))
}

/// Lay `scaled`, an RGBA image of `lay.scaled`, over a `fill` background where
/// `lay` puts it.
pub fn compose_scaled(scaled: &Vec<u8>, lay: Layout, fill: Color, out_size: Size) -> (r: Vec<u8>)
    requires
        out_size.allocatable(),
        scaled@.len() == lay.scaled.bytes(),
        lay.dst_x + lay.scaled.w <= out_size.w,
        lay.dst_y + lay.scaled.h <= out_size.h,
    ensures
        r@ == painted(scaled@, lay, fill, out_size),
{
    let mut out = solid(fill, out_size);
    blit_over(&mut out, out_size, scaled, lay.scaled, lay.dst_x, lay.dst_y, fill);
    out
}

/// Compose `src` over a `fill` background into an `out_size` buffer of
/// `Xrgb8888` bytes, premultiplied, with a stride of `out_size.w * 4`.
#[must_use]
pub fn compose(src: &Pixmap, mode: Mode, fill: Color, out_size: Size) -> (r: Vec<u8>)
    requires
        composable(src.size(), mode, out_size),
    ensures
        r@.len() == out_size.bytes(),
        composition(src@, src.size(), mode, fill, out_size, r@),
{
    let lay = layout(src.get_size(), out_size, mode);
    if lay.scaled.is_empty() {
        return solid(fill, out_size);
    }
    proof {
        law_layout_within_bounds(src.size(), out_size, mode);
        lemma_bytes_monotonic(lay.scaled, out_size);
    }
    let part = src.crop(lay.src_x, lay.src_y, lay.src_w, lay.src_h);
    let scaled: Vec<u8> = if lay.scaled == (Size { w: lay.src_w, h: lay.src_h }) {
        part.into_data()
    } else {
        resize_lanczos3(part, lay.scaled.w, lay.scaled.h)
    };
    assert(scaled_part(src@, src.size().w, lay, scaled@));
    compose_scaled(&scaled, lay, fill, out_size)
}

proof fn lemma_bytes_monotonic(a: Size, b: Size)
    requires
        a.w <= b.w,
        a.h <= b.h,
    ensures
        a.bytes() <= b.bytes(),
{
    assert(a.w as nat * a.h as nat * 4 <= b.w as nat * b.h as nat * 4) by (nonlinear_arith)
        requires
            a.w <= b.w,
            a.h <= b.h,
    ;
}

impl Pixmap {
    /// Width and height.
    #[must_use]
    pub fn get_size(&self) -> (r: Size)
        ensures
            r == self.size(),
    {
        Size { w: self.w, h: self.h }
    }

    fn into_data(self) -> (r: Vec<u8>)
        ensures
            r@ == self@,
            r@.len() == self.size().bytes(),
    {
        proof {
            use_type_invariant(&self);
        }
        self.data
    }
}

/// One byte of a crossfade.
fn mix(a: u8, b: u8, t: u32) -> (r: u8)
    requires
        t <= ONE,
    ensures
        r == mixed(a, b, t as nat),
{
    proof {
        lemma_mixed(a, b, t as nat);
    }
    ((a as u64 * (ONE - t) as u64 + b as u64 * t as u64 + (ONE / 2) as u64) / ONE as u64) as u8
}

proof fn lemma_mixed(a: u8, b: u8, t: nat)
    requires
        t <= ONE,
    ensures
        0 <= a * (ONE - t) <= 255 * ONE,
        0 <= b * t <= 255 * ONE,
        0 <= (a * (ONE - t) + b * t + ONE / 2) / (ONE as int) <= 255,
        a <= b ==> a <= mixed(a, b, t) <= b,
        b <= a ==> b <= mixed(a, b, t) <= a,
{
    let lo: int = if a <= b { a as int } else { b as int };
    let hi: int = if a <= b { b as int } else { a as int };
    let s = a * (ONE - t) + b * t;
    assert(0 <= a * (ONE - t) <= 255 * ONE) by (nonlinear_arith)
        requires
            0 <= a <= 255,
            t <= ONE,
    ;
    assert(0 <= b * t <= 255 * ONE) by (nonlinear_arith)
        requires
            0 <= b <= 255,
            t <= ONE,
    ;
    assert(lo * ONE <= s <= hi * ONE) by (nonlinear_arith)
        requires
            s == a * (ONE - t) + b * t,
            lo <= a <= hi,
            lo <= b <= hi,
            0 <= t <= ONE,
    ;
    let q = (s + ONE / 2) / (ONE as int);
    assert(lo <= q <= hi) by {
        assert(lo * 0x100_0000 <= s <= hi * 0x100_0000);
    }
}

proof fn lemma_mixed_at_ends(a: u8, b: u8)
    ensures
        mixed(a, b, 0) == a,
        mixed(a, b, ONE as nat) == b,
{
    assert(a * (ONE - 0) + b * 0 == a * 0x100_0000) by (nonlinear_arith);
    assert(a * (ONE - ONE) + b * ONE == b * 0x100_0000) by (nonlinear_arith);
}

/// Blend `from` and `to` at `t` into `canvas`, as far as all three reach. A `t`
/// beyond the end counts as the end.
pub fn blend_into(canvas: &mut [u8], from: &[u8], to: &[u8], t: u32)
    ensures
        final(canvas)@.len() == old(canvas)@.len(),
        forall|i: int|
            0 <= i < old(canvas)@.len() ==> #[trigger] final(canvas)@[i] == (if i < from@.len() && i
                < to@.len() {
                mixed(from@[i], to@[i], clamped(t))
            } else {
                old(canvas)@[i]
            }),
{
    let t: u32 = if t <= ONE {
        t
    } else {
        ONE
    };
    let mut i: usize = 0;
    while i < canvas.len() && i < from.len() && i < to.len()
        invariant
            t <= ONE,
            canvas@.len() == old(canvas)@.len(),
            i <= canvas@.len(),
            i <= from@.len(),
            i <= to@.len(),
            forall|j: int|
                0 <= j < canvas@.len() ==> #[trigger] canvas@[j] == (if j < i {
                    mixed(from@[j], to@[j], t as nat)
                } else {
                    old(canvas)@[j]
                }),
        decreases canvas@.len() - i,
    {
        canvas[i] = mix(from[i], to[i], t);
        i += 1;
    }
}

/// Copy `pixels` into `canvas`, as far as both reach.
pub fn copy_into(canvas: &mut [u8], pixels: &[u8])
    ensures
        final(canvas)@.len() == old(canvas)@.len(),
        forall|i: int|
            0 <= i < old(canvas)@.len() ==> #[trigger] final(canvas)@[i] == (if i < pixels@.len() {
                pixels@[i]
            } else {
                old(canvas)@[i]
            }),
{
    let mut i: usize = 0;
    while i < canvas.len() && i < pixels.len()
        invariant
            canvas@.len() == old(canvas)@.len(),
            i <= canvas@.len(),
            i <= pixels@.len(),
            forall|j: int|
                0 <= j < canvas@.len() ==> #[trigger] canvas@[j] == (if j < i {
                    pixels@[j]
                } else {
                    old(canvas)@[j]
                }),
        decreases canvas@.len() - i,
    {
        canvas[i] = pixels[i];
        i += 1;
    }
}

/// The crossfade of two buffers of one length at `t`. A `t` beyond the end
/// counts as the end.
pub fn blend(from: &[u8], to: &[u8], t: u32) -> (r: Vec<u8>)
    requires
        from@.len() == to@.len(),
    ensures
        r@ == blended(from@, to@, clamped(t)),
{
    let t: u32 = if t <= ONE {
        t
    } else {
        ONE
    };
    let mut out: Vec<u8> = Vec::with_capacity(from.len());
    let mut i: usize = 0;
    while i < from.len()
        invariant
            t <= ONE,
            from@.len() == to@.len(),
            i <= from@.len(),
            out@ == blended(from@, to@, t as nat).take(i as int),
        decreases from@.len() - i,
    {
        out.push(mix(from[i], to[i], t));
        i += 1;
        assert(out@ =~= blended(from@, to@, t as nat).take(i as int));
    }
    assert(out@ =~= blended(from@, to@, t as nat));
    out
}

// -------------------------------------------------------------------- laws

/// Whatever the mode, the source rectangle lies within the source and the
/// scaled image within the destination.
pub proof fn law_layout_within_bounds(src: Size, dst: Size, mode: Mode)
    ensures
        placed(src, dst, mode).src_x + placed(src, dst, mode).src_w <= src.w,
        placed(src, dst, mode).src_y + placed(src, dst, mode).src_h <= src.h,
        placed(src, dst, mode).dst_x + placed(src, dst, mode).scaled.w <= dst.w,
        placed(src, dst, mode).dst_y + placed(src, dst, mode).scaled.h <= dst.h,
        !src.no_pixels() && !dst.no_pixels() ==> {
            &&& placed(src, dst, mode).src_w >= 1
            &&& placed(src, dst, mode).src_h >= 1
            &&& placed(src, dst, mode).scaled.w >= 1
            &&& placed(src, dst, mode).scaled.h >= 1
        },
{
    if !src.no_pixels() && !dst.no_pixels() {
        lemma_contained(src, dst);
        lemma_cropped(src, dst);
    }
}

/// An image with no side over [`MAX_EXACT_SIDE`] can be composed into every
/// buffer that can be allocated, whatever its shape, as long as the columns of
/// the image at the buffer's height can be held in between.
pub proof fn law_ordinary_images_compose_anywhere(src: Size, mode: Mode, out: Size)
    requires
        src.w <= MAX_EXACT_SIDE,
        src.h <= MAX_EXACT_SIDE,
        out.allocatable(),
        src.w as nat * out.h as nat * 16 <= isize::MAX,
    ensures
        composable(src, mode, out),
{
    let lay = placed(src, out, mode);
    law_layout_within_bounds(src, out, mode);
    assert(lay.src_w as nat * lay.scaled.h as nat * 16 <= src.w as nat * out.h as nat * 16)
        by (nonlinear_arith)
        requires
            lay.src_w <= src.w,
            lay.scaled.h <= out.h,
    ;
}

/// `fill` and `stretch` cover the destination exactly.
pub proof fn law_fill_and_stretch_cover(src: Size, dst: Size)
    requires
        !src.no_pixels(),
        !dst.no_pixels(),
    ensures
        placed(src, dst, Mode::Fill).scaled == dst,
        placed(src, dst, Mode::Fill).dst_x == 0,
        placed(src, dst, Mode::Fill).dst_y == 0,
        placed(src, dst, Mode::Stretch).scaled == dst,
        placed(src, dst, Mode::Stretch).dst_x == 0,
        placed(src, dst, Mode::Stretch).dst_y == 0,
{
}

/// `fit` and `stretch` show the whole source; `fill` keeps one side of it
/// whole; `center` never scales.
pub proof fn law_what_each_mode_keeps(src: Size, dst: Size)
    requires
        !src.no_pixels(),
        !dst.no_pixels(),
    ensures
        placed(src, dst, Mode::Fit).src_w == src.w && placed(src, dst, Mode::Fit).src_h == src.h,
        placed(src, dst, Mode::Stretch).src_w == src.w && placed(src, dst, Mode::Stretch).src_h
            == src.h,
        placed(src, dst, Mode::Fill).src_w == src.w || placed(src, dst, Mode::Fill).src_h == src.h,
        placed(src, dst, Mode::Fit).scaled.w == dst.w || placed(src, dst, Mode::Fit).scaled.h
            == dst.h,
        placed(src, dst, Mode::Center).scaled == (Size {
            w: placed(src, dst, Mode::Center).src_w,
            h: placed(src, dst, Mode::Center).src_h,
        }),
{
}

/// An image of the output's own size is shown as it is under every mode.
pub proof fn law_exact_size_is_untouched(size: Size, mode: Mode)
    requires
        !size.no_pixels(),
    ensures
        placed(size, size, mode) == (Layout {
            src_x: 0,
            src_y: 0,
            src_w: size.w,
            src_h: size.h,
            scaled: size,
            dst_x: 0,
            dst_y: 0,
        }),
{
    lemma_div_multiples_vanish(size.w as int, size.h as int);
    lemma_div_multiples_vanish(size.h as int, size.w as int);
    assert(size.h as nat * size.w as nat == size.w as nat * size.h as nat) by (nonlinear_arith);
}

/// At its ends a crossfade is exactly the one buffer or the other.
pub proof fn law_blend_ends(from: Seq<u8>, to: Seq<u8>)
    requires
        from.len() == to.len(),
    ensures
        blended(from, to, 0) == from,
        blended(from, to, ONE as nat) == to,
{
    assert forall|i: int| 0 <= i < from.len() implies mixed(from[i], to[i], 0) == from[i] by {
        lemma_mixed_at_ends(from[i], to[i]);
    }
    assert forall|i: int| 0 <= i < from.len() implies mixed(from[i], to[i], ONE as nat) == to[i] by {
        lemma_mixed_at_ends(from[i], to[i]);
    }
    assert(blended(from, to, 0) =~= from);
    assert(blended(from, to, ONE as nat) =~= to);
}

/// In between, no byte leaves the range between the two buffers.
pub proof fn law_blend_stays_between(from: Seq<u8>, to: Seq<u8>, t: nat, i: int)
    requires
        from.len() == to.len(),
        t <= ONE,
        0 <= i < from.len(),
    ensures
        blended(from, to, t).len() == from.len(),
        from[i] <= to[i] ==> from[i] <= blended(from, to, t)[i] <= to[i],
        to[i] <= from[i] ==> to[i] <= blended(from, to, t)[i] <= from[i],
{
    lemma_mixed(from[i], to[i], t);
}

/// Halfway, every byte is the mean of the two, rounded up.
pub proof fn law_blend_midpoint(a: u8, b: u8)
    ensures
        mixed(a, b, (ONE / 2) as nat) == (a + b + 1) / 2,
{
    let half = (ONE / 2) as nat;
    assert(a * (ONE - half) + b * half == (a + b) * 0x80_0000) by (nonlinear_arith)
        requires
            half == 0x80_0000,
    ;
}

/// A pixel that the image does not reach shows the fill colour; under an opaque
/// image pixel the fill does not show.
pub proof fn law_painted_pixel(scaled: Seq<u8>, lay: Layout, fill: Color, out: Size, x: u32, y: u32)
    requires
        x < out.w,
        y < out.h,
        scaled.len() == lay.scaled.bytes(),
    ensures
        ({
            let i = (y * out.w + x) * 4;
            let inside = lay.dst_x <= x < lay.dst_x + lay.scaled.w && lay.dst_y <= y < lay.dst_y
                + lay.scaled.h;
            let k = ((y - lay.dst_y) * lay.scaled.w + (x - lay.dst_x)) * 4;
            let got = painted(scaled, lay, fill, out);
            &&& !inside ==> got.subrange(i, i + 4) == color::shm_bgra(fill)
            &&& inside && scaled[k + 3] == 255 ==> got.subrange(i, i + 4) == seq![
                scaled[k + 2],
                scaled[k + 1],
                scaled[k],
                255u8,
            ]
            &&& inside && scaled[k + 3] == 0 ==> got.subrange(i, i + 4) == color::shm_bgra(fill)
        }),
{
    let i = (y * out.w + x) * 4;
    let got = painted(scaled, lay, fill, out);
    let base = solid_pixels(fill, out);
    lemma_pixel_inside(y as nat, x as nat, out.w as nat, out.h as nat);
    lemma_pixel_index(y as nat, x as nat, out.w as nat, i);
    lemma_pixel_index(y as nat, x as nat, out.w as nat, i + 1);
    lemma_pixel_index(y as nat, x as nat, out.w as nat, i + 2);
    lemma_pixel_index(y as nat, x as nat, out.w as nat, i + 3);
    let px = got.subrange(i, i + 4);
    assert(px[0] == got[i] && px[1] == got[i + 1] && px[2] == got[i + 2] && px[3] == got[i + 3]);
    assert(base[i] == color::shm_bgra(fill)[0]);
    assert(base[i + 1] == color::shm_bgra(fill)[1]);
    assert(base[i + 2] == color::shm_bgra(fill)[2]);
    assert(base[i + 3] == color::shm_bgra(fill)[3]);
    let inside = lay.dst_x <= x < lay.dst_x + lay.scaled.w && lay.dst_y <= y < lay.dst_y
        + lay.scaled.h;
    let k = ((y - lay.dst_y) * lay.scaled.w + (x - lay.dst_x)) * 4;
    if !inside || scaled[k + 3] == 0 {
        assert(px =~= color::shm_bgra(fill));
    } else if scaled[k + 3] == 255 {
        assert(px =~= seq![scaled[k + 2], scaled[k + 1], scaled[k], 255u8]);
    }
}

/// An opaque image that fills or is stretched over the whole buffer hides the
/// fill colour.
pub proof fn law_cover_hides_the_fill(
    scaled: Seq<u8>,
    src: Size,
    mode: Mode,
    out: Size,
    fill: Color,
    other: Color,
)
    requires
        !src.no_pixels(),
        !out.no_pixels(),
        mode == Mode::Fill || mode == Mode::Stretch,
        scaled.len() == out.bytes(),
        forall|k: int| 0 <= k < scaled.len() / 4 ==> #[trigger] scaled[k * 4 + 3] == 255,
    ensures
        painted(scaled, placed(src, out, mode), fill, out) == painted(
            scaled,
            placed(src, out, mode),
            other,
            out,
        ),
{
    let lay = placed(src, out, mode);
    let a = painted(scaled, lay, fill, out);
    let b = painted(scaled, lay, other, out);
    let w = out.w as int;
    assert forall|i: int| 0 <= i < a.len() implies a[i] == b[i] by {
        let x = i / 4 % w;
        let y = i / 4 / w;
        lemma_fundamental_div_mod(i / 4, w);
        lemma_mul_is_commutative(w, y);
        assert(i / 4 == y * w + x);
        assert(0 <= x < w) by {
            lemma_mod_bound(i / 4, w);
        }
        assert(y < out.h) by {
            assert(i / 4 < w * out.h);
            assert(y < out.h) by (nonlinear_arith)
                requires
                    i / 4 == y * w + x,
                    0 <= x,
                    i / 4 < w * out.h,
                    w > 0,
            ;
        }
        assert(y >= 0) by {
            lemma_div_pos_is_pos(i / 4, w);
        }
        assert(scaled[(i / 4) * 4 + 3] == 255);
    }
    assert(a =~= b);
}

proof fn lemma_share(a: nat, b: nat)
    requires
        b > 0,
    ensures
        ({
            let n = ratio_at_least_one(a, b);
            &&& n >= 1
            &&& a < (n + 1) * b
            &&& n > 1 ==> n * b <= a
            &&& n == 1 || n * b <= a
        }),
{
    lemma_fundamental_div_mod(a as int, b as int);
    let q = a / b;
    assert(a == b * q + a % b);
    assert(b * q == q * b && (q + 1) * b == q * b + b) by (nonlinear_arith);
    if q < 1 {
        assert(q * b == 0) by (nonlinear_arith)
            requires
                q == 0,
        ;
        assert((1 + 1) * b == 2 * b);
    }
}

/// `fit` shows the whole picture in its own shape, as large as it goes: it
/// reaches two opposite edges, its sides are in the proportion of the source's to
/// within a pixel (or one of them is the minimum of one pixel), and what is left
/// over is split evenly on both sides, to within a pixel.
pub proof fn law_fit_keeps_the_shape(src: Size, dst: Size)
    requires
        src.w > 0,
        src.h > 0,
        dst.w > 0,
        dst.h > 0,
    ensures
        ({
            let l = placed(src, dst, Mode::Fit);
            let s = l.scaled;
            let most = if src.w >= src.h {
                src.w
            } else {
                src.h
            };
            &&& l.src_x == 0 && l.src_y == 0 && l.src_w == src.w && l.src_h == src.h
            &&& 1 <= s.w <= dst.w && 1 <= s.h <= dst.h
            &&& s.w == dst.w || s.h == dst.h
            &&& s.w == 1 || s.h == 1 || -most < s.w * src.h - s.h * src.w < most
            &&& s.h == dst.h && (s.w == 1 || s.w * src.h <= dst.h * src.w) && dst.h * src.w < (s.w
                + 1) * src.h || s.w == dst.w && (s.h == 1 || s.h * src.w <= dst.w * src.h) && dst.w
                * src.h < (s.h + 1) * src.w
            &&& 0 <= (dst.w - s.w - l.dst_x) - l.dst_x <= 1
            &&& 0 <= (dst.h - s.h - l.dst_y) - l.dst_y <= 1
        }),
{
    lemma_contained(src, dst);
    let s = placed(src, dst, Mode::Fit).scaled;
    lemma_share(dst.h as nat * src.w as nat, src.h as nat);
    lemma_share(dst.w as nat * src.h as nat, src.w as nat);
    assert((s.w + 1) * src.h == s.w * src.h + src.h) by (nonlinear_arith);
    assert((s.h + 1) * src.w == s.h * src.w + src.w) by (nonlinear_arith);
}

/// `fill` covers the whole output with one rectangle of the picture: as much of
/// it as has the output's shape. One side of the picture is used whole, the
/// sides used are in the proportion of the output's to within a pixel (or one of
/// them is the minimum of one pixel), and what is cut off is cut off evenly on
/// both sides, to within a pixel.
pub proof fn law_fill_crops_to_the_shape(src: Size, dst: Size)
    requires
        src.w > 0,
        src.h > 0,
        dst.w > 0,
        dst.h > 0,
    ensures
        ({
            let l = placed(src, dst, Mode::Fill);
            let most = if dst.w >= dst.h {
                dst.w
            } else {
                dst.h
            };
            &&& l.scaled.w == dst.w && l.scaled.h == dst.h && l.dst_x == 0 && l.dst_y == 0
            &&& 1 <= l.src_w <= src.w && 1 <= l.src_h <= src.h
            &&& l.src_w == src.w || l.src_h == src.h
            &&& l.src_w == 1 || l.src_h == 1 || -most < l.src_w * dst.h - l.src_h * dst.w < most
            &&& l.src_h == src.h && (l.src_w == 1 || l.src_w * dst.h <= src.h * dst.w) && src.h
                * dst.w < (l.src_w + 1) * dst.h || l.src_w == src.w && (l.src_h == 1 || l.src_h
                * dst.w <= src.w * dst.h) && src.w * dst.h < (l.src_h + 1) * dst.w
            &&& 0 <= (src.w - l.src_w - l.src_x) - l.src_x <= 1
            &&& 0 <= (src.h - l.src_h - l.src_y) - l.src_y <= 1
        }),
{
    lemma_cropped(src, dst);
    let l = placed(src, dst, Mode::Fill);
    lemma_share(src.h as nat * dst.w as nat, dst.h as nat);
    lemma_share(src.w as nat * dst.h as nat, dst.w as nat);
    assert((l.src_w + 1) * dst.h == l.src_w * dst.h + dst.h) by (nonlinear_arith);
    assert((l.src_h + 1) * dst.w == l.src_h * dst.w + dst.w) by (nonlinear_arith);
}

/// `center` shows the picture pixel for pixel: as much of its middle as the
/// output has room for, in the middle of the output. `stretch` uses all of the
/// picture for all of the output.
pub proof fn law_center_and_stretch(src: Size, dst: Size)
    requires
        src.w > 0,
        src.h > 0,
        dst.w > 0,
        dst.h > 0,
    ensures
        ({
            let l = placed(src, dst, Mode::Center);
            &&& l.scaled.w == l.src_w && l.scaled.h == l.src_h
            &&& l.src_w == src.w && src.w <= dst.w || l.src_w == dst.w && dst.w <= src.w
            &&& l.src_h == src.h && src.h <= dst.h || l.src_h == dst.h && dst.h <= src.h
            &&& 0 <= (src.w - l.src_w - l.src_x) - l.src_x <= 1
            &&& 0 <= (src.h - l.src_h - l.src_y) - l.src_y <= 1
            &&& 0 <= (dst.w - l.src_w - l.dst_x) - l.dst_x <= 1
            &&& 0 <= (dst.h - l.src_h - l.dst_y) - l.dst_y <= 1
        }),
        ({
            let l = placed(src, dst, Mode::Stretch);
            &&& l.src_x == 0 && l.src_y == 0 && l.src_w == src.w && l.src_h == src.h
            &&& l.dst_x == 0 && l.dst_y == 0 && l.scaled.w == dst.w && l.scaled.h == dst.h
        }),
{
}

/// Without pixels on either side there is nothing to place: nothing of the
/// picture is shown, in any mode.
pub proof fn law_nothing_to_place(src: Size, dst: Size, mode: Mode)
    requires
        src.w == 0 || src.h == 0 || dst.w == 0 || dst.h == 0,
    ensures
        placed(src, dst, mode).scaled.w == 0,
        placed(src, dst, mode).scaled.h == 0,
{
}

/// Every pixel of a solid buffer is the colour, blue first, each channel scaled
/// by the alpha and rounded down.
pub proof fn law_solid_pixels_are_the_colour(fill: Color, size: Size, x: u32, y: u32)
    requires
        x < size.w,
        y < size.h,
    ensures
        ({
            let p = solid_pixels(fill, size);
            let i = (y * size.w + x) * 4;
            &&& p.len() == size.w * size.h * 4
            &&& i + 4 <= p.len()
            &&& 255 * p[i] <= fill.b * fill.a < 255 * p[i] + 255
            &&& 255 * p[i + 1] <= fill.g * fill.a < 255 * p[i + 1] + 255
            &&& 255 * p[i + 2] <= fill.r * fill.a < 255 * p[i + 2] + 255
            &&& p[i + 3] == fill.a
        }),
{
    lemma_pixel_inside(y as nat, x as nat, size.w as nat, size.h as nat);
    color::law_shm_bgra_is_premultiplied(fill);
}

/// The rectangle that is cut out of a picture holds the picture's own pixels,
/// row by row.
pub proof fn law_crop_keeps_the_pixels(
    src: Seq<u8>,
    src_w: nat,
    x: nat,
    y: nat,
    w: nat,
    h: nat,
    cx: nat,
    cy: nat,
    c: int,
)
    requires
        cx < w,
        cy < h,
        0 <= c < 4,
    ensures
        cropped(src, src_w, x, y, w, h).len() == w * h * 4,
        (cy * w + cx) * 4 + c < w * h * 4,
        cropped(src, src_w, x, y, w, h)[(cy * w + cx) * 4 + c] == src[((y + cy) * src_w + (x + cx))
            * 4 + c],
{
    lemma_pixel_inside(cy, cx, w, h);
    lemma_pixel_index(cy, cx, w, (cy * w + cx) * 4 + c);
}

/// Under a translucent pixel the fill shows through in proportion: each channel
/// is the mean of picture and fill, weighted by the alpha and rounded down, and
/// the result is opaque.
pub proof fn law_translucent_pixel_mixes(
    scaled: Seq<u8>,
    lay: Layout,
    fill: Color,
    out: Size,
    x: u32,
    y: u32,
)
    requires
        x < out.w,
        y < out.h,
        scaled.len() == lay.scaled.bytes(),
        lay.dst_x <= x < lay.dst_x + lay.scaled.w,
        lay.dst_y <= y < lay.dst_y + lay.scaled.h,
    ensures
        ({
            let i = (y * out.w + x) * 4;
            let k = ((y - lay.dst_y) * lay.scaled.w + (x - lay.dst_x)) * 4;
            let a = scaled[k + 3];
            let got = painted(scaled, lay, fill, out);
            0 < a < 255 ==> {
                &&& 255 * got[i] <= scaled[k + 2] * a + fill.b * (255 - a) < 255 * got[i] + 255
                &&& 255 * got[i + 1] <= scaled[k + 1] * a + fill.g * (255 - a) < 255 * got[i + 1]
                    + 255
                &&& 255 * got[i + 2] <= scaled[k] * a + fill.r * (255 - a) < 255 * got[i + 2] + 255
                &&& got[i + 3] == 255
            }
        }),
{
    let i = (y * out.w + x) * 4;
    let k = ((y - lay.dst_y) * lay.scaled.w + (x - lay.dst_x)) * 4;
    lemma_pixel_inside(y as nat, x as nat, out.w as nat, out.h as nat);
    lemma_pixel_index(y as nat, x as nat, out.w as nat, i);
    lemma_pixel_index(y as nat, x as nat, out.w as nat, i + 1);
    lemma_pixel_index(y as nat, x as nat, out.w as nat, i + 2);
    lemma_pixel_index(y as nat, x as nat, out.w as nat, i + 3);
    let a = scaled[k + 3];
    lemma_weighted(scaled[k + 2], fill.b, a);
    lemma_weighted(scaled[k + 1], fill.g, a);
    lemma_weighted(scaled[k], fill.r, a);
}

proof fn lemma_weighted(c: u8, under: u8, a: u8)
    ensures
        ({
            let q = ((c * a + under * (255 - a)) / 255) as u8;
            255 * q <= c * a + under * (255 - a) < 255 * q + 255
        }),
{
    assert(0 <= c * a + under * (255 - a) <= 255 * 255) by (nonlinear_arith)
        requires
            0 <= c <= 255,
            0 <= under <= 255,
            0 <= a <= 255,
    ;
}

/// A composed buffer shows the fill colour wherever the picture does not reach.
pub proof fn law_composed_border_is_the_fill(
    src: Seq<u8>,
    size: Size,
    mode: Mode,
    fill: Color,
    out: Size,
    r: Seq<u8>,
    x: u32,
    y: u32,
)
    requires
        composition(src, size, mode, fill, out, r),
        x < out.w,
        y < out.h,
        ({
            let l = placed(size, out, mode);
            x < l.dst_x || x >= l.dst_x + l.scaled.w || y < l.dst_y || y >= l.dst_y + l.scaled.h
        }),
    ensures
        ({
            let i = (y * out.w + x) * 4;
            &&& r.len() == out.w * out.h * 4
            &&& i + 4 <= r.len()
            &&& 255 * r[i] <= fill.b * fill.a < 255 * r[i] + 255
            &&& 255 * r[i + 1] <= fill.g * fill.a < 255 * r[i + 1] + 255
            &&& 255 * r[i + 2] <= fill.r * fill.a < 255 * r[i + 2] + 255
            &&& r[i + 3] == fill.a
        }),
{
    let l = placed(size, out, mode);
    let i = (y * out.w + x) * 4;
    law_solid_pixels_are_the_colour(fill, out, x, y);
    if !l.scaled.no_pixels() {
        let scaled = choose|scaled: Seq<u8>| #[trigger]
            scaled_part(src, size.w, l, scaled) && r == painted(scaled, l, fill, out);
        lemma_pixel_index(y as nat, x as nat, out.w as nat, i);
        lemma_pixel_index(y as nat, x as nat, out.w as nat, i + 1);
        lemma_pixel_index(y as nat, x as nat, out.w as nat, i + 2);
        lemma_pixel_index(y as nat, x as nat, out.w as nat, i + 3);
    }
}

/// Where the picture is shown at its own size, as in `center` always, a composed
/// buffer shows its opaque pixels as they are, red and blue exchanged.
pub proof fn law_unscaled_pixels_are_copied(
    src: Seq<u8>,
    size: Size,
    mode: Mode,
    fill: Color,
    out: Size,
    r: Seq<u8>,
    x: u32,
    y: u32,
)
    requires
        composition(src, size, mode, fill, out, r),
        src.len() == size.w * size.h * 4,
        size.w > 0,
        size.h > 0,
        x < out.w,
        y < out.h,
        ({
            let l = placed(size, out, mode);
            &&& l.dst_x <= x < l.dst_x + l.scaled.w
            &&& l.dst_y <= y < l.dst_y + l.scaled.h
            &&& l.scaled.w == l.src_w && l.scaled.h == l.src_h
        }),
    ensures
        ({
            let l = placed(size, out, mode);
            let i = (y * out.w + x) * 4;
            let k = ((l.src_y + (y - l.dst_y)) * size.w + (l.src_x + (x - l.dst_x))) * 4;
            &&& 0 <= k && k + 4 <= src.len()
            &&& i + 4 <= r.len()
            &&& src[k + 3] == 255 ==> {
                &&& r[i] == src[k + 2]
                &&& r[i + 1] == src[k + 1]
                &&& r[i + 2] == src[k]
                &&& r[i + 3] == 255
            }
        }),
{
    let l = placed(size, out, mode);
    let i = (y * out.w + x) * 4;
    law_layout_within_bounds(size, out, mode);
    lemma_pixel_inside(y as nat, x as nat, out.w as nat, out.h as nat);
    lemma_pixel_index(y as nat, x as nat, out.w as nat, i);
    lemma_pixel_index(y as nat, x as nat, out.w as nat, i + 1);
    lemma_pixel_index(y as nat, x as nat, out.w as nat, i + 2);
    lemma_pixel_index(y as nat, x as nat, out.w as nat, i + 3);
    let cx = (x - l.dst_x) as nat;
    let cy = (y - l.dst_y) as nat;
    lemma_pixel_inside(
        (l.src_y + cy) as nat,
        (l.src_x + cx) as nat,
        size.w as nat,
        size.h as nat,
    );
    let scaled = choose|scaled: Seq<u8>| #[trigger]
        scaled_part(src, size.w, l, scaled) && r == painted(scaled, l, fill, out);
    assert forall|c: int| 0 <= c < 4 implies #[trigger] scaled[(cy * l.src_w + cx) * 4 + c]
        == src[((l.src_y + cy) * size.w + (l.src_x + cx)) * 4 + c] by {
        law_crop_keeps_the_pixels(
            src,
            size.w as nat,
            l.src_x as nat,
            l.src_y as nat,
            l.src_w as nat,
            l.src_h as nat,
            cx,
            cy,
            c,
        );
    }
    let j = (cy * l.src_w + cx) * 4;
    assert(scaled[j + 0] == src[((l.src_y + cy) * size.w + (l.src_x + cx)) * 4 + 0]);
    assert(scaled[j + 1] == src[((l.src_y + cy) * size.w + (l.src_x + cx)) * 4 + 1]);
    assert(scaled[j + 2] == src[((l.src_y + cy) * size.w + (l.src_x + cx)) * 4 + 2]);
    assert(scaled[j + 3] == src[((l.src_y + cy) * size.w + (l.src_x + cx)) * 4 + 3]);
}

/// Where the picture is rescaled, what a composed buffer shows is a rescaling of
/// exactly the rectangle that the layout picks, to exactly the size that it
/// gives: its opaque pixels as they are, red and blue exchanged.
pub proof fn law_scaled_pixels_come_from_the_layout(
    src: Seq<u8>,
    size: Size,
    mode: Mode,
    fill: Color,
    out: Size,
    r: Seq<u8>,
    cx: nat,
    cy: nat,
    c: int,
    x: u32,
    y: u32,
) -> (res: (Seq<u8>, Seq<u8>))
    requires
        composition(src, size, mode, fill, out, r),
        size.w > 0,
        size.h > 0,
        out.w > 0,
        out.h > 0,
        ({
            let l = placed(size, out, mode);
            &&& l.scaled.w != l.src_w || l.scaled.h != l.src_h
            &&& cx < l.src_w && cy < l.src_h && 0 <= c < 4
            &&& l.dst_x <= x < l.dst_x + l.scaled.w
            &&& l.dst_y <= y < l.dst_y + l.scaled.h
        }),
    ensures
        ({
            let l = placed(size, out, mode);
            let (part, scaled) = res;
            let i = (y * out.w + x) * 4;
            let k = ((y - l.dst_y) * l.scaled.w + (x - l.dst_x)) * 4;
            &&& lanczos3(part, l.src_w, l.src_h, scaled, l.scaled.w, l.scaled.h)
            &&& part.len() == l.src_w * l.src_h * 4
            &&& scaled.len() == l.scaled.w * l.scaled.h * 4
            &&& part[(cy * l.src_w + cx) * 4 + c] == src[((l.src_y + cy) * size.w + (l.src_x + cx))
                * 4 + c]
            &&& scaled[k + 3] == 255 ==> r[i] == scaled[k + 2] && r[i + 1] == scaled[k + 1] && r[i
                + 2] == scaled[k] && r[i + 3] == 255
        }),
{
    let l = placed(size, out, mode);
    law_layout_within_bounds(size, out, mode);
    let part = cropped(
        src,
        size.w as nat,
        l.src_x as nat,
        l.src_y as nat,
        l.src_w as nat,
        l.src_h as nat,
    );
    let scaled = choose|scaled: Seq<u8>| #[trigger]
        scaled_part(src, size.w, l, scaled) && r == painted(scaled, l, fill, out);
    law_crop_keeps_the_pixels(
        src,
        size.w as nat,
        l.src_x as nat,
        l.src_y as nat,
        l.src_w as nat,
        l.src_h as nat,
        cx,
        cy,
        c,
    );
    let i = (y * out.w + x) * 4;
    lemma_pixel_inside(y as nat, x as nat, out.w as nat, out.h as nat);
    lemma_pixel_index(y as nat, x as nat, out.w as nat, i);
    lemma_pixel_index(y as nat, x as nat, out.w as nat, i + 1);
    lemma_pixel_index(y as nat, x as nat, out.w as nat, i + 2);
    lemma_pixel_index(y as nat, x as nat, out.w as nat, i + 3);
    (part, scaled)
}

/// Each byte of a crossfade is the mean of the two ends, weighted by how far it
/// has come and rounded to nearest; beyond the end it is the end.
pub proof fn law_blend_is_linear(from: Seq<u8>, to: Seq<u8>, t: u32, i: int)
    requires
        from.len() == to.len(),
        0 <= i < from.len(),
    ensures
        ({
            let b = blended(from, to, clamped(t))[i];
            let e: int = if t <= 0x100_0000 {
                t as int
            } else {
                0x100_0000
            };
            let exact = from[i] * (0x100_0000 - e) + to[i] * e;
            &&& blended(from, to, clamped(t)).len() == from.len()
            &&& b * 0x100_0000 - 0x80_0000 <= exact < b * 0x100_0000 + 0x80_0000
        }),
{
    lemma_mixed(from[i], to[i], clamped(t));
}

/// A picture is composed only if its buffer, and whatever the resampler holds in
/// between, can be allocated: a weight of eight bytes for every pixel of a side
/// that is rescaled, and the columns of the image at the new height with four
/// times four bytes a pixel.
pub proof fn law_composing_stays_within_memory(src: Size, mode: Mode, out: Size)
    requires
        composable(src, mode, out),
        !src.no_pixels(),
        !out.no_pixels(),
    ensures
        out.w * out.h * 4 <= isize::MAX,
        ({
            let lay = placed(src, out, mode);
            lay.scaled.w == lay.src_w && lay.scaled.h == lay.src_h || {
                &&& lay.src_w * 8 <= isize::MAX
                &&& lay.src_h * 8 <= isize::MAX
                &&& lay.src_w * lay.scaled.h * 16 <= isize::MAX
                &&& lay.src_w == lay.scaled.w || lay.src_w <= 16_777_216 || lay.scaled.w
                    <= 4_194_304
                &&& lay.src_h == lay.scaled.h || lay.src_h <= 16_777_216 || lay.scaled.h
                    <= 4_194_304
            }
        }),
{
    let lay = placed(src, out, mode);
    assert(!lay.scaled.no_pixels()) by {
        law_layout_within_bounds(src, out, mode);
    }
    assert(out.w as nat * out.h as nat * 4 == out.w * out.h * 4);
}

/// A buffer can be handed to a compositor exactly if its rows, the bytes of a row
/// and the whole of it can be counted.
pub proof fn law_which_buffers_can_be_shown(size: Size)
    ensures
        size.showable() <==> size.w * 4 <= 2_147_483_647 && size.h <= 2_147_483_647 && size.w
            * size.h * 4 <= isize::MAX,
        size.no_pixels() <==> size.w * size.h == 0,
        size.bytes() == 4 * (size.w * size.h),
{
    assert(size.w == 0 || size.h == 0 <==> size.w * size.h == 0) by (nonlinear_arith);
    assert(size.w as nat * size.h as nat == size.w * size.h);
}

} // verus!
