//! Render jobs: what one decodes and composes, and how its outcome finds its
//! way back. The thread that runs them, and the files, are the caller's.

use vstd::prelude::*;

use crate::color::Color;
use crate::config::Mode;
use crate::daemon::render;
use crate::daemon::render::{can_compose, compose, Pixmap, Size};
use crate::paths;
use crate::paths::empty_extension;
use crate::text;
use crate::text::push_decimal;

verus! {

/// Hard ceiling on decoded image area (width times height). Larger images are
/// rejected rather than risking an out-of-memory abort.
pub const MAX_PIXELS: u64 = 100_000_000;

/// Render an image for one output at `target` physical pixels.
#[derive(Debug, PartialEq, Eq)]
pub struct Job {
    /// The `set` that waits for the outcome; 0 for none.
    pub token: u64,
    /// Which render of the output this is; an older one is dropped.
    pub generation: u64,
    pub output: String,
    pub target: Size,
    pub path: String,
    pub mode: Mode,
    /// Letterbox and transparency fill.
    pub fill: Color,
    pub blur_radius: u32,
    /// The bits of an IEEE 754 double.
    pub blur_dim_bits: u64,
    /// Whether the result is faded in.
    pub fade: bool,
}

/// A finished render: both buffers are `Xrgb8888` at `size`, with a stride of
/// `size.w * 4`.
#[derive(Debug, PartialEq, Eq)]
pub struct Rendered {
    pub size: Size,
    pub sharp: Vec<u8>,
    pub blurred: Vec<u8>,
}

/// The outcome of one [`Job`], tagged so that it finds its output and its
/// pending `set`.
#[derive(Debug, PartialEq, Eq)]
pub struct JobResult {
    pub token: u64,
    pub generation: u64,
    pub output: String,
    pub outcome: Result<Rendered, String>,
    pub fade: bool,
}

/// An image over [`MAX_PIXELS`].
#[derive(Debug, Clone, Copy, PartialEq, Eq, Structural)]
pub struct AreaError {
    pub w: u32,
    pub h: u32,
}

// ------------------------------------------------------------------- model

/// [`Job`] over character sequences.
pub ghost struct JobSpec {
    pub token: u64,
    pub generation: u64,
    pub output: Seq<char>,
    pub target: Size,
    pub path: Seq<char>,
    pub mode: Mode,
    pub fill: Color,
    pub blur_radius: u32,
    pub blur_dim_bits: u64,
    pub fade: bool,
}

/// [`Rendered`] over byte sequences.
pub ghost struct RenderedSpec {
    pub size: Size,
    pub sharp: Seq<u8>,
    pub blurred: Seq<u8>,
}

/// [`JobResult`] over sequences.
pub ghost struct JobResultSpec {
    pub token: u64,
    pub generation: u64,
    pub output: Seq<char>,
    pub outcome: Result<RenderedSpec, Seq<char>>,
    pub fade: bool,
}

impl View for Job {
    type V = JobSpec;

    open spec fn view(&self) -> JobSpec {
        JobSpec {
            token: self.token,
            generation: self.generation,
            output: self.output@,
            target: self.target,
            path: self.path@,
            mode: self.mode,
            fill: self.fill,
            blur_radius: self.blur_radius,
            blur_dim_bits: self.blur_dim_bits,
            fade: self.fade,
        }
    }
}

impl View for Rendered {
    type V = RenderedSpec;

    open spec fn view(&self) -> RenderedSpec {
        RenderedSpec { size: self.size, sharp: self.sharp@, blurred: self.blurred@ }
    }
}

/// What a render came to.
pub open spec fn outcome_view(o: Result<Rendered, String>) -> Result<RenderedSpec, Seq<char>> {
    match o {
        Ok(r) => Ok(r@),
        Err(e) => Err(e@),
    }
}

impl View for JobResult {
    type V = JobResultSpec;

    open spec fn view(&self) -> JobResultSpec {
        JobResultSpec {
            token: self.token,
            generation: self.generation,
            output: self.output@,
            outcome: outcome_view(self.outcome),
            fade: self.fade,
        }
    }
}

/// Whether an image of this size may be decoded.
pub open spec fn area_ok(w: u32, h: u32) -> bool {
    w as nat * h as nat <= MAX_PIXELS
}

/// What is said about an image that may not.
pub open spec fn area_text(w: u32, h: u32) -> Seq<char> {
    "image is "@ + text::decimal(w as nat) + "x"@ + text::decimal(h as nat) + " ("@ + text::decimal(
        w as nat * h as nat,
    ) + " pixels); the limit is "@ + text::decimal(MAX_PIXELS as nat)
}

/// `context: cause`.
pub open spec fn because(context: Seq<char>, cause: Seq<char>) -> Seq<char> {
    context + ": "@ + cause
}

/// `r` is what `image::ImageReader::into_dimensions` says of the file contents
/// `data` in the format that the extension of `path` names: width and height,
/// or why not.
pub uninterp spec fn dimensions_read(
    path: Seq<char>,
    data: Seq<u8>,
    r: Result<(u32, u32), Seq<char>>,
) -> bool;

/// `r` is what `image::ImageReader::decode` makes of the file contents `data`:
/// width, height and RGBA bytes, or why not.
pub uninterp spec fn decoded(
    path: Seq<char>,
    data: Seq<u8>,
    r: Result<(u32, u32, Seq<u8>), Seq<char>>,
) -> bool;

/// What tells the format of the image at `path`: the path, or nothing if the
/// extension in it is empty.
pub open spec fn format_hint(path: Seq<char>) -> Seq<char> {
    if paths::has_empty_extension(path) {
        Seq::empty()
    } else {
        path
    }
}

/// Whether an image whose dimensions were read as `dims` goes on to be decoded.
pub open spec fn admission(
    path: Seq<char>,
    dims: Result<(u32, u32), Seq<char>>,
) -> Result<(), Seq<char>> {
    match dims {
        Err(e) => Err(because("reading image dimensions of "@ + path, e)),
        Ok((w, h)) => if area_ok(w, h) {
            Ok(())
        } else {
            Err(because(path, area_text(w, h)))
        },
    }
}

/// `r` is a rendering of the decoded image `img`: the picture that
/// [`render::compose`] gives for it, or why there is none.
pub open spec fn rendering(
    path: Seq<char>,
    img: Result<(u32, u32, Seq<u8>), Seq<char>>,
    mode: Mode,
    fill: Color,
    target: Size,
    r: Result<Seq<u8>, Seq<char>>,
) -> bool {
    match img {
        Err(e) => r == Err::<Seq<u8>, Seq<char>>(because("decoding "@ + path, e)),
        Ok((w, h, data)) => r is Ok && render::composition(
            data,
            Size { w, h },
            mode,
            fill,
            target,
            r->Ok_0,
        ),
    }
}

/// The text of a result's error, the pixels of its success.
pub open spec fn pixels_view(r: Result<Vec<u8>, String>) -> Result<Seq<u8>, Seq<char>> {
    match r {
        Ok(p) => Ok(p@),
        Err(e) => Err(e@),
    }
}

/// What reading dimensions came to.
pub open spec fn dimensions_view(r: Result<(u32, u32), String>) -> Result<(u32, u32), Seq<char>> {
    match r {
        Ok(d) => Ok(d),
        Err(e) => Err(e@),
    }
}

/// What decoding came to.
pub open spec fn image_view(r: Result<Pixmap, String>) -> Result<(u32, u32, Seq<u8>), Seq<char>> {
    match r {
        Ok(p) => Ok((p.size().w, p.size().h, p@)),
        Err(e) => Err(e@),
    }
}

// -------------------------------------------------------------------- code

/// `image::ImageReader::into_dimensions` on the file contents `data`, in the
/// format that `image::ImageFormat::from_path` gives for `path`. What it says
/// is not stated beyond its name: whether bytes are an image of that format is
/// the decoders' matter.
#[verifier::external_body]
fn read_dimensions(path: &str, data: &[u8]) -> (r: Result<(u32, u32), String>)
    ensures
        dimensions_read(path@, data@, dimensions_view(r)),
{
    image::ImageFormat::from_path(path)
        .and_then(|f| image::ImageReader::with_format(std::io::Cursor::new(data), f).into_dimensions())
        .map_err(|e| format!("{:#}", anyhow::Error::new(e)))
}

/// `image::ImageReader::decode` on the file contents `data`, the format guessed
/// from the contents first and from `path` second, converted to RGBA. A decoded
/// image has four bytes for each of its pixels; which ones is not stated beyond
/// the name, the decoders' arithmetic being free to differ between machines.
#[verifier::external_body]
fn decode_rgba(path: &str, data: &[u8]) -> (r: Result<(u32, u32, Vec<u8>), String>)
    ensures
        match r {
            Ok((w, h, px)) => {
                &&& px@.len() == (Size { w, h }).bytes()
                &&& decoded(path@, data@, Ok((w, h, px@)))
            },
            Err(e) => decoded(path@, data@, Err(e@)),
        },
{
    let mut reader = image::ImageReader::new(std::io::Cursor::new(data));
    if let Ok(f) = image::ImageFormat::from_path(path) {
        reader.set_format(f);
    }
    reader
        .with_guessed_format()
        .map_err(image::ImageError::IoError)
        .and_then(|r| r.decode())
        .map(|i| i.into_rgba8())
        .map(|i| (i.width(), i.height(), i.into_raw()))
        .map_err(|e| format!("{:#}", anyhow::Error::new(e)))
}

/// Reject an image whose pixel area exceeds [`MAX_PIXELS`].
pub fn check_area(w: u32, h: u32) -> (r: Result<(), AreaError>)
    ensures
        r == if area_ok(w, h) {
            Ok::<(), AreaError>(())
        } else {
            Err(AreaError { w, h })
        },
{
    assert(w as nat * h as nat <= u32::MAX * u32::MAX) by (nonlinear_arith)
        requires
            w <= u32::MAX,
            h <= u32::MAX,
    ;
    if w as u64 * h as u64 > MAX_PIXELS {
        Err(AreaError { w, h })
    } else {
        Ok(())
    }
}

impl AreaError {
    /// The size, the area and the limit.
    pub fn to_string(&self) -> (r: String)
        ensures
            r@ == area_text(self.w, self.h),
    {
        assert(self.w as nat * self.h as nat <= u32::MAX * u32::MAX) by (nonlinear_arith)
            requires
                self.w <= u32::MAX,
                self.h <= u32::MAX,
        ;
        let mut out = "image is ".to_string();
        push_decimal(&mut out, self.w as u64);
        out.push_str("x");
        push_decimal(&mut out, self.h as u64);
        out.push_str(" (");
        push_decimal(&mut out, self.w as u64 * self.h as u64);
        out.push_str(" pixels); the limit is ");
        push_decimal(&mut out, MAX_PIXELS);
        out
    }
}

/// `context: cause`.
fn with_context(context: &str, path: &str, cause: &str) -> (r: String)
    ensures
        r@ == because(context@ + path@, cause@),
{
    let mut out = context.to_string();
    out.push_str(path);
    out.push_str(": ");
    out.push_str(cause);
    out
}

/// Whether the image at `path`, whose dimensions were read as `dims`, goes on
/// to be decoded.
pub fn check_dimensions(path: &str, dims: Result<(u32, u32), String>) -> (r: Result<(), String>)
    ensures
        match r {
            Ok(()) => admission(path@, dimensions_view(dims)) is Ok,
            Err(e) => admission(path@, dimensions_view(dims)) == Err::<(), Seq<char>>(e@),
        },
{
    match dims {
        Err(e) => Err(with_context("reading image dimensions of ", path, e.as_str())),
        Ok((w, h)) => match check_area(w, h) {
            Ok(()) => Ok(()),
            Err(e) => {
                let r = with_context("", path, e.to_string().as_str());
                proof {
                    reveal_strlit("");
                    assert(""@ + path@ =~= path@);
                }
                Err(r)
            },
        },
    }
}

/// Compose the decoded image `img` for `target` under `mode` over `fill`.
pub fn render_decoded(
    path: &str,
    img: Result<Pixmap, String>,
    mode: Mode,
    fill: Color,
    target: Size,
) -> (r: Result<Vec<u8>, String>)
    requires
        img matches Ok(p) ==> render::composable(p.size(), mode, target),
    ensures
        rendering(path@, image_view(img), mode, fill, target, pixels_view(r)),
        r is Ok ==> r->Ok_0@.len() == target.bytes(),
{
    match img {
        Err(e) => Err(with_context("decoding ", path, e.as_str())),
        Ok(p) => Ok(compose(&p, mode, fill, target)),
    }
}

/// Decode the file contents `data` of `path`, reject anything over
/// [`MAX_PIXELS`], and compose it for `target` under `mode` over `fill`. None if
/// the decoded image cannot be composed into such a buffer on this machine.
pub fn render_image(path: &str, data: &[u8], mode: Mode, fill: Color, target: Size) -> (r: Option<
    Result<Vec<u8>, String>,
>)
    ensures
        r matches Some(Ok(px)) ==> px@.len() == target.bytes(),
        exists|dims: Result<(u32, u32), Seq<char>>| #[trigger]
            dimensions_read(format_hint(path@), data@, dims) && match admission(path@, dims) {
                Err(e) => r is Some && pixels_view(r->0) == Err::<Seq<u8>, Seq<char>>(e),
                Ok(()) => exists|img: Result<(u32, u32, Seq<u8>), Seq<char>>| #[trigger]
                    decoded(path@, data@, img) && match r {
                        Some(p) => rendering(path@, img, mode, fill, target, pixels_view(p)),
                        None => img matches Ok((w, h, _)) && !render::composable(
                            Size { w, h },
                            mode,
                            target,
                        ),
                    },
            },
{
    let hint = if empty_extension(path) {
        ""
    } else {
        path
    };
    proof {
        reveal_strlit("");
        assert(""@ =~= Seq::empty());
    }
    let dims = read_dimensions(hint, data);
    let ghost said = dimensions_view(dims);
    assert(dimensions_read(format_hint(path@), data@, said));
    match check_dimensions(path, dims) {
        Err(e) => Some(Err(e)),
        Ok(()) => {
            let img = match decode_rgba(path, data) {
                Err(e) => Err(e),
                Ok((w, h, px)) => match Pixmap::new(w, h, px) {
                    Some(p) => Ok(p),
                    None => {
                        assert(false);
                        Err("".to_string())
                    },
                },
            };
            assert(decoded(path@, data@, image_view(img)));
            if let Ok(p) = &img {
                if !can_compose(p.get_size(), mode, target) {
                    return None;
                }
            }
            Some(render_decoded(path, img, mode, fill, target))
        },
    }
}

impl Job {
    /// The answer to this job.
    pub fn answer(self, outcome: Result<Rendered, String>) -> (r: JobResult)
        ensures
            r@ == (JobResultSpec {
                token: self.token,
                generation: self.generation,
                output: self.output@,
                outcome: outcome_view(outcome),
                fade: self.fade,
            }),
    {
        JobResult {
            token: self.token,
            generation: self.generation,
            output: self.output,
            outcome,
            fade: self.fade,
        }
    }
}

// -------------------------------------------------------------------- laws

/// An image goes on to be decoded exactly if its dimensions could be read and it
/// has at most a hundred million pixels.
pub proof fn law_which_images_are_decoded(path: Seq<char>, dims: Result<(u32, u32), Seq<char>>)
    ensures
        admission(path, dims) is Ok <==> (dims matches Ok((w, h)) && w * h <= 100_000_000),
{
    if let Ok((w, h)) = dims {
        assert(w as nat * h as nat == w * h);
    }
}

/// What is said about an image that is not decoded starts with what it is about:
/// its path, behind what was tried if reading its size failed; and ends in the
/// reason.
pub proof fn law_refused_images_are_named(path: Seq<char>, dims: Result<(u32, u32), Seq<char>>)
    requires
        admission(path, dims) is Err,
    ensures
        match dims {
            Err(e) => admission(path, dims)->Err_0 == "reading image dimensions of "@ + path
                + ": "@ + e,
            Ok((w, h)) => (path + ": image is "@).is_prefix_of(admission(path, dims)->Err_0)
                && text::decimal(100_000_000).is_suffix_of(admission(path, dims)->Err_0),
        },
{
    if let Ok((w, h)) = dims {
        reveal_strlit(": image is ");
        reveal_strlit(": ");
        reveal_strlit("image is ");
        assert(": image is "@ =~= ": "@ + "image is "@);
        let all = admission(path, dims)->Err_0;
        let limit = text::decimal(100_000_000);
        assert(all == path + ": "@ + area_text(w, h));
        assert(all.skip(all.len() - limit.len()) =~= limit);
        assert(all.take((path + ": image is "@).len() as int) =~= path + ": image is "@);
    }
}

/// Whether a picture comes of an image rests on the decoder alone, and the
/// picture is composed of the pixels, the mode, the colour and the size that
/// were given.
pub proof fn law_rendering_composes_what_was_decoded(
    path: Seq<char>,
    img: Result<(u32, u32, Seq<u8>), Seq<char>>,
    mode: Mode,
    fill: Color,
    target: Size,
    r: Result<Seq<u8>, Seq<char>>,
)
    requires
        rendering(path, img, mode, fill, target, r),
    ensures
        r is Ok <==> img is Ok,
        img matches Err(e) ==> r->Err_0 == "decoding "@ + path + ": "@ + e,
        img matches Ok((w, h, data)) ==> render::composition(
            data,
            Size { w, h },
            mode,
            fill,
            target,
            r->Ok_0,
        ),
{
}

/// The format of an image is told by its path, unless the extension in that is
/// empty.
pub proof fn law_paths_tell_the_format(path: Seq<char>)
    ensures
        !paths::has_empty_extension(path) ==> format_hint(path) == path,
        paths::has_empty_extension(path) ==> format_hint(path).len() == 0,
{
}

} // verus!
