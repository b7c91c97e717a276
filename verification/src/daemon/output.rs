//! One output: its size and scale, the wallpaper it should show, the buffers
//! that were rendered for it, and the crossfade that is under way.
//!
//! A frame to be shown is handed out as a [`Commit`]; putting it on the screen
//! is the caller's part, who reports back what came of it.

use std::rc::Rc;

use vstd::prelude::*;

use crate::color;
use crate::color::{Color, DimSteps};
use crate::config;
use crate::config::{BlurConfig, Resolved};
use crate::daemon::anim::{Anim, Ease, ONE};
use crate::daemon::render;
use crate::daemon::render::{blend, blend_into, copy_into, solid, Size};
use crate::daemon::worker;
use crate::daemon::worker::Job;
use crate::paths;
use crate::text;

verus! {

/// A scale of 1.0: scales are counted in 120ths.
pub const SCALE_UNIT: u32 = 120;

/// Nanoseconds in a millisecond.
pub const NANOS_PER_MS: u64 = 1_000_000;

/// Which composited buffer an output is showing, or fading toward.
#[derive(Debug, Clone, Copy, PartialEq, Eq, Structural)]
pub enum Showing {
    Sharp,
    Blurred,
}

/// Where an output's wallpaper currently stands.
#[derive(Debug, PartialEq, Eq)]
pub enum PaintStatus {
    Pending,
    Painted,
    Failed(String),
}

/// An in-flight crossfade from one buffer of `size` to another.
#[derive(Debug)]
pub struct Transition {
    pub from: Rc<Vec<u8>>,
    pub to: Rc<Vec<u8>>,
    pub size: Size,
    pub anim: Anim,
}

/// The pixels of one frame.
#[derive(Debug)]
pub enum Frame {
    /// A whole, already composed buffer.
    Whole(Rc<Vec<u8>>),
    /// The blend of two buffers at `t`.
    Fade { from: Rc<Vec<u8>>, to: Rc<Vec<u8>>, t: u32 },
}

/// A frame for the output `id`, of `size` physical pixels.
#[derive(Debug)]
pub struct Commit {
    pub id: u64,
    pub frame: Frame,
    pub size: Size,
}

/// How a frame is attached to its surface.
#[derive(Debug, Clone, Copy, PartialEq, Eq, Structural)]
pub struct Plan {
    pub width: i32,
    pub height: i32,
    pub stride: i32,
    pub buffer_scale: i32,
    /// Logical size: the viewport destination and the opaque region.
    pub logical_width: i32,
    pub logical_height: i32,
    /// Whether the surface has a viewport that maps the buffer to it.
    pub use_viewport: bool,
    /// Whether scale, opaque region and viewport have to be sent again.
    pub geometry_changed: bool,
}

/// One output and its wallpaper surface.
#[derive(Debug)]
pub struct OutputEntry {
    pub id: u64,
    pub name: String,
    /// Scale in 120ths; an integer scale `n` is stored as `n * 120`.
    pub scale_120: u32,
    /// Whether the buffer is mapped by a viewport (physical buffer, logical
    /// destination) rather than by an integer buffer scale.
    pub fractional: bool,
    pub logical: Option<(u32, u32)>,
    pub configured: bool,
    pub resolved: Resolved,
    pub status: PaintStatus,
    /// Whether the buffers hold the current wallpaper: its last render came
    /// through.
    pub ready: bool,
    /// Physical size of the buffer currently on screen, if any.
    pub painted: Option<Size>,
    /// The picture that was last handed out to be shown, or to be faded to.
    pub shown: Option<Rc<Vec<u8>>>,
    /// The last render's buffers, both of `buffers_size`.
    pub sharp: Option<Rc<Vec<u8>>>,
    pub blurred: Option<Rc<Vec<u8>>>,
    pub buffers_size: Option<Size>,
    pub showing: Showing,
    pub transition: Option<Transition>,
    /// A frame callback is outstanding.
    pub frame_pending: bool,
    /// Counts the renders; a result of an older one is dropped.
    pub generation: u64,
}

/// What decides how every output is painted.
#[derive(Debug, Clone, Copy, PartialEq, Eq, Structural)]
pub struct Scene {
    pub overview_open: bool,
    pub transition_ms: u32,
    pub blur: BlurConfig,
}

/// What a repaint calls for.
#[derive(Debug)]
pub struct Repaint {
    pub commit: Option<Commit>,
    pub job: Option<Job>,
    /// The new wallpaper is shown already, without a job.
    pub complete: bool,
}

// ------------------------------------------------------------------- model

/// [`PaintStatus`] over character sequences.
pub ghost enum StatusSpec {
    Pending,
    Painted,
    Failed(Seq<char>),
}

/// [`Transition`] over byte sequences.
pub ghost struct FadeSpec {
    pub from: Seq<u8>,
    pub to: Seq<u8>,
    pub size: Size,
    pub anim: Anim,
}

/// [`Frame`] over byte sequences.
pub ghost enum FrameSpec {
    Whole(Seq<u8>),
    Fade { from: Seq<u8>, to: Seq<u8>, t: u32 },
}

/// [`Commit`] over byte sequences.
pub ghost struct CommitSpec {
    pub id: u64,
    pub frame: FrameSpec,
    pub size: Size,
}

/// [`OutputEntry`] over sequences.
pub ghost struct EntrySpec {
    pub id: u64,
    pub name: Seq<char>,
    pub scale_120: u32,
    pub fractional: bool,
    pub logical: Option<(u32, u32)>,
    pub configured: bool,
    pub resolved: config::ResolvedSpec,
    pub status: StatusSpec,
    pub ready: bool,
    pub painted: Option<Size>,
    pub shown: Option<Seq<u8>>,
    pub sharp: Option<Seq<u8>>,
    pub blurred: Option<Seq<u8>>,
    pub buffers_size: Option<Size>,
    pub showing: Showing,
    pub transition: Option<FadeSpec>,
    pub frame_pending: bool,
    pub generation: u64,
}

/// [`Repaint`] over sequences.
pub ghost struct RepaintSpec {
    pub commit: Option<CommitSpec>,
    pub job: Option<worker::JobSpec>,
    pub complete: bool,
}

impl View for PaintStatus {
    type V = StatusSpec;

    open spec fn view(&self) -> StatusSpec {
        match *self {
            PaintStatus::Pending => StatusSpec::Pending,
            PaintStatus::Painted => StatusSpec::Painted,
            PaintStatus::Failed(m) => StatusSpec::Failed(m@),
        }
    }
}

impl View for Transition {
    type V = FadeSpec;

    open spec fn view(&self) -> FadeSpec {
        FadeSpec { from: self.from@, to: self.to@, size: self.size, anim: self.anim }
    }
}

impl View for Frame {
    type V = FrameSpec;

    open spec fn view(&self) -> FrameSpec {
        match *self {
            Frame::Whole(p) => FrameSpec::Whole(p@),
            Frame::Fade { from, to, t } => FrameSpec::Fade { from: from@, to: to@, t },
        }
    }
}

impl View for Commit {
    type V = CommitSpec;

    open spec fn view(&self) -> CommitSpec {
        CommitSpec { id: self.id, frame: self.frame@, size: self.size }
    }
}

/// The bytes of an optional buffer.
pub open spec fn opt_pixels(p: Option<Rc<Vec<u8>>>) -> Option<Seq<u8>> {
    match p {
        Some(x) => Some(x@),
        None => None,
    }
}

/// An optional crossfade.
pub open spec fn opt_fade(t: Option<Transition>) -> Option<FadeSpec> {
    match t {
        Some(x) => Some(x@),
        None => None,
    }
}

/// An optional commit.
pub open spec fn opt_commit(c: Option<Commit>) -> Option<CommitSpec> {
    match c {
        Some(x) => Some(x@),
        None => None,
    }
}

/// An optional job.
pub open spec fn opt_job(j: Option<Job>) -> Option<worker::JobSpec> {
    match j {
        Some(x) => Some(x@),
        None => None,
    }
}

impl View for OutputEntry {
    type V = EntrySpec;

    open spec fn view(&self) -> EntrySpec {
        EntrySpec {
            id: self.id,
            name: self.name@,
            scale_120: self.scale_120,
            fractional: self.fractional,
            logical: self.logical,
            configured: self.configured,
            resolved: self.resolved@,
            status: self.status@,
            ready: self.ready,
            painted: self.painted,
            shown: opt_pixels(self.shown),
            sharp: opt_pixels(self.sharp),
            blurred: opt_pixels(self.blurred),
            buffers_size: self.buffers_size,
            showing: self.showing,
            transition: opt_fade(self.transition),
            frame_pending: self.frame_pending,
            generation: self.generation,
        }
    }
}

impl View for Repaint {
    type V = RepaintSpec;

    open spec fn view(&self) -> RepaintSpec {
        RepaintSpec {
            commit: opt_commit(self.commit),
            job: opt_job(self.job),
            complete: self.complete,
        }
    }
}

/// A logical side in physical pixels: rounded up under a fractional scale, and
/// at least one pixel; a whole multiple under an integer scale.
pub open spec fn physical_side(side: u32, scale_120: u32, fractional: bool) -> nat {
    if fractional {
        let n = (side as nat * scale_120 as nat + (SCALE_UNIT - 1) as nat) / (SCALE_UNIT as nat);
        if n >= 1 {
            n
        } else {
            1
        }
    } else {
        side as nat * integer_scale(scale_120)
    }
}

/// The integer scale of a scale in 120ths, at least 1.
pub open spec fn integer_scale(scale_120: u32) -> nat {
    if scale_120 / SCALE_UNIT >= 1 {
        (scale_120 / SCALE_UNIT) as nat
    } else {
        1
    }
}

/// The physical size of a surface of this logical size.
pub open spec fn physical_size(logical: (u32, u32), scale_120: u32, fractional: bool) -> Size {
    Size {
        w: physical_side(logical.0, scale_120, fractional) as u32,
        h: physical_side(logical.1, scale_120, fractional) as u32,
    }
}

/// Whether a surface of this logical size and scale can be painted: both sizes
/// are within what a compositor can be told, and the buffer can be allocated.
pub open spec fn paintable(logical: (u32, u32), scale_120: u32, fractional: bool) -> bool {
    &&& logical.0 <= i32::MAX
    &&& logical.1 <= i32::MAX
    &&& physical_side(logical.0, scale_120, fractional) <= u32::MAX
    &&& physical_side(logical.1, scale_120, fractional) <= u32::MAX
    &&& physical_size(logical, scale_120, fractional).showable()
}

impl EntrySpec {
    /// The invariant of an output: its scale is not zero, its size is not empty
    /// and can be painted, its image has an absolute path, it counts as painted
    /// only if its current wallpaper is rendered and something is on screen, and
    /// a crossfade runs between buffers of one length, toward the picture to be
    /// shown.
    pub open spec fn wf(self) -> bool {
        &&& self.scale_120 > 0
        &&& self.logical matches Some(l) ==> l.0 > 0 && l.1 > 0 && paintable(
            l,
            self.scale_120,
            self.fractional,
        )
        &&& self.resolved.path matches Some(p) ==> paths::is_absolute(p)
        &&& self.status == StatusSpec::Painted ==> self.ready && self.painted is Some
        &&& self.ready ==> self.sharp is Some && self.blurred is Some && self.buffers_size is Some
        &&& self.transition matches Some(t) ==> t.from.len() == t.to.len() && self.shown == Some(
            t.to,
        )
    }

    /// The physical size, once the logical size is known.
    pub open spec fn physical(self) -> Option<Size> {
        match self.logical {
            Some(l) => Some(physical_size(l, self.scale_120, self.fractional)),
            None => None,
        }
    }

    /// The buffer to be shown: the blurred one if it is wanted and there, else
    /// the sharp one.
    pub open spec fn target(self, want_blur: bool) -> Option<(Seq<u8>, Showing)> {
        if want_blur && self.blurred is Some {
            Some((self.blurred->0, Showing::Blurred))
        } else if self.sharp is Some {
            Some((self.sharp->0, Showing::Sharp))
        } else {
            None
        }
    }

    /// The pixels on screen at `now`, if every frame that was handed out got
    /// there; none if there was no frame yet. The buffers have no part in it:
    /// they may hold a picture that is not shown yet.
    pub open spec fn on_screen(self, now: u64) -> Seq<u8> {
        match self.transition {
            Some(t) => render::blended(t.from, t.to, t.anim.eased_at(now)),
            None => or_empty(self.shown),
        }
    }
}

/// The bytes, or none.
pub open spec fn or_empty(p: Option<Seq<u8>>) -> Seq<u8> {
    match p {
        Some(x) => x,
        None => Seq::empty(),
    }
}

impl Scene {
    /// Blur is shown while the overview is open, if it is enabled.
    pub open spec fn blurs(self) -> bool {
        self.overview_open && self.blur.enable
    }
}

/// Whether a change from `current` to `target` is faded.
pub open spec fn fades(
    current: Seq<u8>,
    target: Seq<u8>,
    transition_ms: u32,
    instant: bool,
) -> bool {
    &&& !instant
    &&& transition_ms != 0
    &&& current.len() == target.len()
    &&& current.len() > 0
}

/// The output after it was told to show what the scene calls for, and the frame
/// that this puts on screen first: the target itself, or the start of a
/// crossfade from what is on screen at `now`.
pub open spec fn presented(e: EntrySpec, scene: Scene, ease: Ease, instant: bool, now: u64) -> (
    EntrySpec,
    Option<CommitSpec>,
) {
    match (e.buffers_size, e.target(scene.blurs())) {
        (Some(size), Some((target, showing))) => {
            let current = e.on_screen(now);
            if fades(current, target, scene.transition_ms, instant) {
                let anim = Anim {
                    start: now,
                    duration: (scene.transition_ms * NANOS_PER_MS) as u64,
                    ease,
                };
                (
                    EntrySpec {
                        showing,
                        shown: Some(target),
                        transition: Some(FadeSpec { from: current, to: target, size, anim }),
                        ..e
                    },
                    Some(
                        CommitSpec {
                            id: e.id,
                            frame: FrameSpec::Fade { from: current, to: target, t: 0 },
                            size,
                        },
                    ),
                )
            } else {
                (
                    EntrySpec { showing, shown: Some(target), transition: None, ..e },
                    Some(CommitSpec { id: e.id, frame: FrameSpec::Whole(target), size }),
                )
            }
        },
        _ => (e, None),
    }
}

/// Nothing to do.
pub open spec fn no_repaint() -> RepaintSpec {
    RepaintSpec { commit: None, job: None, complete: false }
}

/// The output with the buffers of a colour-only wallpaper.
pub open spec fn filled(e: EntrySpec, dim: Seq<u8>) -> EntrySpec {
    let size = e.physical()->0;
    EntrySpec {
        sharp: Some(render::solid_pixels(e.resolved.color, size)),
        blurred: Some(render::solid_pixels(color::darkened(e.resolved.color, dim), size)),
        buffers_size: Some(size),
        ready: true,
        ..e
    }
}

/// The render job of an output with an image.
pub open spec fn job_for(e: EntrySpec, scene: Scene, token: u64, instant: bool) -> worker::JobSpec {
    worker::JobSpec {
        token,
        generation: e.generation,
        output: e.name,
        target: e.physical()->0,
        path: e.resolved.path->0,
        mode: e.resolved.mode,
        fill: e.resolved.color,
        blur_radius: scene.blur.radius,
        blur_dim_bits: scene.blur.dim_bits,
        fade: !instant,
    }
}

/// The output with its fill colour standing in for an image.
pub open spec fn standing_in(e: EntrySpec) -> (EntrySpec, CommitSpec) {
    let size = e.physical()->0;
    let solid = render::solid_pixels(e.resolved.color, size);
    (
        EntrySpec { shown: Some(solid), transition: None, ..e },
        CommitSpec { id: e.id, frame: FrameSpec::Whole(solid), size },
    )
}

/// The output after a repaint for its current wallpaper, size and scale. A
/// colour is filled in at once; an image becomes a job. Until then an output
/// keeps what it shows; its fill colour stands in only if nothing was ever on
/// screen.
pub open spec fn repainted(
    e: EntrySpec,
    scene: Scene,
    dim: Seq<u8>,
    token: u64,
    instant: bool,
    now: u64,
) -> (EntrySpec, RepaintSpec) {
    if !e.configured || e.physical() is None || e.physical()->0.no_pixels() {
        (e, no_repaint())
    } else {
        let next = EntrySpec { generation: (e.generation + 1) as u64, ..e };
        if e.resolved.path is None {
            let (shown, commit) = presented(filled(next, dim), scene, Ease::Out, instant, now);
            (shown, RepaintSpec { commit, job: None, complete: true })
        } else {
            let job = Some(job_for(next, scene, token, instant));
            if e.painted is None {
                let (shown, commit) = standing_in(next);
                (shown, RepaintSpec { commit: Some(commit), job, complete: false })
            } else {
                (next, RepaintSpec { commit: None, job, complete: false })
            }
        }
    }
}

/// The output after a frame callback at `now`, and the next frame of its
/// crossfade: the exact target once the time has run out, after which the
/// output is at rest.
pub open spec fn advanced(e: EntrySpec, now: u64) -> (EntrySpec, Option<CommitSpec>) {
    let idle = EntrySpec { frame_pending: false, ..e };
    match e.transition {
        None => (idle, None),
        Some(f) => {
            let done = f.anim.progress_at(now) == ONE;
            let t = if done {
                ONE
            } else {
                f.anim.eased_at(now) as u32
            };
            let commit = CommitSpec {
                id: e.id,
                frame: FrameSpec::Fade { from: f.from, to: f.to, t },
                size: f.size,
            };
            if done {
                (EntrySpec { transition: None, ..idle }, Some(commit))
            } else {
                (idle, Some(commit))
            }
        },
    }
}

/// What a frame looks like on a canvas that is at least as large.
pub open spec fn drawn(f: FrameSpec, i: int) -> u8 {
    match f {
        FrameSpec::Whole(p) => p[i],
        FrameSpec::Fade { from, to, t } => render::mixed(from[i], to[i], render::clamped(t)),
    }
}

/// How many bytes a frame draws.
pub open spec fn drawn_len(f: FrameSpec) -> nat {
    match f {
        FrameSpec::Whole(p) => p.len(),
        FrameSpec::Fade { from, to, .. } => if from.len() <= to.len() {
            from.len()
        } else {
            to.len()
        },
    }
}

/// The frame that settles a crossfade.
pub open spec fn settles(f: FrameSpec) -> bool {
    f matches FrameSpec::Fade { t, .. } && t >= ONE
}

/// How a frame of `size` is attached to the output's surface.
pub open spec fn planned(e: EntrySpec, size: Size) -> Option<Plan> {
    match e.logical {
        None => None,
        Some((lw, lh)) => Some(
            Plan {
                width: size.w as i32,
                height: size.h as i32,
                stride: (size.w * 4) as i32,
                buffer_scale: if e.fractional {
                    1
                } else {
                    integer_scale(e.scale_120) as i32
                },
                logical_width: lw as i32,
                logical_height: lh as i32,
                use_viewport: e.fractional,
                geometry_changed: e.painted != Some(size),
            },
        ),
    }
}

/// The output after a frame of `size` went on screen, and whether it wants to
/// be called back for the next one: only while a crossfade goes on, and never
/// twice at a time. It counts as painted once the frames are of its current
/// wallpaper.
pub open spec fn committed(e: EntrySpec, size: Size, settled: bool) -> (EntrySpec, bool) {
    let want = e.transition is Some && !e.frame_pending && !settled;
    (
        EntrySpec {
            painted: Some(size),
            status: if e.ready {
                StatusSpec::Painted
            } else {
                e.status
            },
            frame_pending: e.frame_pending || want,
            ..e
        },
        want,
    )
}

// -------------------------------------------------------------------- code

/// `Rc::clone`: another handle to the same buffer.
#[verifier::external_body]
fn share(p: &Rc<Vec<u8>>) -> (r: Rc<Vec<u8>>)
    ensures
        r == *p,
{
    Rc::clone(p)
}

/// A scaled side fits in 64 bits.
proof fn lemma_side_bounds(side: u32, scale_120: u32)
    ensures
        side as nat * scale_120 as nat + 119 <= u64::MAX,
{
    assert(side as nat * scale_120 as nat <= u32::MAX * u32::MAX) by (nonlinear_arith)
        requires
            side <= u32::MAX,
            scale_120 <= u32::MAX,
    ;
}

/// One logical side in physical pixels, as far as 64 bits reach.
fn side_of(side: u32, scale_120: u32, fractional: bool) -> (r: u64)
    ensures
        r == physical_side(side, scale_120, fractional),
{
    proof {
        lemma_side_bounds(side, scale_120);
    }
    if fractional {
        let n: u64 = (side as u64 * scale_120 as u64 + (SCALE_UNIT - 1) as u64) / SCALE_UNIT as u64;
        if n >= 1 {
            n
        } else {
            1
        }
    } else {
        let whole: u32 = scale_120 / SCALE_UNIT;
        let n: u32 = if whole >= 1 {
            whole
        } else {
            1
        };
        proof {
            lemma_side_bounds(side, n);
        }
        side as u64 * n as u64
    }
}

/// Whether a surface of this logical size and scale can be painted.
pub fn is_paintable(logical: (u32, u32), scale_120: u32, fractional: bool) -> (r: bool)
    ensures
        r == paintable(logical, scale_120, fractional),
{
    let w = side_of(logical.0, scale_120, fractional);
    let h = side_of(logical.1, scale_120, fractional);
    logical.0 <= i32::MAX as u32 && logical.1 <= i32::MAX as u32 && w <= u32::MAX as u64 && h
        <= u32::MAX as u64 && (Size { w: w as u32, h: h as u32 }).is_showable()
}

impl Frame {
    /// Draw the frame onto `canvas`, as far as both reach.
    pub fn fill(&self, canvas: &mut [u8])
        ensures
            final(canvas)@.len() == old(canvas)@.len(),
            forall|i: int|
                0 <= i < old(canvas)@.len() ==> #[trigger] final(canvas)@[i] == (if i < drawn_len(
                    self@,
                ) {
                    drawn(self@, i)
                } else {
                    old(canvas)@[i]
                }),
    {
        match self {
            Frame::Whole(p) => copy_into(canvas, p.as_slice()),
            Frame::Fade { from, to, t } => blend_into(canvas, from.as_slice(), to.as_slice(), *t),
        }
    }

    /// Whether this frame settles a crossfade.
    pub fn settles(&self) -> (r: bool)
        ensures
            r == settles(self@),
    {
        match self {
            Frame::Whole(_) => false,
            Frame::Fade { t, .. } => *t >= ONE,
        }
    }
}

impl OutputEntry {
    /// The physical buffer size for the current logical size and scale.
    pub fn physical(&self) -> (r: Option<Size>)
        requires
            self@.wf(),
        ensures
            r == self@.physical(),
    {
        match self.logical {
            None => None,
            Some((lw, lh)) => {
                let w = side_of(lw, self.scale_120, self.fractional);
                let h = side_of(lh, self.scale_120, self.fractional);
                Some(Size { w: w as u32, h: h as u32 })
            },
        }
    }

    /// The exact pixels on screen at `now`: a shared handle to the shown picture,
    /// or a freshly blended one when a crossfade is interrupted. Empty if
    /// nothing was shown yet.
    pub fn current_displayed(&self, now: u64) -> (r: Rc<Vec<u8>>)
        requires
            self@.wf(),
        ensures
            r@ == self@.on_screen(now),
    {
        if let Some(t) = &self.transition {
            return Rc::new(blend(t.from.as_slice(), t.to.as_slice(), t.anim.eased(now)));
        }
        match &self.shown {
            Some(p) => share(p),
            None => Rc::new(Vec::new()),
        }
    }

    /// Show the buffer that the scene calls for. `instant` shows it directly;
    /// otherwise a crossfade from what is on screen is started or retargeted.
    pub fn present_target(&mut self, scene: &Scene, ease: Ease, instant: bool, now: u64) -> (r:
        Option<Commit>)
        requires
            old(self)@.wf(),
        ensures
            final(self)@ == presented(old(self)@, *scene, ease, instant, now).0,
            opt_commit(r) == presented(old(self)@, *scene, ease, instant, now).1,
            final(self)@.wf(),
    {
        let size = match self.buffers_size {
            Some(size) => size,
            None => return None,
        };
        let want_blur = scene.overview_open && scene.blur.enable;
        let (target, showing) = if let (true, Some(b)) = (want_blur, &self.blurred) {
            (share(b), Showing::Blurred)
        } else if let Some(s) = &self.sharp {
            (share(s), Showing::Sharp)
        } else {
            return None;
        };
        let current = self.current_displayed(now);
        self.showing = showing;
        self.shown = Some(share(&target));
        if !instant && scene.transition_ms != 0 && current.len() == target.len() && current.len()
            != 0 {
            let anim = Anim::new(now, scene.transition_ms as u64 * NANOS_PER_MS, ease);
            let frame = Frame::Fade { from: share(&current), to: share(&target), t: 0 };
            self.transition = Some(Transition { from: current, to: target, size, anim });
            Some(Commit { id: self.id, frame, size })
        } else {
            self.transition = None;
            Some(Commit { id: self.id, frame: Frame::Whole(target), size })
        }
    }

    /// Repaint for the current wallpaper, size and scale. `token` is 0 for a
    /// plain repaint, or that of the `set` whose reply waits for the result.
    pub fn repaint(
        &mut self,
        scene: &Scene,
        dim: &DimSteps,
        token: u64,
        instant: bool,
        now: u64,
    ) -> (r: Repaint)
        requires
            old(self)@.wf(),
            old(self)@.generation < u64::MAX,
        ensures
            final(self)@ == repainted(old(self)@, *scene, dim@, token, instant, now).0,
            r@ == repainted(old(self)@, *scene, dim@, token, instant, now).1,
            final(self)@.wf(),
            r.job matches Some(j) ==> {
                &&& j.token == token
                &&& j.output@ == old(self).name@
                &&& text::opt_view(old(self).resolved.path) == Some(j.path@)
                &&& j.mode == old(self).resolved.mode
                &&& j.fill == old(self).resolved.color
                &&& j.blur_radius == scene.blur.radius
                &&& j.blur_dim_bits == scene.blur.dim_bits
                &&& j.fade == !instant
            },
    {
        if !self.configured {
            return Repaint { commit: None, job: None, complete: false };
        }
        let size = match self.physical() {
            Some(size) => size,
            None => return Repaint { commit: None, job: None, complete: false },
        };
        if size.is_empty() {
            return Repaint { commit: None, job: None, complete: false };
        }
        self.generation = self.generation + 1;
        let fill: Color = self.resolved.color;
        match &self.resolved.path {
            None => {
                self.sharp = Some(Rc::new(solid(fill, size)));
                self.blurred = Some(Rc::new(solid(fill.dimmed(dim), size)));
                self.buffers_size = Some(size);
                self.ready = true;
                let commit = self.present_target(scene, Ease::Out, instant, now);
                Repaint { commit, job: None, complete: true }
            },
            Some(path) => {
                let commit = if self.painted.is_none() {
                    let stand_in = Rc::new(solid(fill, size));
                    self.shown = Some(share(&stand_in));
                    self.transition = None;
                    Some(Commit { id: self.id, frame: Frame::Whole(stand_in), size })
                } else {
                    None
                };
                let job = Job {
                    token,
                    generation: self.generation,
                    output: self.name.clone(),
                    target: size,
                    path: path.clone(),
                    mode: self.resolved.mode,
                    fill,
                    blur_radius: scene.blur.radius,
                    blur_dim_bits: scene.blur.dim_bits,
                    fade: !instant,
                };
                Repaint { commit, job: Some(job), complete: false }
            },
        }
    }

    /// A frame callback came: advance the crossfade, if there is one.
    pub fn advance_transition(&mut self, now: u64) -> (r: Option<Commit>)
        requires
            old(self)@.wf(),
        ensures
            final(self)@ == advanced(old(self)@, now).0,
            opt_commit(r) == advanced(old(self)@, now).1,
            final(self)@.wf(),
    {
        self.frame_pending = false;
        let id = self.id;
        let mut done = false;
        let commit = match &self.transition {
            None => None,
            Some(f) => {
                done = f.anim.done(now);
                let t: u32 = if done {
                    ONE
                } else {
                    f.anim.eased(now)
                };
                let frame = Frame::Fade { from: share(&f.from), to: share(&f.to), t };
                Some(Commit { id, frame, size: f.size })
            },
        };
        if done {
            self.transition = None;
        }
        commit
    }

    /// How a frame of `size` is attached to the surface; none before the first
    /// configure.
    pub fn commit_plan(&self, size: Size) -> (r: Option<Plan>)
        requires
            self@.wf(),
            size.showable(),
        ensures
            r == planned(self@, size),
            r matches Some(p) ==> {
                &&& p.width == size.w
                &&& p.height == size.h
                &&& p.stride == 4 * size.w
                &&& p.logical_width >= 0 && p.logical_height >= 0
                &&& self.logical == Some((p.logical_width as u32, p.logical_height as u32))
            },
    {
        match self.logical {
            None => None,
            Some((lw, lh)) => {
                let whole: u32 = self.scale_120 / SCALE_UNIT;
                let buffer_scale: i32 = if self.fractional || whole < 1 {
                    1
                } else {
                    whole as i32
                };
                Some(
                    Plan {
                        width: size.w as i32,
                        height: size.h as i32,
                        stride: (size.w * 4) as i32,
                        buffer_scale,
                        logical_width: lw as i32,
                        logical_height: lh as i32,
                        use_viewport: self.fractional,
                        geometry_changed: match self.painted {
                            Some(p) => p != size,
                            None => true,
                        },
                    },
                )
            },
        }
    }

    /// A frame of `size` is on screen; whether a frame callback is wanted for
    /// the next one.
    pub fn commit_done(&mut self, size: Size, settled: bool) -> (r: bool)
        ensures
            final(self)@ == committed(old(self)@, size, settled).0,
            r == committed(old(self)@, size, settled).1,
    {
        self.painted = Some(size);
        if self.ready {
            self.status = PaintStatus::Painted;
        }
        let want = self.transition.is_some() && !self.frame_pending && !settled;
        if want {
            self.frame_pending = true;
        }
        want
    }
}

// -------------------------------------------------------------------- laws

/// A fractionally scaled side is the logical side times the scale, rounded up:
/// the buffer always covers the surface, by less than one pixel too much.
pub proof fn law_physical_side_rounds_up(side: u32, scale_120: u32)
    requires
        side > 0,
        scale_120 > 0,
    ensures
        physical_side(side, scale_120, true) * 120 >= side * scale_120,
        (physical_side(side, scale_120, true) - 1) * 120 < side * scale_120,
{
    let p = side as nat * scale_120 as nat;
    assert(p >= 1) by (nonlinear_arith)
        requires
            p == side as nat * scale_120 as nat,
            side > 0,
            scale_120 > 0,
    ;
}

/// At a scale of 1.0 physical and logical size agree, and at a whole scale both
/// ways of scaling do.
pub proof fn law_whole_scales_agree(side: u32, n: u32)
    requires
        side > 0,
        n > 0,
        n * SCALE_UNIT <= u32::MAX,
    ensures
        physical_side(side, (n * SCALE_UNIT) as u32, true) == side * n,
        physical_side(side, (n * SCALE_UNIT) as u32, false) == side * n,
        physical_side(side, SCALE_UNIT, true) == side,
        physical_side(side, SCALE_UNIT, false) == side,
{
    let scale = (n * SCALE_UNIT) as u32;
    assert(side as nat * scale as nat == (side as nat * n as nat) * 120) by (nonlinear_arith)
        requires
            scale == n * 120,
    ;
    assert(side as nat * n as nat >= 1) by (nonlinear_arith)
        requires
            side > 0,
            n > 0,
    ;
    assert(side as nat * 1nat == side as nat);
}

/// A crossfade never jumps: at the moment it starts, or is turned toward
/// another target, exactly what was on screen still is.
pub proof fn law_retarget_never_jumps(e: EntrySpec, scene: Scene, ease: Ease, now: u64)
    requires
        e.wf(),
        presented(e, scene, ease, false, now).0.transition is Some,
        presented(e, scene, ease, false, now).1 is Some,
    ensures
        presented(e, scene, ease, false, now).0.on_screen(now) == e.on_screen(now),
{
    let (after, commit) = presented(e, scene, ease, false, now);
    let t = after.transition->0;
    crate::daemon::anim::law_starts_at_zero(t.anim);
    render::law_blend_ends(t.from, t.to);
}

/// A change that is not faded shows the target at once, and nothing is left of
/// any crossfade.
pub proof fn law_instant_change_is_exact(e: EntrySpec, scene: Scene, ease: Ease, now: u64)
    requires
        e.buffers_size is Some,
        e.target(scene.blurs()) is Some,
    ensures
        ({
            let (after, commit) = presented(e, scene, ease, true, now);
            &&& after.transition is None
            &&& after.on_screen(now) == (e.target(scene.blurs())->0).0
            &&& commit == Some(
                CommitSpec {
                    id: e.id,
                    frame: FrameSpec::Whole((e.target(scene.blurs())->0).0),
                    size: e.buffers_size->0,
                },
            )
        }),
{
}

/// A transition time of zero makes every change instant.
pub proof fn law_zero_transition_is_instant(e: EntrySpec, scene: Scene, ease: Ease, now: u64)
    requires
        scene.transition_ms == 0,
    ensures
        presented(e, scene, ease, false, now) == presented(e, scene, ease, true, now),
{
}

/// While blur is disabled or the overview closed, what is headed for the screen
/// is the sharp buffer.
pub proof fn law_no_blur_without_overview(
    e: EntrySpec,
    scene: Scene,
    ease: Ease,
    instant: bool,
    now: u64,
)
    requires
        !scene.overview_open || !scene.blur.enable,
        presented(e, scene, ease, instant, now).1 is Some,
    ensures
        presented(e, scene, ease, instant, now).0.showing == Showing::Sharp,
        presented(e, scene, ease, instant, now).0.transition matches Some(t) ==> Some(t.to)
            == e.sharp,
        presented(e, scene, ease, instant, now).0.transition is None ==> Some(
            presented(e, scene, ease, instant, now).0.on_screen(now),
        ) == e.sharp,
{
}

/// Once its time has run, a crossfade draws its target exactly, ends, and asks
/// for nothing more.
pub proof fn law_crossfade_settles(e: EntrySpec, now: u64, i: int)
    requires
        e.wf(),
        e.transition is Some,
        e.transition->0.anim.elapsed(now) >= e.transition->0.anim.duration,
        0 <= i < e.transition->0.to.len(),
    ensures
        ({
            let (after, commit) = advanced(e, now);
            let size = (commit->0).size;
            &&& after.transition is None
            &&& after.on_screen(now) == e.transition->0.to
            &&& commit is Some
            &&& drawn((commit->0).frame, i) == e.transition->0.to[i]
            &&& settles((commit->0).frame)
            &&& !committed(after, size, true).1
            &&& advanced(after, now).1 is None
        }),
{
    crate::daemon::anim::law_ends_at_one(e.transition->0.anim, now);
    let f = e.transition->0;
    render::law_blend_ends(f.from, f.to);
    assert(render::blended(f.from, f.to, ONE as nat)[i] == f.to[i]);
}

/// From the end of its time on, what a crossfade has on screen is its target,
/// even if no frame has been drawn since.
pub proof fn law_crossfade_reaches_its_target(e: EntrySpec, now: u64)
    requires
        e.wf(),
        e.transition is Some,
        e.transition->0.anim.elapsed(now) >= e.transition->0.anim.duration,
    ensures
        e.on_screen(now) == e.transition->0.to,
{
    let f = e.transition->0;
    crate::daemon::anim::law_ends_at_one(f.anim, now);
    render::law_blend_ends(f.from, f.to);
}

/// While it lasts, a crossfade keeps every byte between its two ends, and leaves
/// it where it is if they agree.
pub proof fn law_crossfade_stays_between(e: EntrySpec, now: u64, i: int)
    requires
        e.wf(),
        e.transition is Some,
        0 <= i < e.transition->0.from.len(),
    ensures
        ({
            let f = e.transition->0;
            let b = e.on_screen(now)[i];
            &&& e.on_screen(now).len() == f.to.len()
            &&& f.from[i] <= f.to[i] ==> f.from[i] <= b <= f.to[i]
            &&& f.to[i] <= f.from[i] ==> f.to[i] <= b <= f.from[i]
        }),
{
    let f = e.transition->0;
    crate::daemon::anim::law_eased_is_monotonic(f.anim, now, now);
    render::law_blend_stays_between(f.from, f.to, f.anim.eased_at(now), i);
}

/// An output at rest draws nothing, whatever callbacks come.
pub proof fn law_at_rest_nothing_is_drawn(e: EntrySpec, size: Size, settled: bool, now: u64)
    requires
        e.transition is None,
    ensures
        advanced(e, now).1 is None,
        !committed(e, size, settled).1,
{
}

/// Frame callbacks do not stack: one is only asked for when none is outstanding,
/// and from then on it is.
pub proof fn law_one_callback_at_a_time(e: EntrySpec, size: Size, settled: bool)
    ensures
        committed(e, size, settled).1 ==> !e.frame_pending && committed(
            e,
            size,
            settled,
        ).0.frame_pending,
        e.frame_pending ==> !committed(e, size, settled).1,
{
}

/// Every repaint that does something makes the results of all jobs before it
/// stale, and the job that it calls for is the current one.
pub proof fn law_repaint_outdates_older_jobs(
    e: EntrySpec,
    scene: Scene,
    dim: Seq<u8>,
    token: u64,
    instant: bool,
    now: u64,
)
    requires
        e.generation < u64::MAX,
    ensures
        ({
            let (after, rp) = repainted(e, scene, dim, token, instant, now);
            &&& rp != no_repaint() ==> after.generation > e.generation
            &&& rp.job matches Some(j) ==> j.generation == after.generation && j.token == token
            &&& rp.complete ==> rp.job is None
        }),
{
}

/// A surface is mapped as early as possible: as long as nothing is on screen, a
/// repaint of an output that has a size puts something there, whatever the
/// wallpaper is.
pub proof fn law_first_repaint_shows_something(
    e: EntrySpec,
    scene: Scene,
    dim: Seq<u8>,
    token: u64,
    instant: bool,
    now: u64,
)
    requires
        e.wf(),
        e.configured,
        e.logical is Some,
        e.painted is None,
    ensures
        repainted(e, scene, dim, token, instant, now).1.commit is Some,
{
    let l = e.logical->0;
    lemma_painted_sides(l.0, e.scale_120, e.fractional);
    lemma_painted_sides(l.1, e.scale_120, e.fractional);
}

/// Where something is on screen, a repaint for an image draws nothing and leaves
/// it there: the picture changes only once the new one is rendered.
pub proof fn law_repaint_keeps_the_old_picture(
    e: EntrySpec,
    scene: Scene,
    dim: Seq<u8>,
    token: u64,
    instant: bool,
    now: u64,
    later: u64,
)
    requires
        e.painted is Some,
        e.resolved.path is Some,
    ensures
        repainted(e, scene, dim, token, instant, now).1.commit is None,
        repainted(e, scene, dim, token, instant, now).0.on_screen(later) == e.on_screen(later),
        repainted(e, scene, dim, token, instant, now).0.painted == e.painted,
{
}

/// A colour that replaces something of the same size is faded to from exactly
/// what is on screen.
pub proof fn law_colour_fades_from_the_old_picture(
    e: EntrySpec,
    scene: Scene,
    dim: Seq<u8>,
    token: u64,
    now: u64,
)
    requires
        e.configured,
        e.physical() is Some,
        !e.physical()->0.no_pixels(),
        e.resolved.path is None,
        scene.transition_ms != 0,
        e.on_screen(now).len() == e.physical()->0.bytes(),
    ensures
        ({
            let (after, rp) = repainted(e, scene, dim, token, false, now);
            let color = if scene.blurs() {
                color::darkened(e.resolved.color, dim)
            } else {
                e.resolved.color
            };
            &&& rp.commit == Some(
                CommitSpec {
                    id: e.id,
                    frame: FrameSpec::Fade {
                        from: e.on_screen(now),
                        to: render::solid_pixels(color, e.physical()->0),
                        t: 0,
                    },
                    size: e.physical()->0,
                },
            )
            &&& after.on_screen(now) == e.on_screen(now)
        }),
{
    let size = e.physical()->0;
    assert(size.w as nat * size.h as nat >= 1) by (nonlinear_arith)
        requires
            size.w > 0,
            size.h > 0,
    ;
    let next = EntrySpec { generation: (e.generation + 1) as u64, ..e };
    let full = filled(next, dim);
    assert(full.on_screen(now) == e.on_screen(now));
    let after = presented(full, scene, Ease::Out, false, now).0;
    let t = after.transition->0;
    crate::daemon::anim::law_starts_at_zero(t.anim);
    render::law_blend_ends(t.from, t.to);
}

/// Whether every buffer of an output has exactly the bytes of its size.
pub open spec fn whole_buffers(e: EntrySpec) -> bool {
    &&& e.sharp matches Some(p) ==> e.buffers_size is Some && p.len() == e.buffers_size->0.bytes()
    &&& e.blurred matches Some(p) ==> e.buffers_size is Some && p.len()
        == e.buffers_size->0.bytes()
    &&& e.transition matches Some(t) ==> t.from.len() == t.size.bytes() && t.to.len()
        == t.size.bytes()
}

/// Whether a frame draws every byte of its buffer.
pub open spec fn whole_frame(c: Option<CommitSpec>) -> bool {
    c matches Some(f) ==> drawn_len(f.frame) == f.size.bytes()
}

/// As long as renders come whole, every frame covers its whole buffer, and the
/// buffers stay whole, whatever is presented, repainted or advanced.
pub proof fn law_frames_are_whole(
    e: EntrySpec,
    scene: Scene,
    dim: Seq<u8>,
    token: u64,
    ease: Ease,
    instant: bool,
    now: u64,
)
    requires
        e.wf(),
        whole_buffers(e),
    ensures
        whole_buffers(presented(e, scene, ease, instant, now).0),
        whole_frame(presented(e, scene, ease, instant, now).1),
        whole_buffers(repainted(e, scene, dim, token, instant, now).0),
        whole_frame(repainted(e, scene, dim, token, instant, now).1.commit),
        whole_buffers(advanced(e, now).0),
        whole_frame(advanced(e, now).1),
{
}

/// A side that is not empty is not empty in physical pixels either.
proof fn lemma_painted_sides(side: u32, scale_120: u32, fractional: bool)
    requires
        side > 0,
    ensures
        physical_side(side, scale_120, fractional) >= 1,
{
    if !fractional {
        assert(side as nat * integer_scale(scale_120) >= 1) by (nonlinear_arith)
            requires
                side > 0,
                integer_scale(scale_120) >= 1,
        ;
    }
}

/// A whole scale multiplies: under an integer scale a side is the logical one
/// times the whole number of the scale, which counts as one below that.
pub proof fn law_integer_scale_multiplies(side: u32, scale_120: u32, n: nat)
    requires
        n >= 1,
        120 * n <= scale_120 < 120 * (n + 1) || n == 1 && scale_120 < 240,
    ensures
        physical_side(side, scale_120, false) == side * n,
{
    assert(integer_scale(scale_120) == n);
}

/// The physical size has the width of the logical width and the height of the
/// logical height: each scaled and rounded up under a fractional scale, each a
/// whole multiple under an integer one.
pub proof fn law_physical_size_scales_both_sides(e: EntrySpec, lw: u32, lh: u32)
    requires
        e.wf(),
        e.logical == Some((lw, lh)),
    ensures
        e.physical() is Some,
        ({
            let p = e.physical()->0;
            &&& p.w >= 1 && p.h >= 1
            &&& e.fractional ==> {
                &&& lw * e.scale_120 <= p.w * 120 < lw * e.scale_120 + 120
                &&& lh * e.scale_120 <= p.h * 120 < lh * e.scale_120 + 120
            }
            &&& !e.fractional ==> {
                let n: int = if e.scale_120 < 120 {
                    1
                } else {
                    e.scale_120 as int / 120
                };
                p.w == lw * n && p.h == lh * n
            }
        }),
{
    lemma_painted_sides(lw, e.scale_120, e.fractional);
    lemma_painted_sides(lh, e.scale_120, e.fractional);
    if e.fractional {
        law_physical_side_rounds_up(lw, e.scale_120);
        law_physical_side_rounds_up(lh, e.scale_120);
    }
}

/// Before the first configure there is no size.
pub proof fn law_no_size_before_configure(e: EntrySpec)
    requires
        e.logical is None,
    ensures
        e.physical() is None,
{
}

/// Every size up to 16384 physical pixels a side can be painted, at any scale.
pub proof fn law_ordinary_outputs_can_be_painted(
    logical: (u32, u32),
    scale_120: u32,
    fractional: bool,
)
    requires
        logical.0 <= 16384,
        logical.1 <= 16384,
        physical_side(logical.0, scale_120, fractional) <= 16384,
        physical_side(logical.1, scale_120, fractional) <= 16384,
    ensures
        paintable(logical, scale_120, fractional),
{
    let size = physical_size(logical, scale_120, fractional);
    assert(size.w as nat * size.h as nat <= 16384 * 16384) by (nonlinear_arith)
        requires
            size.w <= 16384,
            size.h <= 16384,
    ;
}

/// The buffer that a scene calls for: the blurred one while the overview is open
/// with blur enabled, the sharp one otherwise.
pub proof fn law_scene_picks_the_buffer(
    e: EntrySpec,
    scene: Scene,
    sharp: Seq<u8>,
    blurred: Seq<u8>,
)
    requires
        e.sharp == Some(sharp),
        e.blurred == Some(blurred),
    ensures
        scene.overview_open && scene.blur.enable ==> e.target(scene.blurs()) == Some(
            (blurred, Showing::Blurred),
        ),
        !scene.overview_open || !scene.blur.enable ==> e.target(scene.blurs()) == Some(
            (sharp, Showing::Sharp),
        ),
{
}

/// A change of an output that has both buffers is faded exactly if it is not
/// told to be instant, a transition time is set, and what is on screen is as
/// long as what comes, and not empty. The first frame is then the start of the
/// fade, and otherwise the buffer itself.
pub proof fn law_when_a_change_is_faded(
    e: EntrySpec,
    scene: Scene,
    ease: Ease,
    instant: bool,
    now: u64,
)
    requires
        e.sharp is Some,
        e.blurred is Some,
        e.buffers_size is Some,
    ensures
        ({
            let blur = scene.overview_open && scene.blur.enable;
            let next = if blur {
                e.blurred->0
            } else {
                e.sharp->0
            };
            let faded = !instant && scene.transition_ms > 0 && e.on_screen(now).len() == next.len()
                && next.len() > 0;
            let (after, commit) = presented(e, scene, ease, instant, now);
            &&& commit is Some
            &&& (commit->0).id == e.id
            &&& (commit->0).size == e.buffers_size->0
            &&& after.showing == (if blur {
                Showing::Blurred
            } else {
                Showing::Sharp
            })
            &&& after.shown == Some(next)
            &&& after.transition is Some <==> faded
            &&& faded ==> (commit->0).frame == (FrameSpec::Fade {
                from: e.on_screen(now),
                to: next,
                t: 0,
            })
            &&& faded ==> after.transition->0.from == e.on_screen(now) && after.transition->0.to
                == next && after.transition->0.size == e.buffers_size->0
            &&& !faded ==> (commit->0).frame == FrameSpec::Whole(next)
        }),
{
}

/// A crossfade lasts as long as the transition time says: started at `now` with
/// `transition_ms` milliseconds, it is over at a later time exactly if that many
/// milliseconds have passed, and until then every frame is between the two
/// pictures on the curve that was asked for.
pub proof fn law_fade_lasts_the_transition_time(
    e: EntrySpec,
    scene: Scene,
    ease: Ease,
    now: u64,
    later: u64,
)
    requires
        e.sharp is Some,
        e.blurred is Some,
        e.buffers_size is Some,
        presented(e, scene, ease, false, now).0.transition is Some,
        now <= later,
    ensures
        ({
            let started = presented(e, scene, ease, false, now).0;
            let (after, commit) = advanced(started, later);
            let over = later - now >= scene.transition_ms * 1_000_000;
            let run = Anim {
                start: now,
                duration: (scene.transition_ms * 1_000_000) as u64,
                ease,
            };
            &&& scene.transition_ms > 0
            &&& after.transition is None <==> over
            &&& !over ==> after.transition == started.transition
            &&& commit is Some
            &&& (commit->0).id == e.id
            &&& (commit->0).size == e.buffers_size->0
            &&& (commit->0).frame matches FrameSpec::Fade { from, to, t }
            &&& from == e.on_screen(now)
            &&& Some(to) == (if scene.overview_open && scene.blur.enable {
                e.blurred
            } else {
                e.sharp
            })
            &&& t == (if over {
                0x100_0000nat
            } else {
                run.eased_at(later)
            })
        }),
{
    let started = presented(e, scene, ease, false, now).0;
    let run = started.transition->0.anim;
    assert(scene.transition_ms * NANOS_PER_MS <= u64::MAX) by (nonlinear_arith)
        requires
            scene.transition_ms <= u32::MAX,
            NANOS_PER_MS == 1_000_000,
    ;
    crate::daemon::anim::law_progress_is_linear(run, later);
    crate::daemon::anim::law_eased_is_monotonic(run, later, later);
}

/// Presenting changes nothing but what is shown: not the output's identity, size
/// and wallpaper, nor its buffers, status and counters.
pub proof fn law_presenting_keeps_the_rest(
    e: EntrySpec,
    scene: Scene,
    ease: Ease,
    instant: bool,
    now: u64,
)
    ensures
        ({
            let after = presented(e, scene, ease, instant, now).0;
            &&& after.id == e.id && after.name == e.name && after.resolved == e.resolved
            &&& after.scale_120 == e.scale_120 && after.fractional == e.fractional
            &&& after.logical == e.logical && after.configured == e.configured
            &&& after.status == e.status && after.ready == e.ready && after.painted == e.painted
            &&& after.sharp == e.sharp && after.blurred == e.blurred
            &&& after.buffers_size == e.buffers_size
            &&& after.frame_pending == e.frame_pending && after.generation == e.generation
        }),
        e.buffers_size is None || e.sharp is None && e.blurred is None ==> presented(
            e,
            scene,
            ease,
            instant,
            now,
        ) == (e, None::<CommitSpec>),
{
}

/// Every render job that a repaint queues is for the output's own wallpaper, at
/// its physical size, with the blur settings of the scene; and a repaint queues
/// one exactly if the output has a size to paint and an image.
pub proof fn law_job_carries_the_wallpaper(
    e: EntrySpec,
    scene: Scene,
    dim: Seq<u8>,
    token: u64,
    instant: bool,
    now: u64,
)
    requires
        e.generation < u64::MAX,
    ensures
        ({
            let (after, rp) = repainted(e, scene, dim, token, instant, now);
            let can = e.configured && e.physical() is Some && e.physical()->0.w > 0 && e.physical()->0.h
                > 0;
            &&& rp.job is Some <==> can && e.resolved.path is Some
            &&& rp.complete <==> can && e.resolved.path is None
            &&& rp.job matches Some(j) ==> {
                &&& Some(j.path) == e.resolved.path
                &&& j.mode == e.resolved.mode
                &&& j.fill == e.resolved.color
                &&& Some(j.target) == e.physical()
                &&& j.blur_radius == scene.blur.radius
                &&& j.blur_dim_bits == scene.blur.dim_bits
                &&& j.output == e.name
                &&& j.token == token
                &&& j.fade == !instant
                &&& j.generation == e.generation + 1
                &&& j.generation == after.generation
            }
        }),
{
}

/// A repaint of an output that cannot be painted yet changes nothing and draws
/// nothing.
pub proof fn law_repaint_waits_for_a_size(
    e: EntrySpec,
    scene: Scene,
    dim: Seq<u8>,
    token: u64,
    instant: bool,
    now: u64,
)
    requires
        !e.configured || e.physical() is None || e.physical()->0.w == 0 || e.physical()->0.h == 0,
    ensures
        ({
            let (after, rp) = repainted(e, scene, dim, token, instant, now);
            after == e && rp.commit is None && rp.job is None && !rp.complete
        }),
{
}

/// A wallpaper without an image fills both buffers at once: the sharp one with
/// the colour, the blurred one with the darkened colour, at the physical size;
/// one of them goes on screen.
pub proof fn law_colour_fills_the_output(
    e: EntrySpec,
    scene: Scene,
    dim: Seq<u8>,
    token: u64,
    instant: bool,
    now: u64,
)
    requires
        e.configured,
        e.physical() is Some,
        e.physical()->0.w > 0,
        e.physical()->0.h > 0,
        e.resolved.path is None,
    ensures
        ({
            let (after, rp) = repainted(e, scene, dim, token, instant, now);
            let size = e.physical()->0;
            let c = e.resolved.color;
            let dark = Color {
                r: dim[c.r as int],
                g: dim[c.g as int],
                b: dim[c.b as int],
                a: c.a,
            };
            &&& after.sharp == Some(render::solid_pixels(c, size))
            &&& after.blurred == Some(render::solid_pixels(dark, size))
            &&& after.buffers_size == Some(size)
            &&& after.ready
            &&& rp.job is None
            &&& rp.complete
            &&& rp.commit is Some
            &&& (rp.commit->0).id == e.id
            &&& (rp.commit->0).size == size
            &&& after.shown == (if scene.overview_open && scene.blur.enable {
                after.blurred
            } else {
                after.sharp
            })
            &&& instant ==> after.transition is None && (rp.commit->0).frame == FrameSpec::Whole(
                after.shown->0,
            )
        }),
{
}

/// As long as nothing was ever on screen, a repaint for an image shows the fill
/// colour over the whole physical size, at once.
pub proof fn law_stand_in_is_the_fill_colour(
    e: EntrySpec,
    scene: Scene,
    dim: Seq<u8>,
    token: u64,
    instant: bool,
    now: u64,
)
    requires
        e.configured,
        e.physical() is Some,
        e.physical()->0.w > 0,
        e.physical()->0.h > 0,
        e.resolved.path is Some,
        e.painted is None,
    ensures
        ({
            let (after, rp) = repainted(e, scene, dim, token, instant, now);
            let solid = render::solid_pixels(e.resolved.color, e.physical()->0);
            &&& rp.commit == Some(
                CommitSpec {
                    id: e.id,
                    frame: FrameSpec::Whole(solid),
                    size: e.physical()->0,
                },
            )
            &&& after.shown == Some(solid)
            &&& after.transition is None
            &&& after.ready == e.ready
            &&& after.sharp == e.sharp && after.blurred == e.blurred
        }),
{
}

/// Repainting does not touch the output's identity, size, scale and wallpaper,
/// nor what it is known to have on screen and its status.
pub proof fn law_repainting_keeps_the_rest(
    e: EntrySpec,
    scene: Scene,
    dim: Seq<u8>,
    token: u64,
    instant: bool,
    now: u64,
)
    ensures
        ({
            let after = repainted(e, scene, dim, token, instant, now).0;
            &&& after.id == e.id && after.name == e.name && after.resolved == e.resolved
            &&& after.scale_120 == e.scale_120 && after.fractional == e.fractional
            &&& after.logical == e.logical && after.configured == e.configured
            &&& after.status == e.status && after.painted == e.painted
            &&& after.frame_pending == e.frame_pending
            &&& e.resolved.path is Some ==> after.sharp == e.sharp && after.blurred == e.blurred
                && after.buffers_size == e.buffers_size && after.ready == e.ready
        }),
{
}

/// What a frame draws: a whole picture its own bytes; a crossfade bytes that are
/// the first picture at its start, the second from its end on, and in between
/// the weighted mean, rounded to nearest.
pub proof fn law_what_a_frame_draws(from: Seq<u8>, to: Seq<u8>, t: u32, i: int)
    requires
        from.len() == to.len(),
        0 <= i < from.len(),
    ensures
        drawn_len(FrameSpec::Whole(from)) == from.len(),
        drawn(FrameSpec::Whole(from), i) == from[i],
        drawn_len(FrameSpec::Fade { from, to, t }) == from.len(),
        ({
            let b = drawn(FrameSpec::Fade { from, to, t }, i);
            let e: int = if t <= 0x100_0000 {
                t as int
            } else {
                0x100_0000
            };
            let exact = from[i] * (0x100_0000 - e) + to[i] * e;
            &&& b * 0x100_0000 - 0x80_0000 <= exact < b * 0x100_0000 + 0x80_0000
            &&& t == 0 ==> b == from[i]
            &&& t >= 0x100_0000 ==> b == to[i]
        }),
        settles(FrameSpec::Fade { from, to, t }) <==> t >= 0x100_0000,
        !settles(FrameSpec::Whole(from)),
{
    render::law_blend_is_linear(from, to, t, i);
    render::law_blend_ends(from, to);
    assert(render::blended(from, to, 0)[i] == from[i]);
    assert(render::blended(from, to, ONE as nat)[i] == to[i]);
}

/// A frame callback draws exactly what is on screen at that time, and takes the
/// callback off the list; nothing else about the output changes but the end of
/// the crossfade.
pub proof fn law_callbacks_draw_what_is_on_screen(e: EntrySpec, now: u64, i: int)
    requires
        e.wf(),
        e.transition is Some,
        0 <= i < e.transition->0.to.len(),
    ensures
        ({
            let (after, commit) = advanced(e, now);
            &&& commit is Some
            &&& (commit->0).id == e.id
            &&& (commit->0).size == e.transition->0.size
            &&& drawn((commit->0).frame, i) == e.on_screen(now)[i]
            &&& after.on_screen(now) == e.on_screen(now)
            &&& !after.frame_pending
            &&& after.shown == e.shown && after.showing == e.showing
            &&& after.id == e.id && after.name == e.name && after.resolved == e.resolved
            &&& after.status == e.status && after.painted == e.painted && after.ready == e.ready
            &&& after.sharp == e.sharp && after.blurred == e.blurred
            &&& after.generation == e.generation && after.logical == e.logical
        }),
{
    let f = e.transition->0;
    crate::daemon::anim::law_eased_is_monotonic(f.anim, now, now);
    if f.anim.progress_at(now) == ONE {
        if f.anim.duration > 0 {
            crate::daemon::anim::law_progress_is_linear(f.anim, now);
        }
        law_crossfade_reaches_its_target(e, now);
        render::law_blend_ends(f.from, f.to);
        assert(render::blended(f.from, f.to, ONE as nat)[i] == f.to[i]);
    }
}

/// A frame is attached with the size of its buffer, four bytes a pixel, and the
/// logical size of the surface. A fractionally scaled surface is mapped by a
/// viewport and has a buffer scale of one; others have their whole scale. The
/// geometry is sent again exactly if the size on screen was another one.
pub proof fn law_how_a_frame_is_attached(e: EntrySpec, size: Size, lw: u32, lh: u32)
    requires
        e.wf(),
        e.logical == Some((lw, lh)),
        size.showable(),
    ensures
        planned(e, size) is Some,
        ({
            let p = planned(e, size)->0;
            &&& p.width == size.w && p.height == size.h && p.stride == 4 * size.w
            &&& p.logical_width == lw && p.logical_height == lh
            &&& p.use_viewport == e.fractional
            &&& e.fractional ==> p.buffer_scale == 1
            &&& !e.fractional && e.scale_120 < 240 ==> p.buffer_scale == 1
            &&& !e.fractional && e.scale_120 >= 120 ==> p.buffer_scale * 120 <= e.scale_120
                < p.buffer_scale * 120 + 120
            &&& p.geometry_changed <==> (e.painted is None || e.painted->0.w != size.w
                || e.painted->0.h != size.h)
        }),
        planned(EntrySpec { logical: None, ..e }, size) is None,
{
}

/// When a frame went on screen its size is what is painted, and the output
/// counts as painted if its buffers are of its current wallpaper; otherwise its
/// status stays. A callback is asked for exactly while a crossfade goes on that
/// this frame does not settle and no callback is outstanding.
pub proof fn law_what_a_commit_notes(e: EntrySpec, size: Size, settled: bool)
    ensures
        ({
            let (after, want) = committed(e, size, settled);
            &&& after.painted == Some(size)
            &&& after.status == (if e.ready {
                StatusSpec::Painted
            } else {
                e.status
            })
            &&& want <==> e.transition is Some && !e.frame_pending && !settled
            &&& after.frame_pending <==> e.frame_pending || want
            &&& after.id == e.id && after.name == e.name && after.resolved == e.resolved
            &&& after.transition == e.transition && after.shown == e.shown
            &&& after.sharp == e.sharp && after.blurred == e.blurred && after.ready == e.ready
            &&& after.generation == e.generation && after.logical == e.logical
            &&& after.scale_120 == e.scale_120 && after.showing == e.showing
        }),
{
}

/// A surface can be painted exactly if its logical size can be told to a
/// compositor and a buffer of its physical size can be handed to one.
pub proof fn law_which_outputs_can_be_painted(
    logical: (u32, u32),
    scale_120: u32,
    fractional: bool,
)
    ensures
        ({
            let w = physical_side(logical.0, scale_120, fractional);
            let h = physical_side(logical.1, scale_120, fractional);
            paintable(logical, scale_120, fractional) <==> {
                &&& logical.0 <= 2_147_483_647
                &&& logical.1 <= 2_147_483_647
                &&& w * 4 <= 2_147_483_647
                &&& h <= 2_147_483_647
                &&& w * h * 4 <= isize::MAX
            }
        }),
{
}

} // verus!
