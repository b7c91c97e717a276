//! What travels over the control socket: one request, one reply.
//!
//! The client and the daemon ship in the same binary, so the only concern
//! across versions is a stale client meeting a newer daemon in a mixed install:
//! [`Request::Version`] exists to surface that loudly.

use vstd::prelude::*;

use crate::color::Color;
use crate::config::Mode;
use crate::text;

verus! {

/// A single command from a client to the daemon.
#[derive(Debug, PartialEq, Eq)]
pub enum Request {
    /// Set a wallpaper, or a solid colour, on one output or the default slot.
    /// An absent `path` with a `color` means a colour-only wallpaper.
    SetWallpaper {
        path: Option<String>,
        /// Output connector name, or `None` for the default slot (every output
        /// without its own override).
        output: Option<String>,
        mode: Option<Mode>,
        color: Option<Color>,
        /// Crossfade to the new wallpaper.
        fade: bool,
        /// Remember the change across a daemon restart.
        persist: bool,
    },
    /// Report daemon and per-output status.
    Get,
    /// Re-read `config.toml` from disk and re-apply.
    Reload,
    /// Clear the remembered overrides and revert to `config.toml`.
    Reset,
    /// Ask the daemon to exit cleanly.
    Quit,
    /// Return the daemon's build version.
    Version,
}

/// Success with or without a payload, or failure with a message.
#[derive(Debug, PartialEq, Eq)]
pub struct WireReply {
    pub ok: bool,
    pub data: Option<ReplyData>,
    pub error: Option<String>,
}

/// The payload of a successful reply.
#[derive(Debug, PartialEq, Eq)]
pub enum ReplyData {
    /// To [`Request::Version`].
    Version(VersionInfo),
    /// To [`Request::Get`].
    Status(Status),
    /// To a [`Request::SetWallpaper`] that was stored but shows nowhere yet.
    Note(String),
    /// To [`Request::Reload`] and [`Request::Reset`]: how many outputs changed.
    Changed(u64),
}

/// Reply payload for [`Request::Version`].
#[derive(Debug, PartialEq, Eq)]
pub struct VersionInfo {
    pub version: String,
}

/// Reply payload for [`Request::Get`].
#[derive(Debug, PartialEq, Eq)]
pub struct Status {
    pub pid: u32,
    pub niri_connected: bool,
    pub blur: BlurStatus,
    pub transition_ms: u32,
    pub outputs: Vec<OutputStatus>,
}

#[derive(Debug, Clone, Copy, PartialEq, Eq, Structural)]
pub struct BlurStatus {
    pub enable: bool,
    pub radius: u32,
    /// The bits of an IEEE 754 double.
    pub dim_bits: u64,
    /// Live: is the overview open right now.
    pub active: bool,
}

#[derive(Debug, PartialEq, Eq)]
pub struct OutputStatus {
    pub name: String,
    pub logical: Option<LogicalOutput>,
    pub source: Source,
    pub mode: Mode,
    pub color: Color,
    /// Whether this output has its own `[output."NAME"]` override.
    pub overridden: bool,
    /// Whether the current source is decoded and on screen.
    pub loaded: bool,
    pub error: Option<String>,
}

#[derive(Debug, Clone, Copy, PartialEq, Eq, Structural)]
pub struct LogicalOutput {
    pub width: u32,
    pub height: u32,
    /// The scale factor in 120ths.
    pub scale_120: u32,
}

#[derive(Debug, PartialEq, Eq)]
pub enum Source {
    Image { path: String },
    Color,
}

// ------------------------------------------------------------------- model

/// [`Source`] over character sequences.
pub ghost enum SourceSpec {
    Image { path: Seq<char> },
    Color,
}

/// [`OutputStatus`] over character sequences.
pub ghost struct RowSpec {
    pub name: Seq<char>,
    pub logical: Option<LogicalOutput>,
    pub source: SourceSpec,
    pub mode: Mode,
    pub color: Color,
    pub overridden: bool,
    pub loaded: bool,
    pub error: Option<Seq<char>>,
}

/// [`Status`] over sequences.
pub ghost struct StatusSpec {
    pub pid: u32,
    pub niri_connected: bool,
    pub blur: BlurStatus,
    pub transition_ms: u32,
    pub outputs: Seq<RowSpec>,
}

/// [`ReplyData`] over sequences.
pub ghost enum DataSpec {
    Version(Seq<char>),
    Status(StatusSpec),
    Note(Seq<char>),
    Changed(u64),
}

/// [`WireReply`] over sequences.
pub ghost struct ReplySpec {
    pub ok: bool,
    pub data: Option<DataSpec>,
    pub error: Option<Seq<char>>,
}

impl View for Source {
    type V = SourceSpec;

    open spec fn view(&self) -> SourceSpec {
        match *self {
            Source::Image { path } => SourceSpec::Image { path: path@ },
            Source::Color => SourceSpec::Color,
        }
    }
}

impl View for OutputStatus {
    type V = RowSpec;

    open spec fn view(&self) -> RowSpec {
        RowSpec {
            name: self.name@,
            logical: self.logical,
            source: self.source@,
            mode: self.mode,
            color: self.color,
            overridden: self.overridden,
            loaded: self.loaded,
            error: text::opt_view(self.error),
        }
    }
}

/// The rows of a status table.
pub open spec fn rows(v: Seq<OutputStatus>) -> Seq<RowSpec> {
    v.map_values(|r: OutputStatus| r@)
}

impl View for Status {
    type V = StatusSpec;

    open spec fn view(&self) -> StatusSpec {
        StatusSpec {
            pid: self.pid,
            niri_connected: self.niri_connected,
            blur: self.blur,
            transition_ms: self.transition_ms,
            outputs: rows(self.outputs@),
        }
    }
}

impl View for ReplyData {
    type V = DataSpec;

    open spec fn view(&self) -> DataSpec {
        match *self {
            ReplyData::Version(v) => DataSpec::Version(v.version@),
            ReplyData::Status(s) => DataSpec::Status(s@),
            ReplyData::Note(n) => DataSpec::Note(n@),
            ReplyData::Changed(n) => DataSpec::Changed(n),
        }
    }
}

impl View for WireReply {
    type V = ReplySpec;

    open spec fn view(&self) -> ReplySpec {
        ReplySpec {
            ok: self.ok,
            data: match self.data {
                Some(d) => Some(d@),
                None => None,
            },
            error: text::opt_view(self.error),
        }
    }
}

/// Success with a payload.
pub open spec fn succeeded(data: DataSpec) -> ReplySpec {
    ReplySpec { ok: true, data: Some(data), error: None }
}

/// Success, with nothing to say.
pub open spec fn acknowledged() -> ReplySpec {
    ReplySpec { ok: true, data: None, error: None }
}

/// Failure with a message.
pub open spec fn refused(message: Seq<char>) -> ReplySpec {
    ReplySpec { ok: false, data: None, error: Some(message) }
}

/// Where the pixels of a wallpaper with this image path come from.
pub open spec fn source_of(path: Option<Seq<char>>) -> SourceSpec {
    match path {
        Some(p) => SourceSpec::Image { path: p },
        None => SourceSpec::Color,
    }
}

// -------------------------------------------------------------------- code

impl WireReply {
    /// Success with a payload.
    #[must_use]
    pub fn ok(data: ReplyData) -> (r: WireReply)
        ensures
            r@ == succeeded(data@),
            r.ok && r.data == Some(data) && r.error is None,
    {
        WireReply { ok: true, data: Some(data), error: None }
    }

    /// Success, with nothing to say.
    #[must_use]
    pub fn ok_empty() -> (r: WireReply)
        ensures
            r@ == acknowledged(),
            r.ok && r.data is None && r.error is None,
    {
        WireReply { ok: true, data: None, error: None }
    }

    /// Failure with a message.
    #[must_use]
    pub fn err(msg: String) -> (r: WireReply)
        ensures
            r@ == refused(msg@),
            !r.ok && r.data is None && r.error == Some(msg),
    {
        WireReply { ok: false, data: None, error: Some(msg) }
    }
}

impl Source {
    /// Where the pixels of a wallpaper with this image path come from.
    pub fn of(path: &Option<String>) -> (r: Source)
        ensures
            r@ == source_of(text::opt_view(*path)),
    {
        match path {
            Some(p) => Source::Image { path: p.clone() },
            None => Source::Color,
        }
    }
}

// -------------------------------------------------------------------- laws

/// A reply is a success or a failure, never both: a success has no error text,
/// and a failure has one and no payload.
pub proof fn law_replies_are_one_or_the_other(data: DataSpec, message: Seq<char>)
    ensures
        succeeded(data).ok && succeeded(data).data == Some(data) && succeeded(data).error is None,
        acknowledged().ok && acknowledged().data is None && acknowledged().error is None,
        !refused(message).ok && refused(message).data is None && refused(message).error == Some(
            message,
        ),
{
}

/// A wallpaper with an image is reported by the path of that, and one without by
/// its colour.
pub proof fn law_source_tells_the_image(path: Seq<char>)
    ensures
        source_of(Some(path)) == (SourceSpec::Image { path }),
        source_of(None) is Color,
{
}

} // verus!
