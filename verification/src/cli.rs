//! The command line: what was asked for, the request it becomes, and the status
//! table that is printed.

use vstd::prelude::*;

use crate::color;
use crate::color::{Color, ParseColorError};
use crate::config;
use crate::config::{Mode, ParseModeError};
use crate::proto;
use crate::proto::{OutputStatus, Request, Source, Status};
use crate::text;
use crate::text::{push_decimal, push_padded};

verus! {

/// The parsed command line.
#[derive(Debug, PartialEq, Eq)]
pub struct Cli {
    /// Path to the configuration file, if not the usual one.
    pub config: Option<String>,
    /// Control socket path, if not the usual one.
    pub socket: Option<String>,
    /// How often more logging was asked for.
    pub verbose: u8,
    /// Only log warnings and errors.
    pub quiet: bool,
    pub command: Command,
}

/// A subcommand.
#[derive(Debug, PartialEq, Eq)]
pub enum Command {
    /// Run the long-lived wallpaper daemon.
    Daemon {
        /// Take over from an already running daemon.
        replace: bool,
    },
    /// Set a wallpaper image, a colour, or both, on one output or the default
    /// slot.
    SetWallpaper {
        /// Absolute path of the image. None: the image stays that is configured,
        /// and without one the colour fills the output.
        path: Option<String>,
        /// Output connector name.
        output: Option<String>,
        /// Fit mode, as written.
        mode: Option<String>,
        /// Fill or letterbox colour, as written.
        color: Option<String>,
        /// Swap instantly instead of crossfading.
        no_fade: bool,
        /// Do not remember this change.
        no_persist: bool,
    },
    /// Print daemon and per-output status.
    Get {
        /// As JSON instead of a table.
        json: bool,
    },
    /// Re-read the configuration file and re-apply.
    Reload,
    /// Clear the remembered overrides and revert to the configuration file.
    Reset,
    /// Ask the daemon to exit cleanly.
    Quit,
}

/// An argument that could not be read.
#[derive(Debug, PartialEq, Eq)]
pub enum ArgError {
    Mode(ParseModeError),
    Color(ParseColorError),
}

// ------------------------------------------------------------------- model

/// The log level that the flags ask for.
pub open spec fn level_name(verbose: u8, quiet: bool) -> Seq<char> {
    if quiet {
        "warn"@
    } else if verbose == 0 {
        "info"@
    } else if verbose == 1 {
        "debug"@
    } else {
        "trace"@
    }
}

/// An optional mode, as written.
pub open spec fn mode_arg(s: Option<Seq<char>>) -> Result<Option<Mode>, ()> {
    match s {
        None => Ok(None),
        Some(t) => match config::named_mode(t) {
            Some(m) => Ok(Some(m)),
            None => Err(()),
        },
    }
}

/// An optional colour, as written.
pub open spec fn color_arg(s: Option<Seq<char>>) -> Result<Option<Color>, ParseColorError> {
    match s {
        None => Ok(None),
        Some(t) => match color::parsed(vstd::utf8::encode_utf8(t)) {
            Ok(c) => Ok(Some(c)),
            Err(e) => Err(e),
        },
    }
}

/// The geometry column: logical size and scale, or a dash.
pub open spec fn geometry_text(row: proto::RowSpec, scale: Seq<char>) -> Seq<char> {
    match row.logical {
        None => "-"@,
        Some(l) => text::decimal(l.width as nat) + "x"@ + text::decimal(l.height as nat) + " @"@
            + scale,
    }
}

/// The source column: the image's path, or the colour.
pub open spec fn source_text(row: proto::RowSpec) -> Seq<char> {
    match row.source {
        proto::SourceSpec::Image { path } => path,
        proto::SourceSpec::Color => "(colour "@ + color::shown(row.color) + ")"@,
    }
}

/// What follows the source: an error, or that nothing is on screen yet.
pub open spec fn progress_text(row: proto::RowSpec) -> Seq<char> {
    match row.error {
        Some(e) => "  ERROR: "@ + e,
        None => if row.loaded {
            ""@
        } else {
            "  (pending)"@
        },
    }
}

/// One line of the status table.
pub open spec fn row_text(row: proto::RowSpec, scale: Seq<char>) -> Seq<char> {
    text::padded(row.name, 10) + " "@ + text::padded(geometry_text(row, scale), 18) + " "@
        + config::mode_name(row.mode) + " "@ + source_text(row) + (if row.overridden {
        "  [override]"@
    } else {
        ""@
    }) + progress_text(row) + "\n"@
}

/// The first `n` lines of the status table.
pub open spec fn rows_text(rows: Seq<proto::RowSpec>, scales: Seq<Seq<char>>, n: nat) -> Seq<char>
    decreases n,
{
    if n == 0 {
        Seq::empty()
    } else {
        rows_text(rows, scales, (n - 1) as nat) + row_text(rows[n - 1], scales[n - 1])
    }
}

/// What is said about blur.
pub open spec fn blur_text(blur: proto::BlurStatus, dim: Seq<char>) -> Seq<char> {
    if blur.enable {
        "blur:       enabled (radius "@ + text::decimal(blur.radius as nat) + ", dim "@ + dim
            + ") \u{2014} currently "@ + (if blur.active {
            "ON"@
        } else {
            "off"@
        }) + "\n"@
    } else {
        "blur:       disabled\n"@
    }
}

/// The status as a table.
pub open spec fn table(s: proto::StatusSpec, dim: Seq<char>, scales: Seq<Seq<char>>) -> Seq<char> {
    "daemon:     running (pid "@ + text::decimal(s.pid as nat) + ")\n"@ + (if s.niri_connected {
        "niri:       connected\n"@
    } else {
        "niri:       disconnected\n"@
    }) + blur_text(s.blur, dim) + "transition: "@ + text::decimal(s.transition_ms as nat)
        + "ms\n\n"@ + rows_text(s.outputs, scales, s.outputs.len())
}

// -------------------------------------------------------------------- code

/// The log level that the flags ask for.
pub fn log_level(verbose: u8, quiet: bool) -> (r: &'static str)
    ensures
        r@ == level_name(verbose, quiet),
{
    if quiet {
        "warn"
    } else if verbose == 0 {
        "info"
    } else if verbose == 1 {
        "debug"
    } else {
        "trace"
    }
}

/// The request that a subcommand sends. The daemon itself is no request.
pub fn request_of(command: Command) -> (r: Result<Request, ArgError>)
    requires
        command !is Daemon,
    ensures
        match command {
            Command::SetWallpaper { path, output, mode, color, no_fade, no_persist } => match r {
                Ok(req) => {
                    &&& mode_arg(text::opt_view(mode)) is Ok
                    &&& color_arg(text::opt_view(color)) is Ok
                    &&& req == (Request::SetWallpaper {
                        path,
                        output,
                        mode: mode_arg(text::opt_view(mode))->Ok_0,
                        color: color_arg(text::opt_view(color))->Ok_0,
                        fade: !no_fade,
                        persist: !no_persist,
                    })
                },
                Err(ArgError::Mode(e)) => {
                    &&& mode_arg(text::opt_view(mode)) is Err
                    &&& Some(e.0@) == text::opt_view(mode)
                },
                Err(ArgError::Color(e)) => {
                    &&& mode_arg(text::opt_view(mode)) is Ok
                    &&& color_arg(text::opt_view(color)) == Err::<Option<Color>, ParseColorError>(e)
                },
            },
            Command::Get { .. } => r == Ok::<Request, ArgError>(Request::Get),
            Command::Reload => r == Ok::<Request, ArgError>(Request::Reload),
            Command::Reset => r == Ok::<Request, ArgError>(Request::Reset),
            _ => r == Ok::<Request, ArgError>(Request::Quit),
        },
{
    match command {
        Command::SetWallpaper { path, output, mode, color, no_fade, no_persist } => {
            let mode = match mode {
                None => None,
                Some(s) => match Mode::parse(s.as_str()) {
                    Ok(m) => Some(m),
                    Err(e) => return Err(ArgError::Mode(e)),
                },
            };
            let color = match color {
                None => None,
                Some(s) => match Color::parse(s.as_str()) {
                    Ok(c) => Some(c),
                    Err(e) => return Err(ArgError::Color(e)),
                },
            };
            Ok(
                Request::SetWallpaper {
                    path,
                    output,
                    mode,
                    color,
                    fade: !no_fade,
                    persist: !no_persist,
                },
            )
        },
        Command::Get { .. } => Ok(Request::Get),
        Command::Reload => Ok(Request::Reload),
        Command::Reset => Ok(Request::Reset),
        Command::Quit | Command::Daemon { .. } => Ok(Request::Quit),
    }
}

fn geometry(o: &OutputStatus, scale: &str) -> (r: String)
    ensures
        r@ == geometry_text(o@, scale@),
{
    match o.logical {
        None => "-".to_string(),
        Some(l) => {
            let mut out = String::new();
            push_decimal(&mut out, l.width as u64);
            assert(out@ =~= text::decimal(l.width as nat));
            out.push_str("x");
            push_decimal(&mut out, l.height as u64);
            out.push_str(" @");
            out.push_str(scale);
            out
        },
    }
}

fn source(o: &OutputStatus) -> (r: String)
    ensures
        r@ == source_text(o@),
{
    match &o.source {
        Source::Image { path } => path.clone(),
        Source::Color => {
            let mut out = "(colour ".to_string();
            out.push_str(o.color.to_string().as_str());
            out.push_str(")");
            out
        },
    }
}

fn progress(o: &OutputStatus) -> (r: String)
    ensures
        r@ == progress_text(o@),
{
    match &o.error {
        Some(e) => {
            let mut out = "  ERROR: ".to_string();
            out.push_str(e.as_str());
            out
        },
        None => {
            if o.loaded {
                "".to_string()
            } else {
                "  (pending)".to_string()
            }
        },
    }
}

fn row_line(o: &OutputStatus, scale: &str) -> (r: String)
    ensures
        r@ == row_text(o@, scale@),
{
    let mut out = String::new();
    push_padded(&mut out, o.name.as_str(), 10);
    assert(out@ =~= text::padded(o.name@, 10));
    out.push_str(" ");
    push_padded(&mut out, geometry(o, scale).as_str(), 18);
    out.push_str(" ");
    out.push_str(o.mode.to_string().as_str());
    out.push_str(" ");
    out.push_str(source(o).as_str());
    if o.overridden {
        out.push_str("  [override]");
    } else {
        out.push_str("");
    }
    out.push_str(progress(o).as_str());
    out.push_str("\n");
    out
}

/// The status as a table. The texts of the dim setting and of each output's
/// scale are the caller's: they are floating-point numbers.
pub fn status_text(s: &Status, dim: &str, scales: &Vec<String>) -> (r: String)
    requires
        scales@.len() == s.outputs@.len(),
    ensures
        r@ == table(s@, dim@, crate::slots::views(scales@)),
{
    let mut out = "daemon:     running (pid ".to_string();
    push_decimal(&mut out, s.pid as u64);
    out.push_str(")\n");
    if s.niri_connected {
        out.push_str("niri:       connected\n");
    } else {
        out.push_str("niri:       disconnected\n");
    }
    let ghost before = out@;
    if s.blur.enable {
        out.push_str("blur:       enabled (radius ");
        push_decimal(&mut out, s.blur.radius as u64);
        out.push_str(", dim ");
        out.push_str(dim);
        out.push_str(") \u{2014} currently ");
        if s.blur.active {
            out.push_str("ON");
        } else {
            out.push_str("off");
        }
        out.push_str("\n");
    } else {
        out.push_str("blur:       disabled\n");
    }
    assert(out@ =~= before + blur_text(s.blur, dim@));
    out.push_str("transition: ");
    push_decimal(&mut out, s.transition_ms as u64);
    out.push_str("ms\n\n");
    let ghost head = out@;
    let ghost rows = proto::rows(s.outputs@);
    let ghost views = crate::slots::views(scales@);
    assert(head + Seq::<char>::empty() =~= head);
    let mut i: usize = 0;
    while i < s.outputs.len()
        invariant
            i <= s.outputs@.len(),
            scales@.len() == s.outputs@.len(),
            rows == proto::rows(s.outputs@),
            views == crate::slots::views(scales@),
            out@ == head + rows_text(rows, views, i as nat),
        decreases s.outputs@.len() - i,
    {
        out.push_str(row_line(&s.outputs[i], scales[i].as_str()).as_str());
        assert(rows[i as int] == s.outputs@[i as int]@);
        assert(views[i as int] == scales@[i as int]@);
        assert(out@ =~= head + (rows_text(rows, views, i as nat) + row_text(
            rows[i as int],
            views[i as int],
        )));
        i += 1;
    }
    out
}

// -------------------------------------------------------------------- laws

/// Quiet wins over any number of requests for more, and every request for more
/// gives a more detailed level until there is none.
pub proof fn law_levels(verbose: u8)
    ensures
        level_name(verbose, true) == "warn"@,
        level_name(0, false) == "info"@,
        level_name(1, false) == "debug"@,
        verbose >= 2 ==> level_name(verbose, false) == "trace"@,
{
}

/// An argument that is not given asks for nothing; one that is given has to be
/// readable, and asks for what it says.
pub proof fn law_arguments_ask_for_what_they_say(s: Seq<char>)
    ensures
        mode_arg(None) == Ok::<Option<Mode>, ()>(None),
        mode_arg(Some(s)) is Ok <==> config::named_mode(s) is Some,
        config::named_mode(s) matches Some(m) ==> mode_arg(Some(s)) == Ok::<Option<Mode>, ()>(
            Some(m),
        ),
        color_arg(None) == Ok::<Option<Color>, ParseColorError>(None),
        color_arg(Some(s)) is Ok <==> color::parsed(vstd::utf8::encode_utf8(s)) is Ok,
        color::parsed(vstd::utf8::encode_utf8(s)) matches Ok(c) ==> color_arg(Some(s)) == Ok::<
            Option<Color>,
            ParseColorError,
        >(Some(c)),
{
}

/// A mode that is printed can be given again.
pub proof fn law_printed_modes_can_be_given(m: Mode)
    ensures
        mode_arg(Some(config::mode_name(m))) == Ok::<Option<Mode>, ()>(Some(m)),
{
    config::law_modes_are_told_apart(m, m, config::mode_name(m));
}

/// A line of the table starts with the output's name and ends the line; between
/// them stand, in this order, its geometry, the name of its mode and its source.
pub proof fn law_row_shows_its_columns(row: proto::RowSpec, scale: Seq<char>) -> (parts: (
    Seq<char>,
    Seq<char>,
    Seq<char>,
))
    ensures
        row_text(row, scale) == row.name + parts.0 + geometry_text(row, scale) + parts.1
            + config::mode_name(row.mode) + " "@ + source_text(row) + parts.2 + "\n"@,
        forall|i: int| 0 <= i < parts.0.len() ==> parts.0[i] == ' ',
        forall|i: int| 0 <= i < parts.1.len() ==> parts.1[i] == ' ',
        parts.0.len() > 0 && parts.1.len() > 0,
        parts.2 == (if row.overridden {
            "  [override]"@
        } else {
            Seq::empty()
        }) + (match row.error {
            Some(e) => "  ERROR: "@ + e,
            None => if row.loaded {
                Seq::empty()
            } else {
                "  (pending)"@
            },
        }),
{
    reveal_strlit("");
    reveal_strlit(" ");
    assert(""@ =~= Seq::empty());
    text::law_padding_only_adds_spaces(row.name, 10);
    text::law_padding_only_adds_spaces(geometry_text(row, scale), 18);
    let g = geometry_text(row, scale);
    let p = text::padded(row.name, 10);
    let q = text::padded(g, 18);
    let a = p.skip(row.name.len() as int) + " "@;
    let b = q.skip(g.len() as int) + " "@;
    assert(p =~= row.name + p.skip(row.name.len() as int));
    assert(q =~= g + q.skip(g.len() as int));
    let c = (if row.overridden {
        "  [override]"@
    } else {
        Seq::empty()
    }) + progress_text(row);
    assert(row_text(row, scale) =~= row.name + a + g + b + config::mode_name(row.mode) + " "@
        + source_text(row) + c + "\n"@);
    (a, b, c)
}

/// The geometry column tells the logical size and the scale, and a dash where
/// there is none; the source column the path of the image, or the colour.
pub proof fn law_columns_tell_the_output(row: proto::RowSpec, scale: Seq<char>)
    ensures
        row.logical is None ==> geometry_text(row, scale) == "-"@,
        row.logical matches Some(l) ==> geometry_text(row, scale) == text::decimal(l.width as nat)
            + "x"@ + text::decimal(l.height as nat) + " @"@ + scale,
        row.source matches proto::SourceSpec::Image { path } ==> source_text(row) == path,
        row.source is Color ==> source_text(row) == "(colour "@ + color::shown(row.color) + ")"@,
{
}

proof fn lemma_rows_hold(
    rows: Seq<proto::RowSpec>,
    scales: Seq<Seq<char>>,
    n: nat,
    i: int,
) -> (parts: (Seq<char>, Seq<char>))
    requires
        0 <= i < n,
    ensures
        rows_text(rows, scales, n) == parts.0 + row_text(rows[i], scales[i]) + parts.1,
        parts.0 == rows_text(rows, scales, i as nat),
    decreases n,
{
    if i == n - 1 {
        let parts = (rows_text(rows, scales, i as nat), Seq::<char>::empty());
        assert(rows_text(rows, scales, n) =~= parts.0 + row_text(rows[i], scales[i]) + parts.1);
        parts
    } else {
        let (a, b) = lemma_rows_hold(rows, scales, (n - 1) as nat, i);
        let c = b + row_text(rows[n - 1], scales[n - 1]);
        assert(rows_text(rows, scales, n) =~= a + row_text(rows[i], scales[i]) + c);
        (a, c)
    }
}

/// The table has the line of every output, after those of the outputs before it.
pub proof fn law_table_has_every_row(
    s: proto::StatusSpec,
    dim: Seq<char>,
    scales: Seq<Seq<char>>,
    i: int,
) -> (parts: (Seq<char>, Seq<char>))
    requires
        0 <= i < s.outputs.len(),
    ensures
        table(s, dim, scales) == parts.0 + rows_text(s.outputs, scales, i as nat) + row_text(
            s.outputs[i],
            scales[i],
        ) + parts.1,
{
    let n = s.outputs.len();
    let rows = rows_text(s.outputs, scales, n);
    let all = table(s, dim, scales);
    let head = all.take(all.len() - rows.len());
    assert(all.skip(all.len() - rows.len()) =~= rows);
    assert(all =~= head + rows);
    let (a, b) = lemma_rows_hold(s.outputs, scales, n, i);
    assert(all =~= head + a + row_text(s.outputs[i], scales[i]) + b);
    (head, b)
}

/// What the table says before the rows: the process, whether niri is connected,
/// blur and the transition time.
pub proof fn law_table_tells_the_daemon(
    s: proto::StatusSpec,
    dim: Seq<char>,
    scales: Seq<Seq<char>>,
)
    ensures
        ({
            let niri = if s.niri_connected {
                "niri:       connected\n"@
            } else {
                "niri:       disconnected\n"@
            };
            let blur = if !s.blur.enable {
                "blur:       disabled\n"@
            } else {
                "blur:       enabled (radius "@ + text::decimal(s.blur.radius as nat) + ", dim "@
                    + dim + ") \u{2014} currently "@ + (if s.blur.active {
                    "ON"@
                } else {
                    "off"@
                }) + "\n"@
            };
            ("daemon:     running (pid "@ + text::decimal(s.pid as nat) + ")\n"@ + niri + blur
                + "transition: "@ + text::decimal(s.transition_ms as nat)
                + "ms\n\n"@).is_prefix_of(table(s, dim, scales))
        }),
{
    let rows = rows_text(s.outputs, scales, s.outputs.len());
    let all = table(s, dim, scales);
    let niri = if s.niri_connected {
        "niri:       connected\n"@
    } else {
        "niri:       disconnected\n"@
    };
    let head = "daemon:     running (pid "@ + text::decimal(s.pid as nat) + ")\n"@ + niri
        + blur_text(s.blur, dim) + "transition: "@ + text::decimal(s.transition_ms as nat)
        + "ms\n\n"@;
    assert(all =~= head + rows);
    assert(all.take(head.len() as int) =~= head);
}

} // verus!
