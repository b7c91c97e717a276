//! `config.toml`: settings, defaults, and per-output resolution.
//!
//! Precedence, merged key by key: built-in defaults, then `[output.default]`,
//! then `[output."NAME"]`. Blur and transition settings are global only.

use std::str::FromStr;

use vstd::prelude::*;

use crate::color::Color;
use crate::paths;
use crate::paths::{BaseDir, Env, PathError};
use crate::slots;
use crate::slots::OutputMap;
use crate::text;
use crate::text::{quote, str_eq};

verus! {

/// The name of the fallback output slot, `[output.default]`.
pub const DEFAULT_SLOT: &'static str = "default";

/// The largest `dim` that is accepted, 0.5, as the bits of a double.
pub const MAX_DIM_BITS: u64 = 0x3FE0_0000_0000_0000;

/// Negative zero as the bits of a double.
pub const NEGATIVE_ZERO_BITS: u64 = 0x8000_0000_0000_0000;

/// The default `dim`, 0.15, as the bits of a double.
pub const DEFAULT_DIM_BITS: u64 = 0x3FC3_3333_3333_3333;

/// How an image is placed when its aspect ratio differs from the output's.
#[derive(Debug, Clone, Copy, PartialEq, Eq, Structural)]
pub enum Mode {
    /// Cover the output, cropping the overflow. The default.
    Fill,
    /// Fit the whole image, letterboxing with the fill colour.
    Fit,
    /// Distort the image to the output's exact aspect ratio.
    Stretch,
    /// Original size, centred, the fill colour around it.
    Center,
}

/// An unrecognised mode name.
#[derive(Debug, PartialEq, Eq)]
pub struct ParseModeError(pub String);

/// The whole configuration.
#[derive(Debug, PartialEq)]
pub struct Config {
    /// Crossfade duration in milliseconds; `0` means an instant swap.
    pub transition_ms: u32,
    pub blur: BlurConfig,
    /// Keyed by output connector name, plus [`DEFAULT_SLOT`].
    pub output: OutputMap,
}

/// The overview backdrop.
#[derive(Debug, Clone, Copy, PartialEq, Eq, Structural)]
pub struct BlurConfig {
    /// When `false`, overview events are received but change nothing on screen.
    pub enable: bool,
    /// Blur radius in physical pixels, applied at the downscaled resolution.
    pub radius: u32,
    /// How much to darken the blurred buffer, `0.0..=0.5`, as the bits of an
    /// IEEE 754 double.
    pub dim_bits: u64,
}

/// One `[output.*]` table. Every field is optional, so that tables layer.
#[derive(Debug, PartialEq)]
pub struct OutputConfig {
    /// Image path, `~` and `${VAR}` not yet expanded. Absent: colour only.
    pub path: Option<String>,
    pub mode: Option<Mode>,
    pub color: Option<Color>,
}

/// A wallpaper for one output, with nothing left open, the path expanded and
/// absolute.
#[derive(Debug, PartialEq)]
pub struct Resolved {
    pub path: Option<String>,
    pub mode: Mode,
    pub color: Color,
}

/// A configured image path that could not be expanded.
#[derive(Debug, PartialEq, Eq)]
pub struct ResolveError {
    /// The path as configured.
    pub path: String,
    pub cause: PathError,
}

/// A setting outside its range.
#[derive(Debug, Clone, Copy, PartialEq, Eq, Structural)]
pub enum ConfigError {
    /// `blur.dim` is not between 0.0 and 0.5; its bits.
    DimOutOfRange { dim_bits: u64 },
}

/// Where the configuration comes from.
#[derive(Debug, PartialEq, Eq)]
pub enum ConfigSource {
    /// This file.
    File(String),
    /// There is no file: the defaults.
    Defaults,
}

// ------------------------------------------------------------------- model

/// [`OutputConfig`] over character sequences.
pub ghost struct OutputSpec {
    pub path: Option<Seq<char>>,
    pub mode: Option<Mode>,
    pub color: Option<Color>,
}

/// [`Resolved`] over character sequences.
pub ghost struct ResolvedSpec {
    pub path: Option<Seq<char>>,
    pub mode: Mode,
    pub color: Color,
}

/// [`Config`] over maps and character sequences.
pub ghost struct ConfigSpec {
    pub transition_ms: u32,
    pub blur: BlurConfig,
    pub output: Map<Seq<char>, OutputSpec>,
}

impl View for OutputConfig {
    type V = OutputSpec;

    open spec fn view(&self) -> OutputSpec {
        OutputSpec { path: text::opt_view(self.path), mode: self.mode, color: self.color }
    }
}

impl View for Resolved {
    type V = ResolvedSpec;

    open spec fn view(&self) -> ResolvedSpec {
        ResolvedSpec { path: text::opt_view(self.path), mode: self.mode, color: self.color }
    }
}

impl View for Config {
    type V = ConfigSpec;

    open spec fn view(&self) -> ConfigSpec {
        ConfigSpec {
            transition_ms: self.transition_ms,
            blur: self.blur,
            output: self.output@,
        }
    }
}

/// A table that sets nothing.
pub open spec fn unset() -> OutputSpec {
    OutputSpec { path: None, mode: None, color: None }
}

/// `over` if it is set, else `base`.
pub open spec fn either<T>(base: Option<T>, over: Option<T>) -> Option<T> {
    if over is Some {
        over
    } else {
        base
    }
}

/// `over` laid on top of `base`, its set fields winning.
pub open spec fn overlaid(base: OutputSpec, over: OutputSpec) -> OutputSpec {
    OutputSpec {
        path: either(base.path, over.path),
        mode: either(base.mode, over.mode),
        color: either(base.color, over.color),
    }
}

/// The name of a mode.
pub open spec fn mode_name(m: Mode) -> Seq<char> {
    match m {
        Mode::Fill => "fill"@,
        Mode::Fit => "fit"@,
        Mode::Stretch => "stretch"@,
        Mode::Center => "center"@,
    }
}

/// What is said about a name that is no mode's.
pub open spec fn mode_error_text(name: Seq<char>) -> Seq<char> {
    "unknown mode "@ + text::quoted(name) + " (expected fill, fit, stretch, or center)"@
}

/// The mode that a name denotes.
pub open spec fn named_mode(s: Seq<char>) -> Option<Mode> {
    if s == mode_name(Mode::Fill) {
        Some(Mode::Fill)
    } else if s == mode_name(Mode::Fit) {
        Some(Mode::Fit)
    } else if s == mode_name(Mode::Stretch) {
        Some(Mode::Stretch)
    } else if s == mode_name(Mode::Center) {
        Some(Mode::Center)
    } else {
        None
    }
}

/// Whether the double with these bits lies in `0.0..=0.5`: the doubles from
/// zero up to 0.5 have the bits from 0 up to those of 0.5, and negative zero
/// equals zero.
pub open spec fn dim_in_range(bits: u64) -> bool {
    bits <= MAX_DIM_BITS || bits == NEGATIVE_ZERO_BITS
}

/// What an output's tables set together, before the built-in defaults.
pub open spec fn layered(output: Map<Seq<char>, OutputSpec>, name: Seq<char>) -> OutputSpec {
    overlaid(
        slots::slot_or_unset(output, DEFAULT_SLOT@),
        slots::slot_or_unset(output, name),
    )
}

/// The wallpaper of the output `name`. A relative image path starts at `base`.
pub open spec fn resolution(
    output: Map<Seq<char>, OutputSpec>,
    name: Seq<char>,
    env: Map<Seq<char>, Seq<char>>,
    base: Seq<char>,
) -> Result<ResolvedSpec, (Seq<char>, paths::PathFault)> {
    let set = layered(output, name);
    let mode = match set.mode {
        Some(m) => m,
        None => Mode::Fill,
    };
    let color = match set.color {
        Some(c) => c,
        None => Color::black(),
    };
    match set.path {
        None => Ok(ResolvedSpec { path: None, mode, color }),
        Some(p) => match paths::expanded(p, env) {
            Ok(e) => Ok(
                ResolvedSpec { path: Some(paths::absolute_path(base, e)), mode, color },
            ),
            Err(f) => Err((p, f)),
        },
    }
}

// -------------------------------------------------------------------- code

impl Mode {
    /// The mode that `s` names.
    pub fn parse(s: &str) -> (r: Result<Mode, ParseModeError>)
        ensures
            match r {
                Ok(m) => named_mode(s@) == Some(m),
                Err(e) => named_mode(s@) is None && e.0@ == s@,
            },
    {
        if str_eq(s, "fill") {
            Ok(Mode::Fill)
        } else if str_eq(s, "fit") {
            Ok(Mode::Fit)
        } else if str_eq(s, "stretch") {
            Ok(Mode::Stretch)
        } else if str_eq(s, "center") {
            Ok(Mode::Center)
        } else {
            Err(ParseModeError(s.to_string()))
        }
    }

    /// The mode's name.
    pub fn to_string(&self) -> (r: String)
        ensures
            r@ == mode_name(*self),
    {
        match self {
            Mode::Fill => "fill".to_string(),
            Mode::Fit => "fit".to_string(),
            Mode::Stretch => "stretch".to_string(),
            Mode::Center => "center".to_string(),
        }
    }
}

impl ParseModeError {
    /// The message shown to the user.
    pub fn to_string(&self) -> (r: String)
        ensures
            r@ == mode_error_text(self.0@),
    {
        let mut m = "unknown mode ".to_string();
        m.push_str(quote(self.0.as_str()).as_str());
        m.push_str(" (expected fill, fit, stretch, or center)");
        m
    }
}

impl FromStr for Mode {
    type Err = ParseModeError;

    fn from_str(s: &str) -> (r: Result<Self, ParseModeError>)
        ensures
            match r {
                Ok(m) => named_mode(s@) == Some(m),
                Err(e) => named_mode(s@) is None && e.0@ == s@,
            },
    {
        Mode::parse(s)
    }
}

impl Default for Mode {
    fn default() -> (r: Self)
        ensures
            r == Mode::Fill,
    {
        Mode::Fill
    }
}

impl Default for BlurConfig {
    fn default() -> (r: Self)
        ensures
            r == (BlurConfig { enable: true, radius: 30, dim_bits: DEFAULT_DIM_BITS }),
    {
        BlurConfig { enable: true, radius: 30, dim_bits: DEFAULT_DIM_BITS }
    }
}

impl Default for Config {
    fn default() -> (r: Self)
        ensures
            r@ == (ConfigSpec {
                transition_ms: 250,
                blur: BlurConfig { enable: true, radius: 30, dim_bits: DEFAULT_DIM_BITS },
                output: Map::empty(),
            }),
    {
        Config { transition_ms: 250, blur: BlurConfig::default(), output: OutputMap::new() }
    }
}

impl Clone for Config {
    fn clone(&self) -> (r: Self)
        ensures
            r@ == self@,
    {
        Config {
            transition_ms: self.transition_ms,
            blur: self.blur,
            output: self.output.clone(),
        }
    }
}

impl OutputConfig {
    /// A table that sets nothing.
    pub fn unset() -> (r: OutputConfig)
        ensures
            r@ == unset(),
    {
        OutputConfig { path: None, mode: None, color: None }
    }

    /// `over` layered on top of `self`, its set fields winning.
    pub fn merged_with(&self, over: &OutputConfig) -> (r: OutputConfig)
        ensures
            r@ == overlaid(self@, over@),
    {
        OutputConfig {
            path: if over.path.is_some() {
                over.path.clone()
            } else {
                self.path.clone()
            },
            mode: if over.mode.is_some() {
                over.mode
            } else {
                self.mode
            },
            color: if over.color.is_some() {
                over.color
            } else {
                self.color
            },
        }
    }
}

impl Default for OutputConfig {
    fn default() -> (r: Self)
        ensures
            r@ == unset(),
    {
        OutputConfig::unset()
    }
}

impl Clone for OutputConfig {
    fn clone(&self) -> (r: Self)
        ensures
            r@ == self@,
    {
        OutputConfig { path: self.path.clone(), mode: self.mode, color: self.color }
    }
}

/// Fold the fields that one `set` provided into `into`, leaving the others
/// untouched, so that repeated `set`s on one slot accumulate.
pub fn merge_output_patch(into: &mut OutputConfig, patch: OutputConfig)
    ensures
        final(into)@ == overlaid(old(into)@, patch@),
{
    if patch.path.is_some() {
        into.path = patch.path;
    }
    if patch.mode.is_some() {
        into.mode = patch.mode;
    }
    if patch.color.is_some() {
        into.color = patch.color;
    }
}

impl Resolved {
    /// Whether two wallpapers are the same, paths being compared as paths.
    pub fn same(&self, other: &Resolved) -> (r: bool)
        ensures
            r == same_wallpaper(self@, other@),
    {
        paths::same_opt_path(&self.path, &other.path) && self.mode == other.mode && self.color
            == other.color
    }
}

/// Two wallpapers that show the same thing.
pub open spec fn same_wallpaper(a: ResolvedSpec, b: ResolvedSpec) -> bool {
    &&& paths::opt_path_key(a.path) == paths::opt_path_key(b.path)
    &&& a.mode == b.mode
    &&& a.color == b.color
}

impl Clone for Resolved {
    fn clone(&self) -> (r: Self)
        ensures
            r@ == self@,
    {
        Resolved { path: self.path.clone(), mode: self.mode, color: self.color }
    }
}

/// Where the configuration comes from, given whether there is a file at `path`.
/// A missing file is no error, not even if it was asked for by name.
pub fn config_source(path: String, present: bool) -> (r: ConfigSource)
    ensures
        r == if present {
            ConfigSource::File(path)
        } else {
            ConfigSource::Defaults
        },
{
    if present {
        ConfigSource::File(path)
    } else {
        ConfigSource::Defaults
    }
}

impl Config {
    /// Reject settings outside their range.
    pub fn validate(&self) -> (r: Result<(), ConfigError>)
        ensures
            r == if dim_in_range(self.blur.dim_bits) {
                Ok::<(), ConfigError>(())
            } else {
                Err(ConfigError::DimOutOfRange { dim_bits: self.blur.dim_bits })
            },
    {
        let bits = self.blur.dim_bits;
        if bits <= MAX_DIM_BITS || bits == NEGATIVE_ZERO_BITS {
            Ok(())
        } else {
            Err(ConfigError::DimOutOfRange { dim_bits: bits })
        }
    }

    /// The wallpaper of `output_name`: built-in defaults, then
    /// `[output.default]`, then `[output."NAME"]`, the path expanded and made
    /// absolute. The flag says whether there is a table of that name.
    pub fn resolve(&self, output_name: &str, env: &Env, base: &BaseDir) -> (r: Result<
        (Resolved, bool),
        ResolveError,
    >)
        ensures
            r matches Ok((w, _)) ==> (w@.path matches Some(p) ==> paths::is_absolute(p)),
            match r {
                Ok((w, overridden)) => {
                    &&& resolution(self@.output, output_name@, env@, base@) == Ok::<
                        ResolvedSpec,
                        (Seq<char>, paths::PathFault),
                    >(w@)
                    &&& overridden == self@.output.contains_key(output_name@)
                },
                Err(e) => resolution(self@.output, output_name@, env@, base@) == Err::<
                    ResolvedSpec,
                    (Seq<char>, paths::PathFault),
                >((e.path@, e.cause@)),
            },
    {
        let common = match self.output.get(DEFAULT_SLOT) {
            Some(d) => d.clone(),
            None => OutputConfig::unset(),
        };
        let named = self.output.get(output_name);
        let overridden = named.is_some();
        let merged = match named {
            Some(o) => common.merged_with(o),
            None => common,
        };
        assert(merged@ == layered(self@.output, output_name@));
        let path = match merged.path {
            Some(p) => match paths::expand(p.as_str(), env) {
                Ok(e) => Some(base.absolute(e)),
                Err(cause) => return Err(ResolveError { path: p, cause }),
            },
            None => None,
        };
        let mode = match merged.mode {
            Some(m) => m,
            None => Mode::Fill,
        };
        let color = match merged.color {
            Some(c) => c,
            None => Color::black(),
        };
        Ok((Resolved { path, mode, color }, overridden))
    }
}

// -------------------------------------------------------------------- laws

/// Reading a mode's name gives the mode back.
pub proof fn law_mode_name_parses_back(m: Mode)
    ensures
        named_mode(mode_name(m)) == Some(m),
{
    reveal_strlit("fill");
    reveal_strlit("fit");
    reveal_strlit("stretch");
    reveal_strlit("center");
    assert("fill"@.len() == 4 && "fit"@.len() == 3 && "stretch"@.len() == 7 && "center"@.len() == 6);
}

/// A table that sets nothing changes nothing, on either side.
pub proof fn law_unset_is_neutral(t: OutputSpec)
    ensures
        overlaid(t, unset()) == t,
        overlaid(unset(), t) == t,
{
}

/// Layering tables one after the other is the same as layering their merge.
pub proof fn law_overlaid_associative(a: OutputSpec, b: OutputSpec, c: OutputSpec)
    ensures
        overlaid(overlaid(a, b), c) == overlaid(a, overlaid(b, c)),
{
}

/// Repeating a patch changes nothing more.
pub proof fn law_patch_is_idempotent(a: OutputSpec, p: OutputSpec)
    ensures
        overlaid(overlaid(a, p), p) == overlaid(a, p),
{
}

/// A field that an output's own table sets wins over the default table, and a
/// field that it leaves open is taken from there.
pub proof fn law_named_table_wins(output: Map<Seq<char>, OutputSpec>, name: Seq<char>)
    requires
        output.contains_key(name),
    ensures
        output[name].path is Some ==> layered(output, name).path == output[name].path,
        output[name].mode is Some ==> layered(output, name).mode == output[name].mode,
        output[name].color is Some ==> layered(output, name).color == output[name].color,
        output[name].path is None ==> layered(output, name).path == slots::slot_or_unset(
            output,
            DEFAULT_SLOT@,
        ).path,
        output[name].mode is None ==> layered(output, name).mode == slots::slot_or_unset(
            output,
            DEFAULT_SLOT@,
        ).mode,
        output[name].color is None ==> layered(output, name).color == slots::slot_or_unset(
            output,
            DEFAULT_SLOT@,
        ).color,
{
}

/// An output without a table of its own gets what the default slot gets.
pub proof fn law_default_slot_is_the_fallback(
    output: Map<Seq<char>, OutputSpec>,
    name: Seq<char>,
    env: Map<Seq<char>, Seq<char>>,
    base: Seq<char>,
)
    requires
        !output.contains_key(name),
    ensures
        resolution(output, name, env, base) == resolution(output, DEFAULT_SLOT@, env, base),
{
    law_unset_is_neutral(slots::slot_or_unset(output, DEFAULT_SLOT@));
    law_patch_is_idempotent(unset(), slots::slot_or_unset(output, DEFAULT_SLOT@));
}

/// With no tables at all, every output is black and has no image.
pub proof fn law_no_tables_is_black(
    name: Seq<char>,
    env: Map<Seq<char>, Seq<char>>,
    base: Seq<char>,
)
    ensures
        resolution(Map::empty(), name, env, base) == Ok::<
            ResolvedSpec,
            (Seq<char>, paths::PathFault),
        >(ResolvedSpec { path: None, mode: Mode::Fill, color: Color::black() }),
{
}

/// Whatever is configured, an image that is resolved has an absolute path.
pub proof fn law_resolved_paths_are_absolute(
    output: Map<Seq<char>, OutputSpec>,
    name: Seq<char>,
    env: Map<Seq<char>, Seq<char>>,
    base: Seq<char>,
)
    requires
        paths::is_absolute(base),
    ensures
        resolution(output, name, env, base) matches Ok(w) ==> (w.path matches Some(p)
            ==> paths::is_absolute(p)),
{
    if let Some(p) = layered(output, name).path {
        if let Ok(e) = paths::expanded(p, env) {
            paths::law_absolute_path_is_absolute(base, e);
        }
    }
}

/// Each setting of an output is taken from the nearest place that has it: its
/// own table, then the default one, then what is built in (fill, black, no
/// image). An image path is expanded and made absolute; one that cannot be
/// expanded is the only thing that can go wrong.
pub proof fn law_nearest_setting_counts(
    output: Map<Seq<char>, OutputSpec>,
    name: Seq<char>,
    env: Map<Seq<char>, Seq<char>>,
    base: Seq<char>,
)
    ensures
        ({
            let none = OutputSpec { path: None, mode: None, color: None };
            let own = if output.contains_key(name) {
                output[name]
            } else {
                none
            };
            let common = if output.contains_key(DEFAULT_SLOT@) {
                output[DEFAULT_SLOT@]
            } else {
                none
            };
            let path = if own.path is Some {
                own.path
            } else {
                common.path
            };
            match resolution(output, name, env, base) {
                Ok(w) => {
                    &&& w.mode == (match (own.mode, common.mode) {
                        (Some(m), _) => m,
                        (None, Some(m)) => m,
                        (None, None) => Mode::Fill,
                    })
                    &&& w.color == (match (own.color, common.color) {
                        (Some(c), _) => c,
                        (None, Some(c)) => c,
                        (None, None) => Color { r: 0, g: 0, b: 0, a: 255 },
                    })
                    &&& w.path is Some <==> path is Some
                    &&& path matches Some(p) ==> {
                        &&& paths::expanded(p, env) is Ok
                        &&& w.path == Some(
                            paths::absolute_path(base, paths::expanded(p, env)->Ok_0),
                        )
                    }
                },
                Err((p, fault)) => {
                    &&& path == Some(p)
                    &&& paths::expanded(p, env) == Err::<Seq<char>, paths::PathFault>(fault)
                },
            }
        }),
{
}

/// Wallpapers count as the same exactly if they agree in mode, in colour and in
/// the file that they show, or that they show none.
pub proof fn law_same_wallpaper_agrees_in_everything(a: ResolvedSpec, b: ResolvedSpec)
    ensures
        same_wallpaper(a, a),
        same_wallpaper(a, b) == same_wallpaper(b, a),
        same_wallpaper(a, b) ==> a.mode == b.mode && a.color == b.color && (a.path is Some
            <==> b.path is Some),
        a.path is Some && b.path is Some ==> (same_wallpaper(a, b) <==> a.mode == b.mode && a.color
            == b.color && paths::path_key(a.path->0) == paths::path_key(b.path->0)),
        a.path is None && b.path is None ==> (same_wallpaper(a, b) <==> a.mode == b.mode && a.color
            == b.color),
{
}

/// Laying one table over another, each field that the upper one sets counts, and
/// each that it leaves open comes from the lower one.
pub proof fn law_upper_table_wins(base: OutputSpec, over: OutputSpec)
    ensures
        over.path is Some ==> overlaid(base, over).path == over.path,
        over.path is None ==> overlaid(base, over).path == base.path,
        over.mode is Some ==> overlaid(base, over).mode == over.mode,
        over.mode is None ==> overlaid(base, over).mode == base.mode,
        over.color is Some ==> overlaid(base, over).color == over.color,
        over.color is None ==> overlaid(base, over).color == base.color,
{
}

/// The modes have four different names, and no other name is a mode's.
pub proof fn law_modes_are_told_apart(a: Mode, b: Mode, name: Seq<char>)
    ensures
        mode_name(a) == mode_name(b) <==> a == b,
        named_mode(name) matches Some(m) ==> mode_name(m) == name,
        mode_name(a) == name ==> named_mode(name) == Some(a),
{
    law_mode_name_parses_back(a);
    law_mode_name_parses_back(b);
}

/// The settings that are accepted for `dim` are the doubles from zero to one
/// half, by their bits, and negative zero.
pub proof fn law_dim_range(bits: u64)
    ensures
        dim_in_range(bits) <==> bits <= 0x3FE0_0000_0000_0000 || bits == 0x8000_0000_0000_0000,
{
}

} // verus!
