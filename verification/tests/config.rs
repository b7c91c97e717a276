use niribg::color::Color;
use niribg::config::{
    config_source, merge_output_patch, BlurConfig, Config, ConfigError, ConfigSource, Mode,
    OutputConfig, ParseModeError, DEFAULT_SLOT,
};
use niribg::paths::{BaseDir, Env, PathError};
use niribg::slots::OutputMap;

fn no_env() -> Env {
    Env::new(Vec::new())
}

fn base() -> BaseDir {
    BaseDir::new("/base/".to_string()).unwrap()
}

fn table(path: Option<&str>, mode: Option<Mode>, color: Option<Color>) -> OutputConfig {
    OutputConfig { path: path.map(str::to_string), mode, color }
}

#[test]
fn empty_config_is_defaults() {
    let c = Config::default();
    assert_eq!(c.transition_ms, 250);
    assert!(c.blur.enable);
    assert_eq!(c.blur.radius, 30);
    assert_eq!(f64::from_bits(c.blur.dim_bits), 0.15);
    assert!(c.output.is_empty());
}

#[test]
fn dim_out_of_range_rejected() {
    let with = |dim: f64| Config {
        blur: BlurConfig { dim_bits: dim.to_bits(), ..BlurConfig::default() },
        ..Config::default()
    };
    assert!(with(0.9).validate().is_err());
    assert!(with(-0.1).validate().is_err());
    assert!(with(0.5).validate().is_ok());
    assert!(with(0.0).validate().is_ok());
    assert!(with(-0.0).validate().is_ok());
    assert!(with(0.15).validate().is_ok());
    assert!(with(0.5000000000000001).validate().is_err());
    assert!(with(f64::NAN).validate().is_err());
    assert!(with(f64::INFINITY).validate().is_err());
    assert!(with(f64::NEG_INFINITY).validate().is_err());
    assert_eq!(
        with(0.9).validate(),
        Err(ConfigError::DimOutOfRange { dim_bits: 0.9f64.to_bits() })
    );
}

#[test]
fn resolve_layers_default_then_override() {
    let mut c = Config::default();
    c.output.insert(
        "default".to_string(),
        table(Some("/base.jpg"), Some(Mode::Fill), Some("#000000".parse().unwrap())),
    );
    c.output.insert("DP-1".to_string(), table(None, Some(Mode::Fit), None));

    let (dp1, overridden) = c.resolve("DP-1", &no_env(), &base()).unwrap();
    assert!(overridden);
    assert_eq!(dp1.path.as_deref(), Some("/base.jpg")); // inherited
    assert_eq!(dp1.mode, Mode::Fit); // overridden
    assert_eq!(dp1.color, Color::black()); // inherited

    let (other, overridden) = c.resolve("HDMI-A-1", &no_env(), &base()).unwrap();
    assert!(!overridden);
    assert_eq!(other.path.as_deref(), Some("/base.jpg"));
    assert_eq!(other.mode, Mode::Fill);
}

#[test]
fn resolve_with_no_tables_is_black_colour_only() {
    let c = Config::default();
    let (r, overridden) = c.resolve("eDP-1", &no_env(), &base()).unwrap();
    assert!(!overridden);
    assert_eq!(r.path, None);
    assert_eq!(r.mode, Mode::Fill);
    assert_eq!(r.color, Color::black());
}

#[test]
fn resolve_expands_paths_and_reports_what_it_cannot() {
    let mut c = Config::default();
    c.output.insert("DP-1".to_string(), table(Some("~/w.jpg"), None, None));
    let env = Env::new(vec![("HOME".to_string(), "/home/u".to_string())]);
    let (r, _) = c.resolve("DP-1", &env, &base()).unwrap();
    assert_eq!(r.path.as_deref(), Some("/home/u/w.jpg"));

    let e = c.resolve("DP-1", &no_env(), &base()).unwrap_err();
    assert_eq!(e.path, "~/w.jpg");
    assert_eq!(e.cause, PathError::HomeNotSet);
}

#[test]
fn resolved_paths_are_absolute() {
    let mut c = Config::default();
    c.output.insert("A".to_string(), table(Some("pics/w.jpg"), None, None));
    c.output.insert("B".to_string(), table(Some("/w.jpg"), None, None));
    c.output.insert("C".to_string(), table(Some("$DIR/w.jpg"), None, None));
    let env = Env::new(vec![("DIR".to_string(), "d".to_string())]);
    let path = |name: &str| c.resolve(name, &env, &base()).unwrap().0.path.unwrap();
    assert_eq!(path("A"), "/base/pics/w.jpg");
    assert_eq!(path("B"), "/w.jpg");
    assert_eq!(path("C"), "/base/d/w.jpg");
}

#[test]
fn mode_names_round_trip() {
    for m in [Mode::Fill, Mode::Fit, Mode::Stretch, Mode::Center] {
        assert_eq!(m.to_string().parse::<Mode>(), Ok(m));
    }
    assert_eq!(Mode::Center.to_string(), "center");
    assert_eq!("Fill".parse::<Mode>(), Err(ParseModeError("Fill".to_string())));
    assert_eq!(
        ParseModeError("a\"b".to_string()).to_string(),
        "unknown mode \"a\\\"b\" (expected fill, fit, stretch, or center)"
    );
    assert_eq!(Mode::default(), Mode::Fill);
}

#[test]
fn patch_keeps_unset_fields() {
    let mut t = table(Some("/a.jpg"), Some(Mode::Fit), None);
    merge_output_patch(&mut t, table(None, Some(Mode::Center), None));
    assert_eq!(t, table(Some("/a.jpg"), Some(Mode::Center), None));
    // repeating it changes nothing more
    merge_output_patch(&mut t, table(None, Some(Mode::Center), None));
    assert_eq!(t, table(Some("/a.jpg"), Some(Mode::Center), None));
    // nor does a patch that sets nothing
    merge_output_patch(&mut t, OutputConfig::unset());
    assert_eq!(t, table(Some("/a.jpg"), Some(Mode::Center), None));
}

#[test]
fn slots_are_sorted_and_unique() {
    let mut m = OutputMap::new();
    m.insert("eDP-1".to_string(), table(Some("/a"), None, None));
    m.insert("DP-10".to_string(), OutputConfig::unset());
    m.insert("DP-2".to_string(), OutputConfig::unset());
    m.insert("eDP-1".to_string(), table(Some("/b"), None, None));
    assert_eq!(m.names(), ["DP-10", "DP-2", "eDP-1"]);
    assert_eq!(m.len(), 3);
    assert_eq!(m.get("eDP-1").unwrap().path.as_deref(), Some("/b"));
    assert!(!m.contains_key(DEFAULT_SLOT));
    assert_eq!(m.clone(), m);
}

#[test]
fn a_missing_file_means_the_defaults() {
    let p = || "/c.toml".to_string();
    assert_eq!(config_source(p(), true), ConfigSource::File(p()));
    assert_eq!(config_source(p(), false), ConfigSource::Defaults);
}

#[test]
fn wallpapers_are_the_same_if_their_paths_are() {
    let mut c = Config::default();
    c.output.insert("a".to_string(), table(Some("/x//y.jpg"), None, None));
    c.output.insert("b".to_string(), table(Some("/x/./y.jpg"), None, None));
    c.output.insert("c".to_string(), table(Some("/x/z.jpg"), None, None));
    let (a, _) = c.resolve("a", &no_env(), &base()).unwrap();
    let (b, _) = c.resolve("b", &no_env(), &base()).unwrap();
    let (z, _) = c.resolve("c", &no_env(), &base()).unwrap();
    assert!(a.same(&b));
    assert!(!a.same(&z));
    assert!(a.same(&a.clone()));
}
