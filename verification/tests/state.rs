use niribg::color::Color;
use niribg::config::{Config, Mode, OutputConfig, DEFAULT_SLOT};
use niribg::paths::{BaseDir, Env};
use niribg::state::{effective, State};

fn table(path: Option<&str>, mode: Option<Mode>, color: Option<Color>) -> OutputConfig {
    OutputConfig { path: path.map(str::to_string), mode, color }
}

#[test]
fn repeated_set_accumulates_fields() {
    let mut s = State::default();
    s.apply_set("DP-1", table(Some("/a.jpg"), None, None));
    s.apply_set("DP-1", table(None, Some(Mode::Center), Some(Color::black())));
    let e = s.output.get("DP-1").unwrap();
    assert_eq!(e.path.as_deref(), Some("/a.jpg"));
    assert_eq!(e.mode, Some(Mode::Center));
    assert_eq!(e.color, Some(Color::black()));
}

#[test]
fn state_overrides_config_key_by_key() {
    let mut cfg = Config::default();
    cfg.output.insert(
        DEFAULT_SLOT.to_string(),
        table(Some("/cfg.jpg"), Some(Mode::Fill), None),
    );

    let mut st = State::default();
    st.apply_set(DEFAULT_SLOT, table(Some("/runtime.jpg"), None, None));
    st.apply_to(&mut cfg);

    let (r, _) = cfg.resolve("eDP-1", &Env::new(Vec::new()), &BaseDir::new("/".to_string()).unwrap()).unwrap();
    assert_eq!(r.path.as_deref(), Some("/runtime.jpg")); // state won
    assert_eq!(r.mode, Mode::Fill); // config kept
}

#[test]
fn no_overrides_leave_the_config_alone() {
    let mut cfg = Config::default();
    cfg.transition_ms = 7;
    cfg.output.insert("DP-1".to_string(), table(Some("/x"), None, None));
    let s = State::default();
    assert!(s.is_empty());
    assert_eq!(effective(&cfg, &s), cfg);
}

#[test]
fn overrides_add_slots_and_touch_only_their_own() {
    let mut cfg = Config::default();
    cfg.output.insert("DP-1".to_string(), table(Some("/x"), None, None));
    let mut s = State::default();
    s.apply_set("DP-2", table(None, None, Some(Color::black())));
    assert!(!s.is_empty());
    let eff = effective(&cfg, &s);
    assert_eq!(eff.output.names(), ["DP-1", "DP-2"]);
    assert_eq!(eff.output.get("DP-1"), cfg.output.get("DP-1"));
    assert_eq!(eff.output.get("DP-2").unwrap().color, Some(Color::black()));
}
