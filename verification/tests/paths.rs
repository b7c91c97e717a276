use niribg::paths::{
    config_file, empty_extension, expand, same_path, socket_path, state_file, BaseDir, Env,
    PathError,
};

fn env_of(pairs: &[(&str, &str)]) -> Env {
    Env::new(
        pairs
            .iter()
            .map(|(k, v)| ((*k).to_string(), (*v).to_string()))
            .collect(),
    )
}

#[test]
fn config_file_prefers_xdg() {
    let e = env_of(&[("XDG_CONFIG_HOME", "/x/cfg"), ("HOME", "/home/u")]);
    assert_eq!(config_file(&e).unwrap(), "/x/cfg/niribg/config.toml");
}

#[test]
fn config_file_falls_back_to_home() {
    let e = env_of(&[("HOME", "/home/u")]);
    assert_eq!(config_file(&e).unwrap(), "/home/u/.config/niribg/config.toml");
}

#[test]
fn state_file_locations() {
    let e = env_of(&[("XDG_STATE_HOME", "/x/state")]);
    assert_eq!(state_file(&e).unwrap(), "/x/state/niribg/state.json");
    let e = env_of(&[("HOME", "/home/u")]);
    assert_eq!(state_file(&e).unwrap(), "/home/u/.local/state/niribg/state.json");
}

#[test]
fn socket_path_uses_display_and_runtime_dir() {
    let e = env_of(&[
        ("XDG_RUNTIME_DIR", "/run/user/1000"),
        ("WAYLAND_DISPLAY", "wayland-1"),
    ]);
    assert_eq!(socket_path(&e).unwrap(), "/run/user/1000/niribg-wayland-1.sock");
}

#[test]
fn socket_path_defaults_display_and_strips_path() {
    let e = env_of(&[("XDG_RUNTIME_DIR", "/run/user/1000")]);
    assert_eq!(socket_path(&e).unwrap(), "/run/user/1000/niribg-wayland-0.sock");
    let e = env_of(&[
        ("XDG_RUNTIME_DIR", "/run/user/1000"),
        ("WAYLAND_DISPLAY", "/run/user/1000/wayland-9"),
    ]);
    assert_eq!(socket_path(&e).unwrap(), "/run/user/1000/niribg-wayland-9.sock");
}

#[test]
fn socket_path_needs_runtime_dir() {
    let e = env_of(&[("WAYLAND_DISPLAY", "wayland-0")]);
    assert!(socket_path(&e).is_err());
    assert_eq!(socket_path(&e), Err(PathError::RuntimeDirNotSet));
}

#[test]
fn expand_tilde() {
    let e = env_of(&[("HOME", "/home/u")]);
    assert_eq!(expand("~", &e).unwrap(), "/home/u");
    assert_eq!(expand("~/Pictures/w.jpg", &e).unwrap(), "/home/u/Pictures/w.jpg");
    // `~` only expands at the start.
    assert_eq!(expand("/a/~/b", &e).unwrap(), "/a/~/b");
}

#[test]
fn expand_vars() {
    let e = env_of(&[("HOME", "/home/u"), ("XDG_PICTURES_DIR", "/home/u/Pics")]);
    assert_eq!(expand("${XDG_PICTURES_DIR}/w.jpg", &e).unwrap(), "/home/u/Pics/w.jpg");
    assert_eq!(expand("$HOME/w.jpg", &e).unwrap(), "/home/u/w.jpg");
    assert_eq!(
        expand("~/x/${XDG_PICTURES_DIR}", &e).unwrap(),
        "/home/u/x//home/u/Pics"
    );
}

#[test]
fn expand_missing_var_errors() {
    let e = env_of(&[("HOME", "/home/u")]);
    assert!(expand("${NOPE}/x", &e).is_err());
    assert!(expand("$NOPE", &e).is_err());
    assert!(expand("~/x", &env_of(&[])).is_err());
    assert_eq!(
        expand("a/$NOPE-b", &e),
        Err(PathError::VarNotSet { name: "NOPE".to_string(), path: "a/$NOPE-b".to_string() })
    );
    assert_eq!(expand("~", &env_of(&[])), Err(PathError::HomeNotSet));
}

#[test]
fn expand_leaves_plain_paths_and_lone_dollar() {
    let e = env_of(&[]);
    assert_eq!(expand("/etc/niribg/w.png", &e).unwrap(), "/etc/niribg/w.png");
    assert_eq!(expand("a $ b", &e).unwrap(), "a $ b");
}

#[test]
fn expand_needs_the_closing_brace() {
    let e = env_of(&[("A", "x")]);
    assert_eq!(
        expand("p/${A", &e),
        Err(PathError::Unterminated { path: "p/${A".to_string() })
    );
    assert_eq!(expand("p/${A}é$", &e).unwrap(), "p/xé$");
}

#[test]
fn empty_variables_count_as_unset() {
    let e = env_of(&[("XDG_CONFIG_HOME", ""), ("HOME", "/h")]);
    assert_eq!(config_file(&e).unwrap(), "/h/.config/niribg/config.toml");
    assert_eq!(config_file(&env_of(&[])), Err(PathError::HomeNotSet));
    assert_eq!(e.get("HOME").as_deref(), Some("/h"));
    assert_eq!(e.get("XDG_CONFIG_HOME"), None);
}

#[test]
fn paths_compare_by_component() {
    assert!(same_path("/a//b/", "/a/b"));
    assert!(same_path("/a/./b", "/a/b"));
    assert!(!same_path("/a/../b", "/b"));
    assert!(!same_path("a/b", "/a/b"));
}

#[test]
fn path_errors_have_texts() {
    assert_eq!(PathError::HomeNotSet.to_string(), "$HOME is not set");
    assert_eq!(
        PathError::RuntimeDirNotSet.to_string(),
        "$XDG_RUNTIME_DIR is not set; cannot locate the control socket"
    );
    let path = "p\\${A".to_string();
    assert_eq!(
        PathError::Unterminated { path }.to_string(),
        "unterminated ${...} in path \"p\\\\${A\""
    );
    let (name, path) = ("NOPE".to_string(), "$NOPE/\u{1b}".to_string());
    assert_eq!(
        PathError::VarNotSet { name, path }.to_string(),
        "environment variable $NOPE (referenced in \"$NOPE/\\u{1b}\") is not set"
    );
}

#[test]
fn base_directories_are_absolute() {
    assert!(BaseDir::new("rel".to_string()).is_none());
    assert!(BaseDir::new(String::new()).is_none());
    let base = BaseDir::new("/a/b".to_string()).unwrap();
    assert_eq!(base.absolute("c.png".to_string()), "/a/b/c.png");
    assert_eq!(base.absolute("/c.png".to_string()), "/c.png");
    assert_eq!(base.absolute(String::new()), "/a/b/");
    let root = BaseDir::new("/".to_string()).unwrap();
    assert_eq!(root.absolute("c.png".to_string()), "/c.png");
}

#[test]
fn an_extension_can_be_empty() {
    for p in ["w.", "/a/w.", "w./", "w./.", "..."] {
        assert!(empty_extension(p), "{p}");
    }
    for p in ["", "w", "w.png", ".", "..", "a/..", "a/.", "/", ".hidden"] {
        assert!(!empty_extension(p), "{p}");
    }
}
