use std::ops::ControlFlow;

use niribg::config::{BlurConfig, Config, Mode, OutputConfig};
use niribg::daemon::ipc::{malformed_reply, Handler};
use niribg::paths::{BaseDir, Env};
use niribg::proto::{ReplyData, Request, Source, Status, WireReply};
use niribg::VERSION;

fn table(path: Option<&str>, mode: Option<Mode>) -> OutputConfig {
    OutputConfig { path: path.map(str::to_string), mode, color: None }
}

fn handler_for(config: Config) -> Handler {
    let base = BaseDir::new("/base".to_string()).unwrap();
    Handler::new(42, Env::new(Vec::new()), base, config)
}

fn handler() -> Handler {
    handler_for(Config::default())
}

fn status_of(reply: WireReply) -> Status {
    match reply.data {
        Some(ReplyData::Status(s)) => s,
        other => panic!("{other:?}"),
    }
}

#[test]
fn version_reports_build() {
    let (reply, flow) = handler().handle(Request::Version);
    assert!(reply.ok);
    assert_eq!(flow, ControlFlow::Continue(()));
    match reply.data.unwrap() {
        ReplyData::Version(info) => assert_eq!(info.version, VERSION),
        other => panic!("{other:?}"),
    }
}

#[test]
fn quit_breaks_the_loop() {
    let (reply, flow) = handler().handle(Request::Quit);
    assert!(reply.ok);
    assert_eq!(flow, ControlFlow::Break(()));
}

#[test]
fn get_reports_config_derived_status() {
    let mut cfg = Config {
        transition_ms: 100,
        blur: BlurConfig { radius: 12, ..BlurConfig::default() },
        ..Config::default()
    };
    cfg.output.insert("default".to_string(), table(Some("/w.jpg"), None));
    let mut h = handler_for(cfg);
    h.overview_open = true;

    let (reply, _) = h.handle(Request::Get);
    let status = status_of(reply);

    assert_eq!(status.transition_ms, 100);
    assert_eq!(status.blur.radius, 12);
    assert!(status.blur.active); // overview open + blur enabled
    assert_eq!(status.outputs.len(), 1);
    assert_eq!(status.outputs[0].name, "default");
    assert!(!status.outputs[0].overridden); // the default row is not an override
    assert!(!status.outputs[0].loaded);
    assert_eq!(
        status.outputs[0].source,
        Source::Image { path: "/w.jpg".to_string() }
    );
    assert_eq!(status.pid, 42);
    assert!(!status.niri_connected);
}

#[test]
fn get_lists_named_overrides_not_default_when_present() {
    let mut cfg = Config::default();
    cfg.output.insert("default".to_string(), table(Some("/d.jpg"), None));
    cfg.output.insert("DP-1".to_string(), table(None, Some(Mode::Fit)));
    let (reply, _) = handler_for(cfg).handle(Request::Get);
    let status = status_of(reply);
    let names: Vec<_> = status.outputs.iter().map(|o| o.name.as_str()).collect();
    assert_eq!(names, ["DP-1"]);
    assert!(status.outputs[0].overridden);
}

#[test]
fn blur_inactive_when_disabled_even_with_overview_open() {
    let cfg = Config {
        blur: BlurConfig { enable: false, ..BlurConfig::default() },
        ..Config::default()
    };
    let mut h = handler_for(cfg);
    h.overview_open = true;
    let (reply, _) = h.handle(Request::Get);
    assert!(!status_of(reply).blur.active);
}

#[test]
fn unimplemented_commands_error_without_breaking() {
    let (reply, flow) = handler().handle(Request::Reload);
    assert!(!reply.ok);
    assert_eq!(flow, ControlFlow::Continue(()));
}

#[test]
fn slots_that_cannot_be_resolved_have_no_row() {
    let mut cfg = Config::default();
    cfg.output.insert("DP-1".to_string(), table(Some("$NOPE/x"), None));
    cfg.output.insert("DP-2".to_string(), table(None, None));
    let status = handler_for(cfg).status();
    let names: Vec<_> = status.outputs.iter().map(|o| o.name.as_str()).collect();
    assert_eq!(names, ["DP-2"]);
    assert_eq!(status.outputs[0].source, Source::Color);
}

#[test]
fn a_line_that_is_no_request_is_refused() {
    assert_eq!(
        malformed_reply("expected value at line 1 column 1"),
        WireReply::err("malformed request: expected value at line 1 column 1".to_string())
    );
}
