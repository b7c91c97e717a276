use niribg::cli::{log_level, request_of, status_text, ArgError, Command};
use niribg::client::{finish, not_running, probe, ProbeError};
use niribg::color::{Color, ParseColorError};
use niribg::config::{Mode, ParseModeError};
use niribg::daemon::socket::{
    already_listening, release_step, release_timed_out, takeover, Takeover, Wait,
};
use niribg::proto::{
    BlurStatus, LogicalOutput, OutputStatus, ReplyData, Request, Source, Status, VersionInfo,
    WireReply,
};

fn version(v: &str) -> ReplyData {
    ReplyData::Version(VersionInfo { version: v.to_string() })
}

#[test]
fn replies_arrive_as_sent() {
    assert_eq!(finish(WireReply::ok(version("1"))), Ok(Some(version("1"))));
    assert_eq!(finish(WireReply::ok_empty()), Ok(None));
    assert_eq!(finish(WireReply::err("boom".to_string())), Err("boom".to_string()));
    let bare = WireReply { ok: false, data: None, error: None };
    assert_eq!(finish(bare), Err("daemon reported failure".to_string()));
}

#[test]
fn a_probe_wants_a_version() {
    assert_eq!(probe(WireReply::ok(version("9.9"))), Ok("9.9".to_string()));
    assert_eq!(probe(WireReply::ok_empty()), Err(ProbeError::Rejected));
    assert_eq!(probe(WireReply::err("x".to_string())), Err(ProbeError::Rejected));
    assert_eq!(
        probe(WireReply::ok(ReplyData::Changed(1))),
        Err(ProbeError::Undecodable)
    );
}

#[test]
fn messages_about_the_socket() {
    assert_eq!(
        not_running("/run/s.sock"),
        "niribg daemon is not running (no socket at /run/s.sock); start it with `niribg daemon`"
    );
    assert_eq!(
        already_listening("0.1.0", "/s"),
        "a niribg daemon (version 0.1.0) is already listening on /s; pass --replace to take over"
    );
    assert_eq!(
        release_timed_out("/s"),
        "timed out waiting for the previous daemon to release /s"
    );
}

#[test]
fn taking_over_the_socket() {
    assert_eq!(takeover(false, false), Takeover::Clear);
    assert_eq!(takeover(false, true), Takeover::Clear);
    assert_eq!(takeover(true, false), Takeover::Refuse);
    assert_eq!(takeover(true, true), Takeover::Replace);
    assert_eq!(release_step(false, 0), Wait::Over);
    assert_eq!(release_step(true, 2999), Wait::Again);
    assert_eq!(release_step(true, 3000), Wait::TimedOut);
    assert_eq!(release_step(false, 9000), Wait::Over);
}

#[test]
fn log_levels() {
    assert_eq!(log_level(0, false), "info");
    assert_eq!(log_level(1, false), "debug");
    assert_eq!(log_level(2, false), "trace");
    assert_eq!(log_level(9, false), "trace");
    assert_eq!(log_level(2, true), "warn");
}

fn set(mode: Option<&str>, color: Option<&str>) -> Command {
    Command::SetWallpaper {
        path: Some("/w.jpg".to_string()),
        output: Some("DP-1".to_string()),
        mode: mode.map(str::to_string),
        color: color.map(str::to_string),
        no_fade: true,
        no_persist: false,
    }
}

#[test]
fn commands_become_requests() {
    assert_eq!(
        request_of(set(Some("fit"), Some("#1e1e2e"))),
        Ok(Request::SetWallpaper {
            path: Some("/w.jpg".to_string()),
            output: Some("DP-1".to_string()),
            mode: Some(Mode::Fit),
            color: Some(Color { r: 0x1e, g: 0x1e, b: 0x2e, a: 255 }),
            fade: false,
            persist: true,
        })
    );
    assert_eq!(request_of(Command::Reload), Ok(Request::Reload));
    assert_eq!(request_of(Command::Reset), Ok(Request::Reset));
    assert_eq!(request_of(Command::Quit), Ok(Request::Quit));
    assert_eq!(request_of(Command::Get { json: true }), Ok(Request::Get));
}

#[test]
fn bad_arguments_are_named() {
    assert_eq!(
        request_of(set(Some("tile"), Some("#zzz"))),
        Err(ArgError::Mode(ParseModeError("tile".to_string())))
    );
    assert_eq!(
        request_of(set(None, Some("#zzz"))),
        Err(ArgError::Color(ParseColorError::Digit))
    );
}

#[test]
fn the_status_table() {
    let status = Status {
        pid: 42,
        niri_connected: true,
        blur: BlurStatus { enable: true, radius: 30, dim_bits: 0, active: false },
        transition_ms: 250,
        outputs: vec![
            OutputStatus {
                name: "eDP-1".to_string(),
                logical: Some(LogicalOutput { width: 1920, height: 1200, scale_120: 180 }),
                source: Source::Image { path: "/abs/wall.jpg".to_string() },
                mode: Mode::Fill,
                color: Color::black(),
                overridden: false,
                loaded: true,
                error: None,
            },
            OutputStatus {
                name: "a-long-connector".to_string(),
                logical: None,
                source: Source::Color,
                mode: Mode::Fit,
                color: Color::black(),
                overridden: true,
                loaded: false,
                error: None,
            },
            OutputStatus {
                name: "X".to_string(),
                logical: None,
                source: Source::Color,
                mode: Mode::Fit,
                color: Color::black(),
                overridden: false,
                loaded: true,
                error: Some("torn".to_string()),
            },
        ],
    };
    let scales = vec!["1.5".to_string(), String::new(), String::new()];
    assert_eq!(
        status_text(&status, "0.15", &scales),
        "daemon:     running (pid 42)\n\
         niri:       connected\n\
         blur:       enabled (radius 30, dim 0.15) \u{2014} currently off\n\
         transition: 250ms\n\
         \n\
         eDP-1      1920x1200 @1.5     fill /abs/wall.jpg\n\
         a-long-connector -                  fit (colour #000000)  [override]  (pending)\n\
         X          -                  fit (colour #000000)  ERROR: torn\n"
    );
    let off = Status {
        pid: 1,
        niri_connected: false,
        blur: BlurStatus { enable: false, radius: 30, dim_bits: 0, active: false },
        transition_ms: 0,
        outputs: Vec::new(),
    };
    assert_eq!(
        status_text(&off, "0.15", &Vec::new()),
        "daemon:     running (pid 1)\nniri:       disconnected\nblur:       disabled\n\
         transition: 0ms\n\n"
    );
}
