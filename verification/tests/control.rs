use niribg::color::{Color, DimSteps};
use niribg::config::{BlurConfig, Config, Mode, OutputConfig, DEFAULT_SLOT};
use niribg::daemon::anim::ONE;
use niribg::daemon::control::{Action, DaemonState};
use niribg::daemon::ipc::{Reply, SetDispatch, SetRequest};
use niribg::daemon::output::{Commit, Frame, PaintStatus, Plan, Showing};
use niribg::daemon::render::{solid, Size};
use niribg::daemon::worker::{Job, JobResult, Rendered};
use niribg::paths::{BaseDir, Env};
use niribg::proto::{ReplyData, Request, Source, WireReply};
use niribg::state::State;

const MS: u64 = 1_000_000;

fn half() -> DimSteps {
    DimSteps::new((0..=255u32).map(|v| (v / 2) as u8).collect()).unwrap()
}

fn table(path: Option<&str>, color: Option<&str>) -> OutputConfig {
    OutputConfig {
        path: path.map(str::to_string),
        mode: None,
        color: color.map(|c| c.parse().unwrap()),
    }
}

fn config(tables: &[(&str, OutputConfig)]) -> Config {
    let mut c = Config::default();
    for (name, t) in tables {
        c.output.insert((*name).to_string(), t.clone());
    }
    c
}

fn base() -> BaseDir {
    BaseDir::new("/base".to_string()).unwrap()
}

fn daemon(c: Config) -> DaemonState {
    DaemonState::new(7, Env::new(Vec::new()), base(), c, State::default(), half())
}

/// A daemon with one configured output of 2 by 1 pixels.
fn with_output(c: Config) -> (DaemonState, Vec<Action>) {
    let mut d = daemon(c);
    d.connect_output(1, Some("eDP-1".to_string()), 9, true);
    let acts = d.on_layer_configure(1, 2, 1, 0);
    (d, acts)
}

/// Carry out the frames of `acts` as if every buffer could be had.
fn put_on_screen(d: &mut DaemonState, acts: &[Action]) -> Vec<u64> {
    let mut callbacks = Vec::new();
    for a in acts {
        if let Action::Show(c) = a {
            if d.commit_done(c.id, c.size, c.frame.settles()) {
                callbacks.push(c.id);
            }
        }
    }
    callbacks
}

fn pixels(c: &Commit) -> Vec<u8> {
    let mut canvas = vec![0u8; c.size.w as usize * c.size.h as usize * 4];
    c.frame.fill(&mut canvas);
    canvas
}

fn shown(a: &Action) -> &Commit {
    match a {
        Action::Show(c) => c,
        other => panic!("{other:?}"),
    }
}

fn job(a: &Action) -> &Job {
    match a {
        Action::Render(j) => j,
        other => panic!("{other:?}"),
    }
}

fn finished(j: &Job, value: u8, blurred: u8) -> JobResult {
    let n = j.target.w as usize * j.target.h as usize * 4;
    JobResult {
        token: j.token,
        generation: j.generation,
        output: j.output.clone(),
        outcome: Ok(Rendered {
            size: j.target,
            sharp: vec![value; n],
            blurred: vec![blurred; n],
        }),
        fade: j.fade,
    }
}

fn failed(j: &Job, why: &str) -> JobResult {
    JobResult { outcome: Err(why.to_string()), ..finished(j, 0, 0) }
}

fn set(slot: Option<&str>, path: Option<&str>, color: Option<&str>) -> SetRequest {
    SetRequest {
        slot: slot.map(str::to_string),
        path: path.map(str::to_string),
        mode: None,
        color: color.map(|c| c.parse().unwrap()),
        fade: true,
        persist: true,
    }
}

#[test]
fn a_colour_is_painted_on_the_first_configure() {
    let (mut d, acts) = with_output(config(&[(DEFAULT_SLOT, table(None, Some("#204060")))]));
    assert_eq!(acts.len(), 1);
    let c = shown(&acts[0]);
    assert_eq!(c.size, Size::new(2, 1));
    assert_eq!(pixels(c), [0x60, 0x40, 0x20, 255, 0x60, 0x40, 0x20, 255]);
    assert_eq!(d.outputs[0].status, PaintStatus::Pending);
    assert!(put_on_screen(&mut d, &acts).is_empty());
    assert_eq!(d.outputs[0].status, PaintStatus::Painted);
    assert_eq!(d.outputs[0].painted, Some(Size::new(2, 1)));
}

#[test]
fn an_image_is_stood_in_for_and_rendered() {
    let (mut d, acts) = with_output(config(&[(DEFAULT_SLOT, table(Some("/w.jpg"), None))]));
    assert_eq!(acts.len(), 2);
    assert_eq!(pixels(shown(&acts[0])), solid(Color::black(), Size::new(2, 1)));
    let j = job(&acts[1]);
    assert_eq!(j.path, "/w.jpg");
    assert_eq!((j.token, j.generation), (0, 1));
    assert_eq!(j.target, Size::new(2, 1));
    assert_eq!(j.blur_radius, 30);
    assert!(!j.fade);
    put_on_screen(&mut d, &acts);
    // The stand-in is not the wallpaper.
    assert_eq!(d.outputs[0].status, PaintStatus::Pending);
    assert!(!d.live_status().outputs[0].loaded);
    assert_eq!(*d.outputs[0].current_displayed(0), solid(Color::black(), Size::new(2, 1)));
    let done = d.apply_rendered(finished(j, 9, 4), 0);
    assert_eq!(done.len(), 1);
    assert_eq!(pixels(shown(&done[0])), [9; 8]);
    put_on_screen(&mut d, &done);
    assert!(d.live_status().outputs[0].loaded);
    // A repaint after that needs no stand-in.
    let again = d.on_fractional_scale(1, 180, 0);
    assert_eq!(again.len(), 1);
    assert_eq!(job(&again[0]).target, Size::new(3, 2));
}

#[test]
fn nothing_is_painted_before_the_configure() {
    let mut d = daemon(Config::default());
    d.connect_output(1, Some("eDP-1".to_string()), 9, true);
    assert!(d.on_fractional_scale(1, 180, 0).is_empty());
    assert_eq!(d.outputs[0].scale_120, 180);
    assert!(d.commit_plan(1, Size::new(1, 1)).is_none());
    assert!(d.on_layer_configure(1, 0, 0, 0).is_empty());
    assert_eq!(d.on_layer_configure(1, 10, 10, 0).len(), 1);
}

#[test]
fn unknown_and_repeated_outputs_are_ignored() {
    let (mut d, _) = with_output(Config::default());
    d.connect_output(1, Some("other".to_string()), 9, false);
    assert_eq!(d.outputs.len(), 1);
    assert_eq!(d.outputs[0].name, "eDP-1");
    assert!(d.on_layer_configure(5, 10, 10, 0).is_empty());
    assert!(d.on_frame(5, 0).is_empty());
    d.disconnect_output(5);
    assert_eq!(d.outputs.len(), 1);
    d.disconnect_output(1);
    assert!(d.outputs.is_empty());
}

#[test]
fn outputs_without_a_name_get_one() {
    let mut d = daemon(config(&[("output-12", table(None, Some("#010203")))]));
    d.connect_output(3, None, 12, false);
    assert_eq!(d.outputs[0].name, "output-12");
    assert_eq!(d.outputs[0].resolved.color, Color { r: 1, g: 2, b: 3, a: 255 });
}

#[test]
fn an_unresolvable_wallpaper_is_black() {
    let mut d = daemon(config(&[(DEFAULT_SLOT, table(Some("$NOPE/x"), Some("#ffffff")))]));
    d.connect_output(3, Some("A".to_string()), 12, false);
    assert_eq!(d.outputs[0].resolved.path, None);
    assert_eq!(d.outputs[0].resolved.color, Color::black());
}

#[test]
fn physical_sizes_round_up() {
    for (scale, expected) in [
        (120, Size::new(1921, 1201)),
        (150, Size::new(2402, 1502)),
        (180, Size::new(2882, 1802)),
        (240, Size::new(3842, 2402)),
    ] {
        let mut d = daemon(Config::default());
        d.connect_output(1, None, 1, true);
        d.on_fractional_scale(1, scale, 0);
        let acts = d.on_layer_configure(1, 1921, 1201, 0);
        assert_eq!(shown(&acts[0]).size, expected);
    }
    let mut d = daemon(Config::default());
    d.connect_output(1, None, 1, true);
    d.on_fractional_scale(1, 180, 0);
    let acts = d.on_layer_configure(1, 1920, 1200, 0);
    assert_eq!(shown(&acts[0]).size, Size::new(2880, 1800));
}

#[test]
fn integer_scales_count_only_without_fractional_ones() {
    let mut d = daemon(Config::default());
    d.connect_output(1, None, 1, false);
    d.on_layer_configure(1, 10, 10, 0);
    let acts = d.on_integer_scale(1, 2, 0);
    assert_eq!(shown(&acts[0]).size, Size::new(20, 20));
    assert!(d.on_integer_scale(1, 2, 0).is_empty());
    assert_eq!(shown(&d.on_integer_scale(1, -4, 0)[0]).size, Size::new(10, 10));
    assert!(d.on_fractional_scale(1, 0, 0).is_empty());

    let mut d = daemon(Config::default());
    d.connect_output(1, None, 1, true);
    d.on_layer_configure(1, 10, 10, 0);
    assert!(d.on_integer_scale(1, 2, 0).is_empty());
}

#[test]
fn sizes_that_do_not_fit_are_told() {
    let (mut d, _) = with_output(Config::default());
    d.on_layer_configure(1, 1000, 1000, 0);
    assert!(d.fits_size(1, 7680, 4320));
    assert!(!d.fits_size(1, 1 << 30, 1));
    assert!(d.fits_scale(1, 360));
    assert!(!d.fits_scale(1, u32::MAX));
    assert!(d.fits_factor(1, 3));
    assert!(!d.fits_factor(1, i32::MAX));
    assert!(d.fits_size(99, u32::MAX, u32::MAX));
    assert!(d.has_room());
}

#[test]
fn plans_for_both_kinds_of_scale() {
    let (mut d, acts) = with_output(Config::default());
    let size = Size::new(2, 1);
    assert_eq!(
        d.commit_plan(1, size),
        Some(Plan {
            width: 2,
            height: 1,
            stride: 8,
            buffer_scale: 1,
            logical_width: 2,
            logical_height: 1,
            use_viewport: true,
            geometry_changed: true,
        })
    );
    put_on_screen(&mut d, &acts);
    assert!(!d.commit_plan(1, size).unwrap().geometry_changed);
    assert!(d.commit_plan(1, Size::new(3, 1)).unwrap().geometry_changed);

    let mut d = daemon(Config::default());
    d.connect_output(1, None, 1, false);
    d.on_layer_configure(1, 10, 10, 0);
    d.on_integer_scale(1, 2, 0);
    let plan = d.commit_plan(1, Size::new(20, 20)).unwrap();
    assert_eq!((plan.buffer_scale, plan.use_viewport), (2, false));
    assert!(d.commit_plan(2, size).is_none());
}

#[test]
fn a_failed_commit_is_reported() {
    let (mut d, _) = with_output(Config::default());
    d.commit_failed(1, "no memory");
    assert_eq!(d.outputs[0].status, PaintStatus::Failed("shm: no memory".to_string()));
    let s = d.live_status();
    assert_eq!(s.outputs[0].error.as_deref(), Some("shm: no memory"));
    assert!(!s.outputs[0].loaded);
}

#[test]
fn the_overview_fades_to_the_dimmed_colour_and_back() {
    let (mut d, acts) = with_output(config(&[(DEFAULT_SLOT, table(None, Some("#808080")))]));
    put_on_screen(&mut d, &acts);

    let open = d.set_overview_open(true, 1000 * MS);
    assert_eq!(open.len(), 1);
    // The first frame is what was on screen.
    assert_eq!(pixels(shown(&open[0])), pixels(shown(&acts[0])));
    assert_eq!(put_on_screen(&mut d, &open), [1]);
    assert_eq!(d.outputs[0].showing, Showing::Blurred);

    // Half way through, an eighth of the way is left.
    let mid = d.on_frame(1, 1125 * MS);
    assert_eq!(pixels(shown(&mid[0]))[0], 72);
    assert_eq!(put_on_screen(&mut d, &mid), [1]);

    // Closing now starts from there.
    let close = d.set_overview_open(false, 1125 * MS);
    assert_eq!(pixels(shown(&close[0]))[0], 72);
    assert!(put_on_screen(&mut d, &close).is_empty()); // a callback is outstanding

    // Closing plays the curve backward: slow at first.
    let mid = d.on_frame(1, 1250 * MS);
    assert_eq!(pixels(shown(&mid[0]))[0], 79);
    assert_eq!(put_on_screen(&mut d, &mid), [1]);

    let last = d.on_frame(1, 1375 * MS);
    assert_eq!(pixels(shown(&last[0]))[0], 128);
    assert!(matches!(shown(&last[0]).frame, Frame::Fade { t: ONE, .. }));
    assert!(put_on_screen(&mut d, &last).is_empty());
    assert!(d.outputs[0].transition.is_none());
    assert!(d.on_frame(1, 1400 * MS).is_empty());
}

#[test]
fn a_zero_transition_snaps() {
    let mut c = config(&[(DEFAULT_SLOT, table(None, Some("#808080")))]);
    c.transition_ms = 0;
    let (mut d, acts) = with_output(c);
    put_on_screen(&mut d, &acts);
    let open = d.set_overview_open(true, 0);
    assert!(matches!(shown(&open[0]).frame, Frame::Whole(_)));
    assert_eq!(pixels(shown(&open[0]))[0], 64);
    assert!(d.outputs[0].transition.is_none());
}

#[test]
fn disabled_blur_never_draws() {
    let mut c = config(&[(DEFAULT_SLOT, table(None, Some("#808080")))]);
    c.blur = BlurConfig { enable: false, ..BlurConfig::default() };
    let (mut d, acts) = with_output(c);
    put_on_screen(&mut d, &acts);
    assert!(d.set_overview_open(true, 0).is_empty());
    assert!(d.overview_open);
    assert!(!d.live_status().blur.active);
    assert!(d.set_overview_open(false, 0).is_empty());
}

#[test]
fn being_told_twice_changes_nothing() {
    let (mut d, _) = with_output(Config::default());
    assert_eq!(d.set_overview_open(true, 0).len(), 1);
    assert!(d.set_overview_open(true, 1).is_empty());
}

#[test]
fn a_render_during_the_overview_appears_blurred() {
    let (mut d, acts) = with_output(config(&[(DEFAULT_SLOT, table(Some("/w.jpg"), None))]));
    assert!(d.set_overview_open(true, 0).is_empty()); // nothing composed yet
    let done = d.apply_rendered(finished(job(&acts[1]), 9, 4), 0);
    assert_eq!(pixels(shown(&done[0])), [4; 8]);
    assert_eq!(d.outputs[0].showing, Showing::Blurred);
}

#[test]
fn niri_events_drive_the_overview() {
    let (mut d, _) = with_output(Config::default());
    d.on_niri_connected();
    assert!(d.niri_connected);
    assert!(d.handle_niri_line(b"{ garbage", 0).is_empty());
    let open = br#"{"OverviewOpenedOrClosed":{"is_open":true}}"#;
    assert_eq!(d.handle_niri_line(open, 0).len(), 1);
    assert!(d.overview_open);

    let (acts, wait) = d.niri_lost(0);
    assert_eq!(acts.len(), 1);
    assert!(!d.overview_open && !d.niri_connected);
    assert_eq!(wait, 250);
    assert_eq!(d.schedule_niri_reconnect(), 500);
    assert_eq!(d.schedule_niri_reconnect(), 1000);
    d.on_niri_connected();
    assert_eq!(d.schedule_niri_reconnect(), 250);
    d.on_niri_connected();
    assert_eq!(d.on_niri_unusable(), 250);
    assert!(!d.niri_connected);
    assert_eq!(d.niri_backoff_ms, 500);
}

#[test]
fn a_set_waits_for_every_output_it_is_for() {
    let mut d = daemon(config(&[("DP-2", table(None, None))]));
    for (id, name) in [(1, "DP-1"), (2, "DP-2"), (3, "DP-3")] {
        d.connect_output(id, Some(name.to_string()), 0, true);
        let acts = d.on_layer_configure(id, 1, 1, 0);
        put_on_screen(&mut d, &acts);
    }
    let (how, acts) = d.set_wallpaper(set(None, Some("/a.png"), None), 0);
    assert_eq!(how, SetDispatch::Deferred(1));
    assert!(matches!(acts[0], Action::Save));
    // A job for each of DP-1 and DP-3, and no frame; DP-2 has its own table.
    assert_eq!(acts.len(), 3);
    let (a, b) = (job(&acts[1]), job(&acts[2]));
    assert_eq!((a.output.as_str(), b.output.as_str()), ("DP-1", "DP-3"));
    assert_eq!((a.token, b.token), (1, 1));
    assert!(a.fade);
    assert!(d.attach_client(1, 77).is_empty());

    let first = d.apply_rendered(failed(a, "torn"), 0);
    assert!(first.is_empty());
    assert_eq!(d.outputs[0].status, PaintStatus::Failed("torn".to_string()));

    let last = d.apply_rendered(finished(b, 5, 5), 0);
    match &last[..] {
        [Action::Show(c), Action::Answer { client: 77, reply }] => {
            assert_eq!(c.id, 3);
            assert_eq!(*reply, WireReply::err("DP-1: torn".to_string()));
        }
        other => panic!("{other:?}"),
    }
    // It is answered only once.
    assert!(d.pending_sets.is_empty());
    assert!(d.attach_client(1, 77).is_empty());
}

#[test]
fn several_failures_are_joined() {
    let mut d = daemon(Config::default());
    for (id, name) in [(1, "A"), (2, "B")] {
        d.connect_output(id, Some(name.to_string()), 0, true);
        d.on_layer_configure(id, 1, 1, 0);
    }
    let (_, acts) = d.set_wallpaper(set(None, Some("/a.png"), None), 0);
    d.attach_client(1, 5);
    let jobs: Vec<&Job> = acts
        .iter()
        .filter_map(|a| match a {
            Action::Render(j) => Some(j),
            _ => None,
        })
        .collect();
    assert!(d.apply_rendered(failed(jobs[0], "x"), 0).is_empty());
    match &d.apply_rendered(failed(jobs[1], "y"), 0)[..] {
        [Action::Answer { reply, .. }] => {
            assert_eq!(*reply, WireReply::err("A: x; B: y".to_string()));
        }
        other => panic!("{other:?}"),
    }
}

#[test]
fn a_vanished_output_does_not_hold_up_the_reply() {
    let (mut d, _) = with_output(Config::default());
    let (_, acts) = d.set_wallpaper(set(None, Some("/a.png"), None), 0);
    d.attach_client(1, 5);
    let mut r = finished(job(acts.last().unwrap()), 1, 1);
    r.output = "elsewhere".to_string();
    match &d.apply_rendered(r, 0)[..] {
        [Action::Answer { client: 5, reply }] => assert_eq!(*reply, WireReply::ok_empty()),
        other => panic!("{other:?}"),
    }
}

#[test]
fn a_colour_set_is_answered_when_the_client_is_attached() {
    let (mut d, acts) = with_output(Config::default());
    put_on_screen(&mut d, &acts);
    let (how, acts) = d.set_wallpaper(set(Some("eDP-1"), None, Some("#ffffff")), 0);
    assert_eq!(how, SetDispatch::Deferred(1));
    assert_eq!(acts.len(), 2);
    assert!(matches!(shown(&acts[1]).frame, Frame::Fade { t: 0, .. }));
    match &d.attach_client(1, 3)[..] {
        [Action::Answer { client: 3, reply }] => assert_eq!(*reply, WireReply::ok_empty()),
        other => panic!("{other:?}"),
    }
}

#[test]
fn an_abandoned_set_is_never_answered() {
    let (mut d, _) = with_output(Config::default());
    let (_, acts) = d.set_wallpaper(set(None, Some("/a.png"), None), 0);
    d.abandon_set(1);
    let done = d.apply_rendered(finished(job(acts.last().unwrap()), 1, 1), 0);
    assert_eq!(done.len(), 1);
    shown(&done[0]);
}

#[test]
fn no_fade_snaps() {
    let (mut d, acts) = with_output(Config::default());
    put_on_screen(&mut d, &acts);
    let req = SetRequest { fade: false, ..set(None, None, Some("#ffffff")) };
    let (_, acts) = d.set_wallpaper(req, 0);
    assert!(matches!(shown(&acts[1]).frame, Frame::Whole(_)));
    let req = SetRequest { fade: false, ..set(None, Some("/x.png"), None) };
    let (_, acts) = d.set_wallpaper(req, 0);
    assert!(!job(acts.last().unwrap()).fade);
}

#[test]
fn of_two_renders_the_later_one_wins() {
    let (mut d, _) = with_output(Config::default());
    let (_, a) = d.set_wallpaper(set(None, Some("/a.png"), None), 0);
    let (_, b) = d.set_wallpaper(set(None, Some("/b.png"), None), 0);
    let (a, b) = (job(a.last().unwrap()), job(b.last().unwrap()));
    assert_eq!((a.path.as_str(), b.path.as_str()), ("/a.png", "/b.png"));
    let shown_b = d.apply_rendered(finished(b, 2, 2), 0);
    assert_eq!(shown_b.len(), 1);
    // The stale one changes nothing, but its client still hears.
    d.attach_client(a.token, 8);
    match &d.apply_rendered(finished(a, 1, 1), 0)[..] {
        [Action::Answer { client: 8, .. }] => {}
        other => panic!("{other:?}"),
    }
    assert_eq!(*d.outputs[0].current_displayed(300 * MS), [2; 8]);
}

#[test]
fn a_set_for_an_absent_output_is_stored() {
    let mut d = daemon(Config::default());
    let (how, acts) = d.set_wallpaper(set(Some("DP-9"), None, Some("#010203")), 0);
    assert_eq!(acts.len(), 1);
    assert_eq!(
        how,
        SetDispatch::Now(WireReply::ok(ReplyData::Note(
            "stored; DP-9 is not currently connected".to_string()
        )))
    );
    let (how, _) = d.set_wallpaper(set(None, None, Some("#ffffff")), 0);
    assert_eq!(
        how,
        SetDispatch::Now(WireReply::ok(ReplyData::Note(
            "stored; no outputs are currently connected".to_string()
        )))
    );
    let s = d.live_status();
    assert_eq!(s.outputs.len(), 1);
    assert_eq!(s.outputs[0].name, "DP-9");
    assert_eq!(s.outputs[0].logical, None);
    assert!(s.outputs[0].overridden);
    // It applies when the output appears.
    d.connect_output(4, Some("DP-9".to_string()), 0, true);
    assert_eq!(d.outputs[0].resolved.color, Color { r: 1, g: 2, b: 3, a: 255 });
}

#[test]
fn a_passing_set_is_gone_after_a_reload() {
    let (mut d, acts) = with_output(Config::default());
    put_on_screen(&mut d, &acts);
    let req = SetRequest { persist: false, ..set(None, None, Some("#ffffff")) };
    let (_, acts) = d.set_wallpaper(req, 0);
    assert_eq!(acts.len(), 1); // nothing to save
    assert!(d.state.is_empty());
    assert_eq!(d.outputs[0].resolved.color, Color { r: 255, g: 255, b: 255, a: 255 });
    let (changed, acts) = d.reload_config(Config::default(), State::default(), half(), 0);
    assert_eq!((changed, acts.len()), (1, 1));
    assert_eq!(d.outputs[0].resolved.color, Color::black());
}

#[test]
fn a_remembered_set_survives_a_reload() {
    let (mut d, acts) = with_output(Config::default());
    put_on_screen(&mut d, &acts);
    d.set_wallpaper(set(None, None, Some("#ffffff")), 0);
    assert!(!d.state.is_empty());
    let saved = d.state.clone();
    let (changed, acts) = d.reload_config(Config::default(), saved, half(), 0);
    assert_eq!((changed, acts.len()), (0, 0));
    // A reset reads no overrides at all.
    let (changed, _) = d.reload_config(Config::default(), State::default(), half(), 0);
    assert_eq!(changed, 1);
    assert_eq!(d.config, Config::default());
}

#[test]
fn a_reload_repaints_only_what_changed() {
    let mut d = daemon(Config::default());
    for (id, name) in [(1, "A"), (2, "B")] {
        d.connect_output(id, Some(name.to_string()), 0, true);
        let acts = d.on_layer_configure(id, 1, 1, 0);
        put_on_screen(&mut d, &acts);
    }
    let next = config(&[("B", table(None, Some("#ffffff")))]);
    let (changed, acts) = d.reload_config(next, State::default(), half(), 0);
    assert_eq!(changed, 1);
    assert_eq!(acts.len(), 1);
    assert_eq!(shown(&acts[0]).id, 2);
    assert!(matches!(shown(&acts[0]).frame, Frame::Fade { .. }));
}

#[test]
fn requests_are_dispatched() {
    let mut d = daemon(Config::default());
    let empty = Request::SetWallpaper {
        path: None,
        output: None,
        mode: Some(Mode::Fit),
        color: None,
        fade: true,
        persist: true,
    };
    let (r, acts) = d.dispatch(empty, 0);
    assert_eq!(
        r,
        Reply::Now(WireReply::err("provide an image path or --color".to_string()))
    );
    assert!(acts.is_empty() && d.state.is_empty());
    assert_eq!(d.dispatch(Request::Reload, 0).0, Reply::Reread { reset: false });
    assert_eq!(d.dispatch(Request::Reset, 0).0, Reply::Reread { reset: true });
    assert_eq!(d.dispatch(Request::Quit, 0).0, Reply::Shutdown(WireReply::ok_empty()));
    assert!(matches!(d.dispatch(Request::Version, 0).0, Reply::Now(WireReply { ok: true, .. })));
    match d.dispatch(Request::Get, 0).0 {
        Reply::Now(WireReply { data: Some(ReplyData::Status(s)), .. }) => assert_eq!(s.pid, 7),
        other => panic!("{other:?}"),
    }
    let colour = Request::SetWallpaper {
        path: None,
        output: Some("X".to_string()),
        mode: None,
        color: Some(Color::black()),
        fade: true,
        persist: true,
    };
    let (r, acts) = d.dispatch(colour, 0);
    assert!(matches!(r, Reply::Now(_)));
    assert!(matches!(acts[..], [Action::Save]));
}

#[test]
fn a_failed_reread_changes_nothing() {
    let mut d = daemon(config(&[("A", table(None, None))]));
    let (reply, acts) = d.finish_reload(Err("bad toml".to_string()), 0);
    assert_eq!(reply, WireReply::err("bad toml".to_string()));
    assert!(acts.is_empty());
    assert!(d.config.output.contains_key("A"));
    let (reply, _) = d.finish_reload(Ok((Config::default(), State::default(), half())), 0);
    assert_eq!(reply, WireReply::ok(ReplyData::Changed(0)));
    assert!(!d.config.output.contains_key("A"));
}

#[test]
fn the_report_is_sorted_and_complete() {
    let mut d = daemon(config(&[
        ("Z-absent", table(Some("/z.jpg"), None)),
        ("A-broken", table(Some("$NOPE"), None)),
        ("M-live", table(None, None)),
        (DEFAULT_SLOT, table(None, None)),
    ]));
    d.connect_output(1, Some("eDP-1".to_string()), 0, true);
    d.connect_output(2, Some("M-live".to_string()), 0, true);
    d.on_fractional_scale(2, 180, 0);
    let acts = d.on_layer_configure(2, 4, 2, 0);
    put_on_screen(&mut d, &acts);
    let s = d.live_status();
    let names: Vec<_> = s.outputs.iter().map(|o| o.name.as_str()).collect();
    assert_eq!(names, ["M-live", "Z-absent", "eDP-1"]);
    assert!(s.outputs[0].loaded && s.outputs[0].overridden);
    let l = s.outputs[0].logical.unwrap();
    assert_eq!((l.width, l.height, l.scale_120), (4, 2, 180));
    assert_eq!(s.outputs[1].source, Source::Image { path: "/z.jpg".to_string() });
    assert!(!s.outputs[2].overridden && !s.outputs[2].loaded);
}

#[test]
fn stored_paths_are_expanded_when_resolved() {
    let env = Env::new(vec![("HOME".to_string(), "/h".to_string())]);
    let mut d = DaemonState::new(1, env, base(), Config::default(), State::default(), half());
    d.connect_output(1, Some("A".to_string()), 0, true);
    d.on_layer_configure(1, 1, 1, 0);
    let (_, acts) = d.set_wallpaper(set(Some("A"), Some("~/w.png"), None), 0);
    assert_eq!(job(acts.last().unwrap()).path, "/h/w.png");
}

/// A daemon whose output shows an image of bytes 9, or 4 when blurred.
fn with_image() -> DaemonState {
    let (mut d, acts) = with_output(config(&[(DEFAULT_SLOT, table(Some("/w.jpg"), None))]));
    put_on_screen(&mut d, &acts);
    let done = d.apply_rendered(finished(job(&acts[1]), 9, 4), 0);
    put_on_screen(&mut d, &done);
    d
}

#[test]
fn a_failed_set_keeps_the_previous_wallpaper() {
    let mut d = with_image();
    let (_, acts) = d.set_wallpaper(set(None, Some("/b.png"), None), 10 * MS);
    assert!(matches!(acts[..], [Action::Save, Action::Render(_)]));
    assert!(!d.live_status().outputs[0].loaded);
    d.attach_client(1, 5);
    match &d.apply_rendered(failed(job(&acts[1]), "torn"), 20 * MS)[..] {
        [Action::Answer { client: 5, reply }] => {
            assert_eq!(*reply, WireReply::err("eDP-1: torn".to_string()));
        }
        other => panic!("{other:?}"),
    }
    assert_eq!(*d.outputs[0].current_displayed(30 * MS), [9; 8]);
    let s = d.live_status();
    assert_eq!(s.outputs[0].error.as_deref(), Some("torn"));
    assert!(!s.outputs[0].loaded);

    // The old picture still blurs, and the error stays until a picture comes.
    let open = d.set_overview_open(true, 1000 * MS);
    put_on_screen(&mut d, &open);
    let last = d.on_frame(1, 2000 * MS);
    assert_eq!(pixels(shown(&last[0])), [4; 8]);
    put_on_screen(&mut d, &last);
    assert_eq!(d.live_status().outputs[0].error.as_deref(), Some("torn"));
    let (_, acts) = d.set_wallpaper(set(None, Some("/b.png"), None), 2100 * MS);
    let done = d.apply_rendered(finished(job(&acts[1]), 7, 7), 2200 * MS);
    put_on_screen(&mut d, &done);
    let s = d.live_status();
    assert_eq!(s.outputs[0].error, None);
    assert!(s.outputs[0].loaded);
}

#[test]
fn a_failed_reload_keeps_the_previous_wallpaper() {
    let mut d = with_image();
    let next = config(&[(DEFAULT_SLOT, table(Some("/gone.png"), None))]);
    let (changed, acts) = d.reload_config(next, State::default(), half(), 0);
    assert_eq!(changed, 1);
    assert!(matches!(acts[..], [Action::Render(_)]));
    assert!(d.apply_rendered(failed(job(&acts[0]), "gone"), 0).is_empty());
    assert_eq!(*d.outputs[0].current_displayed(MS), [9; 8]);
    assert_eq!(d.outputs[0].status, PaintStatus::Failed("gone".to_string()));
}

#[test]
fn a_stale_failure_marks_nothing() {
    let mut d = with_image();
    let (_, a) = d.set_wallpaper(set(None, Some("/a.png"), None), 0);
    let (_, b) = d.set_wallpaper(set(None, Some("/b.png"), None), 0);
    let (a, b) = (job(a.last().unwrap()), job(b.last().unwrap()));
    let done = d.apply_rendered(finished(b, 2, 2), 0);
    put_on_screen(&mut d, &done);
    d.attach_client(a.token, 8);
    match &d.apply_rendered(failed(a, "torn"), 0)[..] {
        [Action::Answer { client: 8, reply }] => {
            assert_eq!(*reply, WireReply::err("eDP-1: torn".to_string()));
        }
        other => panic!("{other:?}"),
    }
    assert_eq!(d.outputs[0].status, PaintStatus::Painted);
    let s = d.live_status();
    assert_eq!(s.outputs[0].error, None);
    assert!(s.outputs[0].loaded);
}

#[test]
fn a_set_fades_from_the_old_picture() {
    let mut d = with_image();
    let (_, acts) = d.set_wallpaper(set(None, Some("/b.png"), None), 1000 * MS);
    let first = d.apply_rendered(finished(job(&acts[1]), 109, 0), 1000 * MS);
    // The first frame is the old picture, and half way through an eighth is left.
    assert_eq!(pixels(shown(&first[0])), [9; 8]);
    put_on_screen(&mut d, &first);
    let mid = d.on_frame(1, 1125 * MS);
    assert_eq!(pixels(shown(&mid[0])), [97; 8]);
    // Another picture in mid-fade starts from there.
    let (_, acts) = d.set_wallpaper(set(None, Some("/c.png"), None), 1125 * MS);
    let turn = d.apply_rendered(finished(job(&acts[1]), 0, 0), 1125 * MS);
    assert_eq!(pixels(shown(&turn[0])), [97; 8]);
}

#[test]
fn a_colour_fades_from_the_old_picture() {
    let mut d = with_image();
    let (_, acts) = d.set_wallpaper(set(None, None, Some("#ffffff")), 0);
    // The image that is configured stays, over the new colour.
    assert!(matches!(acts[..], [Action::Save, Action::Render(_)]));
    assert_eq!(job(&acts[1]).path, "/w.jpg");
    assert_eq!(job(&acts[1]).fill, Color { r: 255, g: 255, b: 255, a: 255 });

    let (mut d, acts) = with_output(config(&[(DEFAULT_SLOT, table(None, Some("#080808")))]));
    put_on_screen(&mut d, &acts);
    let (_, acts) = d.set_wallpaper(set(None, None, Some("#101010")), 0);
    assert_eq!(pixels(shown(&acts[1])), [8, 8, 8, 255, 8, 8, 8, 255]);
    put_on_screen(&mut d, &acts);
    let last = d.on_frame(1, 250 * MS);
    assert_eq!(pixels(shown(&last[0])), [16, 16, 16, 255, 16, 16, 16, 255]);
}

#[test]
fn an_image_that_is_set_fades_from_its_stand_in() {
    let (mut d, acts) = with_output(config(&[(DEFAULT_SLOT, table(None, None))]));
    assert_eq!(acts.len(), 1);
    let (_, acts) = d.set_wallpaper(set(None, Some("/a.png"), Some("#0a0a0a")), 0);
    // Nothing went on screen yet, so the fill colour stands in.
    assert_eq!(pixels(shown(&acts[1])), [10, 10, 10, 255, 10, 10, 10, 255]);
    put_on_screen(&mut d, &acts);
    let first = d.apply_rendered(finished(job(&acts[2]), 200, 200), 0);
    assert_eq!(pixels(shown(&first[0])), [10, 10, 10, 255, 10, 10, 10, 255]);
}

#[test]
fn relative_paths_start_at_the_base_directory() {
    let mut d = daemon(config(&[("B", table(Some("pics/b.png"), None))]));
    d.connect_output(1, Some("A".to_string()), 0, true);
    d.on_layer_configure(1, 1, 1, 0);
    let (_, acts) = d.set_wallpaper(set(Some("A"), Some("w.png"), None), 0);
    assert_eq!(job(acts.last().unwrap()).path, "/base/w.png");
    let s = d.live_status();
    assert_eq!(s.outputs[0].source, Source::Image { path: "/base/w.png".to_string() });
    assert_eq!(s.outputs[1].source, Source::Image { path: "/base/pics/b.png".to_string() });
}
