//! The daemon as clients see it: the status report and the dispatch of
//! requests.

use std::collections::HashMap;

use vstd::prelude::*;

use crate::color::DimSteps;
use crate::config;
use crate::config::{Config, DEFAULT_SLOT};
use crate::daemon::control;
use crate::daemon::control::{Action, DaemonState};
use crate::daemon::ipc;
use crate::daemon::ipc::{version_reply, Reply, SetDispatch, SetRequest};
use crate::daemon::niri::BACKOFF_MIN_MS;
use crate::daemon::output;
use crate::daemon::output::{OutputEntry, PaintStatus};
use crate::daemon::status;
use crate::daemon::status::{blur_status, idle_status, insert_row};
use crate::daemon::render::Size;
use crate::daemon::wallpaper;
use crate::daemon::worker;
use crate::paths;
use crate::paths::{BaseDir, Env};
use crate::proto;
use crate::proto::{LogicalOutput, OutputStatus, ReplyData, Request, Source, Status, WireReply};
use crate::slots;
use crate::state;
use crate::state::{effective, State};
use crate::text;
use crate::text::str_eq;
use crate::VERSION;

verus! {

// ------------------------------------------------------------------- model

/// The row of a connected output.
pub open spec fn live_row(e: output::EntrySpec, overridden: bool) -> proto::RowSpec {
    proto::RowSpec {
        name: e.name,
        logical: match e.logical {
            Some((width, height)) => Some(
                LogicalOutput { width, height, scale_120: e.scale_120 },
            ),
            None => None,
        },
        source: proto::source_of(e.resolved.path),
        mode: e.resolved.mode,
        color: e.resolved.color,
        overridden,
        loaded: e.status == output::StatusSpec::Painted,
        error: match e.status {
            output::StatusSpec::Failed(m) => Some(m),
            _ => None,
        },
    }
}

/// The rows of the first `n` outputs.
pub open spec fn live_rows(m: control::DaemonSpec, n: nat) -> Seq<proto::RowSpec>
    decreases n,
{
    if n == 0 {
        Seq::empty()
    } else {
        let e = m.outputs[n - 1];
        live_rows(m, (n - 1) as nat).push(
            live_row(e, m.config.output.contains_key(e.name)),
        )
    }
}

/// Whether an output of this name is connected.
pub open spec fn is_connected(m: control::DaemonSpec, name: Seq<char>) -> bool {
    exists|i: int| 0 <= i < m.outputs.len() && (#[trigger] m.outputs[i]).name == name
}

/// The rows of those of `names` that have a table of their own but no output,
/// and whose wallpaper can be resolved.
pub open spec fn absent_rows(m: control::DaemonSpec, names: Seq<Seq<char>>) -> Seq<proto::RowSpec>
    decreases names.len(),
{
    if names.len() == 0 {
        Seq::empty()
    } else {
        let before = absent_rows(m, names.drop_last());
        let name = names.last();
        if name == DEFAULT_SLOT@ || is_connected(m, name) {
            before
        } else {
            match m.resolution(name) {
                Ok(w) => before.push(status::idle_row(name, w, true)),
                Err(_) => before,
            }
        }
    }
}

/// The status report: connected outputs and configured slots without one, in
/// name order.
pub open spec fn reported(m: control::DaemonSpec) -> proto::StatusSpec {
    proto::StatusSpec {
        pid: m.pid,
        niri_connected: m.niri_connected,
        blur: status::blur_report(m.config.blur, m.overview_open),
        transition_ms: m.config.transition_ms,
        outputs: status::by_name(
            live_rows(m, m.outputs.len()) + absent_rows(
                m,
                slots::in_order(m.config.output.dom()),
            ),
        ),
    }
}

/// A daemon that has just started.
pub open spec fn started(
    pid: u32,
    env: Map<Seq<char>, Seq<char>>,
    base: Seq<char>,
    disk: config::ConfigSpec,
    overrides: Map<Seq<char>, config::OutputSpec>,
    dim: Seq<u8>,
) -> control::DaemonSpec {
    control::DaemonSpec {
        pid,
        env,
        base,
        config: state::effective_model(disk, overrides),
        disk_config: disk,
        overrides,
        dim,
        outputs: Seq::empty(),
        overview_open: false,
        niri_connected: false,
        niri_backoff_ms: BACKOFF_MIN_MS,
        next_token: 1,
        pending: Map::empty(),
    }
}

/// The `set` that a request asks for.
pub open spec fn set_of(req: Request) -> ipc::SetSpec {
    match req {
        Request::SetWallpaper { path, output, mode, color, fade, persist } => ipc::SetSpec {
            slot: text::opt_view(output),
            patch: config::OutputSpec { path: text::opt_view(path), mode, color },
            fade,
            persist,
        },
        _ => arbitrary(),
    }
}

/// What a request does and how it is answered.
pub open spec fn dispatched(m: control::DaemonSpec, req: Request, now: u64) -> (
    control::DaemonSpec,
    Seq<control::ActionSpec>,
    ipc::AnswerSpec,
) {
    let none = Seq::<control::ActionSpec>::empty();
    match req {
        Request::SetWallpaper { path, color, .. } => if path is None && color is None {
            (m, none, ipc::AnswerSpec::Now(proto::refused("provide an image path or --color"@)))
        } else {
            let (after, acts, how) = wallpaper::wallpaper_set(m, set_of(req), now);
            match how {
                ipc::SetDispatchSpec::Now(r) => (after, acts, ipc::AnswerSpec::Now(r)),
                ipc::SetDispatchSpec::Deferred(t) => (after, acts, ipc::AnswerSpec::Deferred(t)),
            }
        },
        Request::Get => (
            m,
            none,
            ipc::AnswerSpec::Now(proto::succeeded(proto::DataSpec::Status(reported(m)))),
        ),
        Request::Reload => (m, none, ipc::AnswerSpec::Reread { reset: false }),
        Request::Reset => (m, none, ipc::AnswerSpec::Reread { reset: true }),
        Request::Quit => (m, none, ipc::AnswerSpec::Shutdown(proto::acknowledged())),
        Request::Version => (
            m,
            none,
            ipc::AnswerSpec::Now(proto::succeeded(proto::DataSpec::Version(VERSION@))),
        ),
    }
}

// -------------------------------------------------------------------- code

/// The row of a connected output.
fn live_output(e: &OutputEntry, overridden: bool) -> (r: OutputStatus)
    ensures
        r@ == live_row(e@, overridden),
        r.name@ == e.name@,
        r.mode == e.resolved.mode,
        r.color == e.resolved.color,
        r.overridden == overridden,
        r.loaded == (e.status is Painted),
        r.error is Some <==> e.status is Failed,
        match (e.resolved.path, r.source) {
            (Some(p), Source::Image { path }) => path@ == p@,
            (None, Source::Color) => true,
            _ => false,
        },
        match (e.logical, r.logical) {
            (Some((width, height)), Some(l)) => {
                &&& l.width == width
                &&& l.height == height
                &&& l.scale_120 == e.scale_120
            },
            (None, None) => true,
            _ => false,
        },
{
    let logical = match e.logical {
        Some((width, height)) => Some(LogicalOutput { width, height, scale_120: e.scale_120 }),
        None => None,
    };
    let (loaded, error) = match &e.status {
        PaintStatus::Pending => (false, None),
        PaintStatus::Painted => (true, None),
        PaintStatus::Failed(m) => (false, Some(m.clone())),
    };
    OutputStatus {
        name: e.name.clone(),
        logical,
        source: Source::of(&e.resolved.path),
        mode: e.resolved.mode,
        color: e.resolved.color,
        overridden,
        loaded,
        error,
    }
}

impl DaemonState {
    /// A daemon that has just started: the configuration file overlaid with the
    /// overrides, no outputs yet, the overview closed, niri not connected.
    pub fn new(
        pid: u32,
        env: Env,
        base: BaseDir,
        disk_config: Config,
        state: State,
        dim: DimSteps,
    ) -> (r: DaemonState)
        ensures
            r@ == started(pid, env@, base@, disk_config@, state@, dim@),
            r@.wf(),
    {
        proof {
            use_type_invariant(&base);
            paths::lemma_base_is_absolute(base);
        }
        let config = effective(&disk_config, &state);
        let outputs: Vec<OutputEntry> = Vec::new();
        assert(control::entries(outputs@) =~= Seq::empty());
        let pending_sets = HashMap::new();
        assert(control::pending_view(pending_sets@) =~= Map::empty());
        DaemonState {
            pid,
            env,
            base,
            config,
            disk_config,
            state,
            dim,
            outputs,
            overview_open: false,
            niri_connected: false,
            niri_backoff_ms: BACKOFF_MIN_MS,
            next_token: 1,
            pending_sets,
        }
    }

    /// Whether an output of this name is connected.
    fn connected(&self, name: &str) -> (r: bool)
        ensures
            r == is_connected(self@, name@),
    {
        let mut i: usize = 0;
        while i < self.outputs.len()
            invariant
                i <= self.outputs@.len(),
                forall|j: int| 0 <= j < i ==> (#[trigger] self@.outputs[j]).name != name@,
            decreases self.outputs@.len() - i,
        {
            if str_eq(self.outputs[i].name.as_str(), name) {
                assert(self@.outputs[i as int].name == name@);
                return true;
            }
            i += 1;
        }
        false
    }

    /// The status report: connected outputs and configured slots without one.
    pub fn live_status(&self) -> (r: Status)
        ensures
            r@ == reported(self@),
    {
        let mut outputs: Vec<OutputStatus> = Vec::new();
        assert(proto::rows(outputs@) =~= Seq::empty());
        let mut i: usize = 0;
        while i < self.outputs.len()
            invariant
                i <= self.outputs@.len(),
                proto::rows(outputs@) == status::by_name(live_rows(self@, i as nat)),
            decreases self.outputs@.len() - i,
        {
            let e = &self.outputs[i];
            let row = live_output(e, self.config.output.contains_key(e.name.as_str()));
            proof {
                let next = live_rows(self@, (i + 1) as nat);
                assert(self@.outputs[i as int] == e@);
                assert(next.last() == row@);
                assert(next.drop_last() =~= live_rows(self@, i as nat));
            }
            insert_row(&mut outputs, row);
            i += 1;
        }
        let ghost live = live_rows(self@, self@.outputs.len());
        let names = self.config.output.names();
        let ghost order = slots::views(names@);
        let mut k: usize = 0;
        assert(order.take(0) =~= Seq::empty());
        assert(live + absent_rows(self@, order.take(0)) =~= live);
        while k < names.len()
            invariant
                k <= names@.len(),
                order == slots::views(names@),
                proto::rows(outputs@) == status::by_name(
                    live + absent_rows(self@, order.take(k as int)),
                ),
            decreases names@.len() - k,
        {
            let ghost head = absent_rows(self@, order.take(k as int));
            proof {
                assert(order.take(k + 1).drop_last() =~= order.take(k as int));
                assert(order.take(k + 1).last() == names@[k as int]@);
            }
            let name = names[k].as_str();
            if !str_eq(name, DEFAULT_SLOT) && !self.connected(name) {
                if let Ok((w, _)) = self.config.resolve(name, &self.env, &self.base) {
                    let row = idle_status(name, &w, true);
                    proof {
                        let next = live + head.push(row@);
                        assert(next.last() == row@);
                        assert(next.drop_last() =~= live + head);
                    }
                    insert_row(&mut outputs, row);
                }
            }
            k += 1;
        }
        assert(order.take(k as int) =~= order);
        Status {
            pid: self.pid,
            niri_connected: self.niri_connected,
            blur: blur_status(&self.config.blur, self.overview_open),
            transition_ms: self.config.transition_ms,
            outputs,
        }
    }

    /// Carry out a request, as far as that needs no files.
    pub fn dispatch(&mut self, req: Request, now: u64) -> (r: (Reply, Vec<Action>))
        requires
            old(self)@.wf(),
            old(self)@.has_room(),
        ensures
            final(self)@ == dispatched(old(self)@, req, now).0,
            control::actions(r.1@) == dispatched(old(self)@, req, now).1,
            r.0@ == dispatched(old(self)@, req, now).2,
            final(self)@.wf(),
    {
        let none: Vec<Action> = Vec::new();
        assert(control::actions(none@) =~= Seq::empty());
        match req {
            Request::SetWallpaper { path, output, mode, color, fade, persist } => {
                if path.is_none() && color.is_none() {
                    let reply = WireReply::err("provide an image path or --color".to_string());
                    return (Reply::Now(reply), none);
                }
                let set = SetRequest { slot: output, path, mode, color, fade, persist };
                let (how, list) = self.set_wallpaper(set, now);
                match how {
                    SetDispatch::Now(r) => (Reply::Now(r), list),
                    SetDispatch::Deferred(t) => (Reply::Deferred(t), list),
                }
            },
            Request::Get => (Reply::Now(WireReply::ok(ReplyData::Status(self.live_status()))), none),
            Request::Reload => (Reply::Reread { reset: false }, none),
            Request::Reset => (Reply::Reread { reset: true }, none),
            Request::Quit => (Reply::Shutdown(WireReply::ok_empty()), none),
            Request::Version => (Reply::Now(version_reply()), none),
        }
    }

    /// Answer a `reload` or `reset` once the files have been read, or could not
    /// be: on failure everything stays as it was.
    pub fn finish_reload(&mut self, read: Result<(Config, State, DimSteps), String>, now: u64) -> (r: (
        WireReply,
        Vec<Action>,
    ))
        requires
            old(self)@.wf(),
            old(self)@.has_room(),
        ensures
            final(self)@.wf(),
            match read {
                Ok((disk, overrides, dim)) => {
                    let m = wallpaper::reread(old(self)@, disk@, overrides@, dim@);
                    let (after, acts, changed) = wallpaper::reloaded_upto(m, m.outputs.len(), now);
                    &&& final(self)@ == after
                    &&& control::actions(r.1@) == acts
                    &&& r.0@ == proto::succeeded(proto::DataSpec::Changed(changed as u64))
                },
                Err(e) => {
                    &&& final(self)@ == old(self)@
                    &&& r.1@.len() == 0
                    &&& r.0@ == proto::refused(e@)
                },
            },
    {
        match read {
            Ok((disk, overrides, dim)) => {
                let (changed, list) = self.reload_config(disk, overrides, dim, now);
                (WireReply::ok(ReplyData::Changed(changed)), list)
            },
            Err(e) => (WireReply::err(e), Vec::new()),
        }
    }
}

// -------------------------------------------------------------------- laws

/// A `set` without an image and without a colour is refused, and nothing
/// changes.
pub proof fn law_empty_set_is_refused(m: control::DaemonSpec, req: Request, now: u64)
    requires
        req matches Request::SetWallpaper { path, color, .. } && path is None && color is None,
    ensures
        dispatched(m, req, now).0 == m,
        dispatched(m, req, now).1.len() == 0,
        dispatched(m, req, now).2 == ipc::AnswerSpec::Now(
            proto::refused("provide an image path or --color"@),
        ),
{
}

/// Only a `set` changes anything by itself, and only a quit ends the daemon.
pub proof fn law_other_requests_only_look(m: control::DaemonSpec, req: Request, now: u64)
    ensures
        req !is SetWallpaper ==> dispatched(m, req, now).0 == m && dispatched(m, req, now).1.len()
            == 0,
        dispatched(m, req, now).2 is Shutdown <==> req is Quit,
        dispatched(m, req, now).2 is Deferred ==> req is SetWallpaper,
{
}

proof fn lemma_live_rows(m: control::DaemonSpec, n: nat)
    requires
        n <= m.outputs.len(),
    ensures
        live_rows(m, n).len() == n,
        forall|i: int|
            0 <= i < n ==> #[trigger] live_rows(m, n)[i] == live_row(
                m.outputs[i],
                m.config.output.contains_key(m.outputs[i].name),
            ),
    decreases n,
{
    if n > 0 {
        lemma_live_rows(m, (n - 1) as nat);
    }
}

proof fn lemma_absent_row(m: control::DaemonSpec, names: Seq<Seq<char>>, name: Seq<char>)
    requires
        names.contains(name),
        name != DEFAULT_SLOT@,
        !is_connected(m, name),
        m.resolution(name) is Ok,
    ensures
        absent_rows(m, names).contains(status::idle_row(name, m.resolution(name)->Ok_0, true)),
    decreases names.len(),
{
    let row = status::idle_row(name, m.resolution(name)->Ok_0, true);
    let before = absent_rows(m, names.drop_last());
    let rows = absent_rows(m, names);
    if names.last() == name {
        assert(rows == before.push(row));
        assert(rows[before.len() as int] == row);
    } else {
        let k = names.index_of(name);
        assert(names.drop_last()[k] == name);
        lemma_absent_row(m, names.drop_last(), name);
        let at = before.index_of(row);
        assert(before[at] == row);
        assert(rows[at] == row);
    }
}

proof fn lemma_sorted_contains(rows: Seq<proto::RowSpec>, row: proto::RowSpec)
    requires
        rows.contains(row),
    ensures
        status::by_name(rows).contains(row),
{
    broadcast use vstd::seq_lib::group_to_multiset_ensures;

    status::law_report_is_sorted_and_complete(rows);
    let sorted = status::by_name(rows);
    assert(rows.to_multiset().count(row) > 0);
    assert(sorted.to_multiset().count(row) > 0);
}

/// Every connected output is in the report.
pub proof fn law_report_lists_every_output(m: control::DaemonSpec, i: int)
    requires
        0 <= i < m.outputs.len(),
    ensures
        reported(m).outputs.contains(
            live_row(m.outputs[i], m.config.output.contains_key(m.outputs[i].name)),
        ),
        status::in_name_order(reported(m).outputs),
{
    let live = live_rows(m, m.outputs.len());
    let absent = absent_rows(m, slots::in_order(m.config.output.dom()));
    lemma_live_rows(m, m.outputs.len());
    let row = live_row(m.outputs[i], m.config.output.contains_key(m.outputs[i].name));
    assert((live + absent)[i] == row);
    lemma_sorted_contains(live + absent, row);
    status::law_report_is_sorted_and_complete(live + absent);
}

/// So is every connector that is configured but not there, if its wallpaper can
/// be resolved: as an override with nothing on screen.
pub proof fn law_report_lists_stored_slots(m: control::DaemonSpec, name: Seq<char>)
    requires
        m.config.output.dom().finite(),
        m.config.output.contains_key(name),
        name != DEFAULT_SLOT@,
        !is_connected(m, name),
        m.resolution(name) is Ok,
    ensures
        reported(m).outputs.contains(status::idle_row(name, m.resolution(name)->Ok_0, true)),
{
    let live = live_rows(m, m.outputs.len());
    let order = slots::in_order(m.config.output.dom());
    let absent = absent_rows(m, order);
    let row = status::idle_row(name, m.resolution(name)->Ok_0, true);
    slots::lemma_listing_exists(m.config.output.dom());
    assert(order.contains(name));
    lemma_absent_row(m, order, name);
    let at = absent.index_of(row);
    assert((live + absent)[live.len() + at] == row);
    lemma_sorted_contains(live + absent, row);
}

/// The report tells blur as active exactly while it shows: the overview is open
/// and blur enabled.
pub proof fn law_report_tells_blur(m: control::DaemonSpec)
    ensures
        reported(m).blur.active <==> m.scene().blurs(),
{
}

/// An output is reported as loaded only if its current wallpaper is rendered and
/// it has something on screen, and never together with an error.
pub proof fn law_loaded_means_the_current_picture(e: output::EntrySpec, overridden: bool)
    requires
        e.wf(),
        live_row(e, overridden).loaded,
    ensures
        e.ready,
        e.sharp is Some,
        e.painted is Some,
        live_row(e, overridden).error is None,
{
}

/// An output that is given another image is not reported as loaded, however many
/// frames of what it had, or of its fill colour, still go on screen.
pub proof fn law_new_image_is_not_loaded_yet(
    e: output::EntrySpec,
    w: config::ResolvedSpec,
    scene: output::Scene,
    dim: Seq<u8>,
    token: u64,
    instant: bool,
    now: u64,
    size: Size,
    settled: bool,
    overridden: bool,
)
    requires
        w.path is Some,
        paths::opt_path_key(e.resolved.path) != paths::opt_path_key(w.path),
    ensures
        ({
            let asked = output::repainted(
                wallpaper::retargeted(e, w),
                scene,
                dim,
                token,
                instant,
                now,
            ).0;
            let framed = output::committed(asked, size, settled).0;
            &&& !live_row(asked, overridden).loaded
            &&& !live_row(framed, overridden).loaded
            &&& live_row(framed, overridden).error is None
        }),
{
}

/// A `set` whose image cannot be rendered shows in the report: the output is not
/// loaded, and its error is the reason.
pub proof fn law_failed_set_is_reported(
    m: control::DaemonSpec,
    req: ipc::SetSpec,
    now: u64,
    j: int,
    r: worker::JobResultSpec,
    reported_at: u64,
    overridden: bool,
)
    requires
        m.wf(),
        m.has_room(),
        control::is_first_named(m.outputs, j, r.output),
        m.outputs[j].painted is Some,
        wallpaper::image_to_come(wallpaper::stored(m, req), m.outputs[j]),
        r.outcome is Err,
        r.generation == wallpaper::wallpaper_set(m, req, now).0.outputs[j].generation,
    ensures
        ({
            let after = wallpaper::wallpaper_set(m, req, now).0;
            let row = live_row(
                control::result_applied(after, r, reported_at).0.outputs[j],
                overridden,
            );
            &&& !row.loaded
            &&& row.error == Some(r.outcome->Err_0)
        }),
{
    wallpaper::law_failed_set_keeps_the_wallpaper(m, req, now, j, r, reported_at, reported_at);
}

/// Every image in the report has an absolute path.
pub proof fn law_reported_paths_are_absolute(m: control::DaemonSpec, k: int)
    requires
        m.wf(),
        0 <= k < reported(m).outputs.len(),
    ensures
        reported(m).outputs[k].source matches proto::SourceSpec::Image { path }
            ==> paths::is_absolute(path),
{
    let live = live_rows(m, m.outputs.len());
    let order = slots::in_order(m.config.output.dom());
    let absent = absent_rows(m, order);
    let all = live + absent;
    let row = reported(m).outputs[k];
    lemma_sorted_comes_from(all, row);
    let at = all.index_of(row);
    lemma_live_rows(m, m.outputs.len());
    if at < live.len() {
        assert(all[at] == live[at]);
        assert(m.outputs[at].wf());
    } else {
        assert(all[at] == absent[at - live.len()]);
        lemma_absent_paths(m, order, at - live.len());
    }
}

proof fn lemma_sorted_comes_from(rows: Seq<proto::RowSpec>, row: proto::RowSpec)
    requires
        status::by_name(rows).contains(row),
    ensures
        rows.contains(row),
{
    broadcast use vstd::seq_lib::group_to_multiset_ensures;

    status::law_report_is_sorted_and_complete(rows);
    let sorted = status::by_name(rows);
    assert(sorted.to_multiset().count(row) > 0);
    assert(rows.to_multiset().count(row) > 0);
}

proof fn lemma_absent_paths(m: control::DaemonSpec, names: Seq<Seq<char>>, k: int)
    requires
        paths::is_absolute(m.base),
        0 <= k < absent_rows(m, names).len(),
    ensures
        absent_rows(m, names)[k].source matches proto::SourceSpec::Image { path }
            ==> paths::is_absolute(path),
    decreases names.len(),
{
    let before = absent_rows(m, names.drop_last());
    if k < before.len() {
        lemma_absent_paths(m, names.drop_last(), k);
        assert(absent_rows(m, names)[k] == before[k]);
    } else {
        config::law_resolved_paths_are_absolute(m.config.output, names.last(), m.env, m.base);
    }
}

/// Every connected output has a row of its own in the report, which tells its
/// name, its logical size and scale, its wallpaper and how far that has come;
/// and whether it has a table of its own.
pub proof fn law_report_tells_each_output(m: control::DaemonSpec, i: int) -> (k: int)
    requires
        0 <= i < m.outputs.len(),
    ensures
        0 <= k < reported(m).outputs.len(),
        ({
            let e = m.outputs[i];
            let row = reported(m).outputs[k];
            &&& row.name == e.name
            &&& row.mode == e.resolved.mode
            &&& row.color == e.resolved.color
            &&& match e.resolved.path {
                Some(p) => row.source == (proto::SourceSpec::Image { path: p }),
                None => row.source is Color,
            }
            &&& match e.logical {
                Some((w, h)) => row.logical matches Some(l) && l.width == w && l.height == h
                    && l.scale_120 == e.scale_120,
                None => row.logical is None,
            }
            &&& row.overridden <==> m.config.output.contains_key(e.name)
            &&& row.loaded <==> e.status is Painted
            &&& match e.status {
                output::StatusSpec::Failed(reason) => row.error == Some(reason),
                _ => row.error is None,
            }
        }),
{
    law_report_lists_every_output(m, i);
    let row = live_row(m.outputs[i], m.config.output.contains_key(m.outputs[i].name));
    reported(m).outputs.index_of(row)
}

/// Every configured connector without an output has a row of its own, if its
/// wallpaper can be resolved: what it would show, marked as having a table, with
/// no geometry and nothing on screen.
pub proof fn law_report_tells_each_stored_slot(m: control::DaemonSpec, name: Seq<char>) -> (k: int)
    requires
        m.config.output.dom().finite(),
        m.config.output.contains_key(name),
        name != DEFAULT_SLOT@,
        forall|i: int| 0 <= i < m.outputs.len() ==> (#[trigger] m.outputs[i]).name != name,
        config::resolution(m.config.output, name, m.env, m.base) is Ok,
    ensures
        0 <= k < reported(m).outputs.len(),
        ({
            let w = config::resolution(m.config.output, name, m.env, m.base)->Ok_0;
            let row = reported(m).outputs[k];
            &&& row.name == name
            &&& row.mode == w.mode
            &&& row.color == w.color
            &&& match w.path {
                Some(p) => row.source == (proto::SourceSpec::Image { path: p }),
                None => row.source is Color,
            }
            &&& row.logical is None
            &&& row.overridden
            &&& !row.loaded
            &&& row.error is None
        }),
{
    law_report_lists_stored_slots(m, name);
    let row = status::idle_row(name, m.resolution(name)->Ok_0, true);
    reported(m).outputs.index_of(row)
}

/// Whether the report has a row for a configured slot that no output shows.
pub open spec fn is_listed_slot(m: control::DaemonSpec, name: Seq<char>) -> bool {
    &&& m.config.output.contains_key(name)
    &&& name != DEFAULT_SLOT@
    &&& forall|i: int| 0 <= i < m.outputs.len() ==> (#[trigger] m.outputs[i]).name != name
    &&& config::resolution(m.config.output, name, m.env, m.base) is Ok
}

proof fn lemma_absent_come_from(m: control::DaemonSpec, names: Seq<Seq<char>>, k: int)
    requires
        0 <= k < absent_rows(m, names).len(),
        forall|i: int| 0 <= i < names.len() ==> m.config.output.contains_key(#[trigger] names[i]),
    ensures
        is_listed_slot(m, absent_rows(m, names)[k].name),
    decreases names.len(),
{
    let before = absent_rows(m, names.drop_last());
    assert(names[names.len() - 1] == names.last());
    if k < before.len() {
        assert forall|i: int| 0 <= i < names.drop_last().len() implies m.config.output.contains_key(
            #[trigger] names.drop_last()[i],
        ) by {
            assert(names.drop_last()[i] == names[i]);
        }
        lemma_absent_come_from(m, names.drop_last(), k);
        assert(absent_rows(m, names)[k] == before[k]);
    }
}

proof fn lemma_absent_count(m: control::DaemonSpec, names: Seq<Seq<char>>)
    requires
        names.no_duplicates(),
        forall|i: int| 0 <= i < names.len() ==> m.config.output.contains_key(#[trigger] names[i]),
    ensures
        ({
            let slots = names.to_set().filter(|n: Seq<char>| is_listed_slot(m, n));
            &&& slots.finite()
            &&& absent_rows(m, names).len() == slots.len()
        }),
    decreases names.len(),
{
    let slots = names.to_set().filter(|n: Seq<char>| is_listed_slot(m, n));
    if names.len() == 0 {
        assert(slots =~= Set::empty());
    } else {
        let head = names.drop_last();
        let last = names.last();
        let fewer = head.to_set().filter(|n: Seq<char>| is_listed_slot(m, n));
        assert(names[names.len() - 1] == last);
        assert forall|i: int| 0 <= i < head.len() implies m.config.output.contains_key(
            #[trigger] head[i],
        ) by {
            assert(head[i] == names[i]);
        }
        lemma_absent_count(m, head);
        assert(!head.contains(last)) by {
            if head.contains(last) {
                let i = head.index_of(last);
                assert(names[i] == last);
            }
        }
        assert forall|n: Seq<char>| names.contains(n) <==> (head.contains(n) || n == last) by {
            if names.contains(n) && n != last {
                assert(head[names.index_of(n)] == n);
            }
            if head.contains(n) {
                assert(names[head.index_of(n)] == n);
            }
        }
        if is_listed_slot(m, last) {
            assert(!is_connected(m, last));
            assert(slots =~= fewer.insert(last));
            assert(absent_rows(m, names) == absent_rows(m, head).push(
                status::idle_row(last, m.resolution(last)->Ok_0, true),
            ));
        } else {
            assert(slots =~= fewer);
            assert(last == DEFAULT_SLOT@ || is_connected(m, last) || m.resolution(last) is Err);
        }
    }
}

/// The report has no other rows: each is that of a connected output or of a
/// configured slot without one, and there is one for each.
pub proof fn law_report_has_no_other_rows(m: control::DaemonSpec, k: int)
    requires
        m.config.output.dom().finite(),
        0 <= k < reported(m).outputs.len(),
    ensures
        is_listed_slot(m, reported(m).outputs[k].name) || exists|i: int|
            0 <= i < m.outputs.len() && (#[trigger] m.outputs[i]).name
                == reported(m).outputs[k].name,
        reported(m).outputs.len() == m.outputs.len() + m.config.output.dom().filter(
            |n: Seq<char>| is_listed_slot(m, n),
        ).len(),
{
    let live = live_rows(m, m.outputs.len());
    let order = slots::in_order(m.config.output.dom());
    let absent = absent_rows(m, order);
    let all = live + absent;
    let row = reported(m).outputs[k];
    slots::lemma_listing_exists(m.config.output.dom());
    assert(order.no_duplicates()) by {
        assert forall|i: int, j: int| 0 <= i < j < order.len() implies order[i] != order[j] by {
            slots::law_listing_is_sorted_and_complete(m.config.output.dom(), i, j);
        }
    }
    assert forall|i: int| 0 <= i < order.len() implies m.config.output.contains_key(
        #[trigger] order[i],
    ) by {
        assert(order.contains(order[i]));
    }
    lemma_sorted_comes_from(all, row);
    let at = all.index_of(row);
    lemma_live_rows(m, m.outputs.len());
    if at < live.len() {
        assert(all[at] == live[at]);
        assert(m.outputs[at].name == row.name);
    } else {
        assert(all[at] == absent[at - live.len()]);
        lemma_absent_come_from(m, order, at - live.len());
    }
    status::law_report_is_sorted_and_complete(all);
    lemma_absent_count(m, order);
    assert(order.to_set() =~= m.config.output.dom());
}

/// What the report says of the daemon itself is what the daemon has.
pub proof fn law_report_tells_the_settings(m: control::DaemonSpec)
    ensures
        reported(m).pid == m.pid,
        reported(m).niri_connected == m.niri_connected,
        reported(m).transition_ms == m.config.transition_ms,
        reported(m).blur.enable == m.config.blur.enable,
        reported(m).blur.radius == m.config.blur.radius,
        reported(m).blur.dim_bits == m.config.blur.dim_bits,
        reported(m).blur.active <==> m.overview_open && m.config.blur.enable,
{
}

/// A daemon starts with what it was given, and with nothing connected, nothing
/// pending and the overview closed.
pub proof fn law_daemon_starts_with_what_it_is_given(
    pid: u32,
    env: Map<Seq<char>, Seq<char>>,
    base: Seq<char>,
    disk: config::ConfigSpec,
    overrides: Map<Seq<char>, config::OutputSpec>,
    dim: Seq<u8>,
)
    ensures
        ({
            let m = started(pid, env, base, disk, overrides, dim);
            &&& m.pid == pid && m.env == env && m.base == base && m.dim == dim
            &&& m.disk_config == disk && m.overrides == overrides
            &&& m.config.transition_ms == disk.transition_ms && m.config.blur == disk.blur
            &&& m.outputs.len() == 0 && m.pending.dom() == Set::<u64>::empty()
            &&& !m.overview_open && !m.niri_connected
            &&& m.niri_backoff_ms == 250
            &&& m.next_token > 0
        }),
{
}

/// A `set` is carried out with what the request holds, and answered when its
/// token is done unless it could be answered at once.
pub proof fn law_set_request_is_carried_out(m: control::DaemonSpec, req: Request, now: u64)
    requires
        req matches Request::SetWallpaper { path, color, .. } && (path is Some || color is Some),
    ensures
        ({
            let asked = set_of(req);
            let (after, acts, how) = wallpaper::wallpaper_set(m, asked, now);
            &&& req matches Request::SetWallpaper { path, output, mode, color, fade, persist }
            &&& asked.slot is Some <==> output is Some
            &&& output is Some ==> asked.slot == Some(output->0@)
            &&& asked.patch.path is Some <==> path is Some
            &&& path is Some ==> asked.patch.path == Some(path->0@)
            &&& asked.patch.mode == mode
            &&& asked.patch.color == color
            &&& asked.fade == fade
            &&& asked.persist == persist
            &&& dispatched(m, req, now).0 == after
            &&& dispatched(m, req, now).1 == acts
            &&& match how {
                ipc::SetDispatchSpec::Now(r) => dispatched(m, req, now).2
                    == ipc::AnswerSpec::Now(r),
                ipc::SetDispatchSpec::Deferred(t) => dispatched(m, req, now).2
                    == ipc::AnswerSpec::Deferred(t),
            }
        }),
{
}

/// A `set` request that names a mode has every output that it is meant for
/// rendered in that mode, and one that names a colour over that colour.
pub proof fn law_set_request_is_rendered_as_asked(
    m: control::DaemonSpec,
    req: Request,
    now: u64,
    k: int,
)
    requires
        m.wf(),
        m.has_room(),
        req is SetWallpaper,
        0 <= k < dispatched(m, req, now).1.len(),
        dispatched(m, req, now).1[k] is Render,
        forall|i: int|
            0 <= i < m.outputs.len() ==> wallpaper::stored(m, set_of(req)).resolution(
                (#[trigger] m.outputs[i]).name,
            ) is Ok,
    ensures
        ({
            let job = dispatched(m, req, now).1[k]->Render_0;
            &&& req matches Request::SetWallpaper { path, mode, color, fade, .. }
            &&& mode is Some ==> job.mode == mode->0
            &&& color is Some ==> job.fill == color->0
            &&& path is Some ==> job.path == paths::absolute_path(
                m.base,
                paths::expanded(path->0@, m.env)->Ok_0,
            )
            &&& job.fade == fade
        }),
{
    let asked = set_of(req);
    let i = wallpaper::law_set_queues_only_its_own_jobs(m, asked, now, k);
    assert(wallpaper::stored(m, asked).resolution(m.outputs[i].name) is Ok);
    wallpaper::law_set_gives_what_was_asked(m, asked, now, i);
}

/// The other requests are answered with what they ask for: the report, the
/// version, or that the daemon quits; a reload and a reset once the files were
/// read, a reset after the overrides were cleared.
pub proof fn law_other_requests_are_answered(m: control::DaemonSpec, req: Request, now: u64)
    ensures
        match (req, dispatched(m, req, now).2) {
            (Request::SetWallpaper { .. }, _) => true,
            (Request::Get, ipc::AnswerSpec::Now(r)) => {
                &&& r.ok && r.error is None
                &&& r.data == Some(proto::DataSpec::Status(reported(m)))
            },
            (Request::Version, ipc::AnswerSpec::Now(r)) => {
                &&& r.ok && r.error is None
                &&& r.data == Some(proto::DataSpec::Version(VERSION@))
            },
            (Request::Quit, ipc::AnswerSpec::Shutdown(r)) => {
                &&& r.ok && r.error is None
                &&& r.data is None
            },
            (Request::Reload, ipc::AnswerSpec::Reread { reset }) => !reset,
            (Request::Reset, ipc::AnswerSpec::Reread { reset }) => reset,
            _ => false,
        },
{
}

/// The overrides are in effect from the start, over what the file sets.
pub proof fn law_overrides_apply_from_the_start(
    pid: u32,
    env: Map<Seq<char>, Seq<char>>,
    base: Seq<char>,
    disk: config::ConfigSpec,
    overrides: Map<Seq<char>, config::OutputSpec>,
    dim: Seq<u8>,
    slot: Seq<char>,
)
    ensures
        ({
            let m = started(pid, env, base, disk, overrides, dim);
            &&& m.config.output.contains_key(slot) <==> disk.output.contains_key(slot)
                || overrides.contains_key(slot)
            &&& m.config.output.contains_key(slot) ==> state::holds_both(
                m.config.output[slot],
                disk.output,
                overrides,
                slot,
            )
        }),
{
}

} // verus!
