//! The daemon's state and what each event does to it.
//!
//! Events come in as calls; what is to be done about them in the outside world
//! comes back as a list of [`Action`]s, to be carried out in order before the
//! next event. Times are nanoseconds on a monotonic clock.

use std::collections::HashMap;
use std::rc::Rc;

use vstd::prelude::*;

use crate::color::{Color, DimSteps};
use crate::config;
use crate::config::{Config, Mode, Resolved};
use crate::daemon::anim::Ease;
use crate::daemon::niri;
use crate::daemon::niri::{next_backoff, overview_from_line, BACKOFF_MAX_MS, BACKOFF_MIN_MS};
use crate::daemon::output;
use crate::daemon::output::{
    is_paintable, Commit, OutputEntry, PaintStatus, Plan, Scene, Showing, SCALE_UNIT,
};
use crate::daemon::pending;
use crate::daemon::pending::PendingSet;
use crate::daemon::render::Size;
use crate::daemon::worker;
use crate::daemon::worker::{Job, JobResult};
use crate::paths;
use crate::paths::{BaseDir, Env};
use crate::proto;
use crate::proto::WireReply;
use crate::state::State;
use crate::text;
use crate::text::{push_decimal, str_eq};

verus! {

broadcast use vstd::std_specs::hash::group_hash_axioms;

/// Something to be done outside.
#[derive(Debug)]
pub enum Action {
    /// Put a frame on an output.
    Show(Commit),
    /// Queue a render job.
    Render(Job),
    /// Write the remembered overrides to disk.
    Save,
    /// Answer a client.
    Answer { client: u64, reply: WireReply },
}

/// Everything the daemon knows.
#[derive(Debug)]
pub struct DaemonState {
    pub pid: u32,
    pub env: Env,
    /// Where relative paths start.
    pub base: BaseDir,
    /// Effective configuration: the file overlaid with the overrides.
    pub config: Config,
    /// The configuration file as last read, without the overrides.
    pub disk_config: Config,
    /// Overrides that outlive a restart.
    pub state: State,
    /// What the configured dim does to a colour.
    pub dim: DimSteps,
    /// The connected outputs.
    pub outputs: Vec<OutputEntry>,
    /// Whether niri's overview is currently open.
    pub overview_open: bool,
    /// Whether niri's event stream is currently connected.
    pub niri_connected: bool,
    /// The wait before the next attempt to connect to niri.
    pub niri_backoff_ms: u32,
    /// The token of the next `set`.
    pub next_token: u64,
    pub pending_sets: HashMap<u64, PendingSet>,
}

// ------------------------------------------------------------------- model

/// [`Action`] over sequences.
pub ghost enum ActionSpec {
    Show(output::CommitSpec),
    Render(worker::JobSpec),
    Save,
    Answer { client: u64, reply: proto::ReplySpec },
}

impl View for Action {
    type V = ActionSpec;

    open spec fn view(&self) -> ActionSpec {
        match *self {
            Action::Show(c) => ActionSpec::Show(c@),
            Action::Render(j) => ActionSpec::Render(j@),
            Action::Save => ActionSpec::Save,
            Action::Answer { client, reply } => ActionSpec::Answer { client, reply: reply@ },
        }
    }
}

/// A list of actions.
pub open spec fn actions(v: Seq<Action>) -> Seq<ActionSpec> {
    v.map_values(|a: Action| a@)
}

/// [`DaemonState`] over sequences and maps.
pub ghost struct DaemonSpec {
    pub pid: u32,
    pub env: Map<Seq<char>, Seq<char>>,
    pub base: Seq<char>,
    pub config: config::ConfigSpec,
    pub disk_config: config::ConfigSpec,
    pub overrides: Map<Seq<char>, config::OutputSpec>,
    pub dim: Seq<u8>,
    pub outputs: Seq<output::EntrySpec>,
    pub overview_open: bool,
    pub niri_connected: bool,
    pub niri_backoff_ms: u32,
    pub next_token: u64,
    pub pending: Map<u64, pending::PendingSpec>,
}

/// The outputs over sequences.
pub open spec fn entries(v: Seq<OutputEntry>) -> Seq<output::EntrySpec> {
    v.map_values(|e: OutputEntry| e@)
}

/// The pending `set`s over sequences.
pub open spec fn pending_view(m: Map<u64, PendingSet>) -> Map<u64, pending::PendingSpec> {
    m.map_values(|p: PendingSet| p@)
}

impl View for DaemonState {
    type V = DaemonSpec;

    open spec fn view(&self) -> DaemonSpec {
        DaemonSpec {
            pid: self.pid,
            env: self.env@,
            base: self.base@,
            config: self.config@,
            disk_config: self.disk_config@,
            overrides: self.state@,
            dim: self.dim@,
            outputs: entries(self.outputs@),
            overview_open: self.overview_open,
            niri_connected: self.niri_connected,
            niri_backoff_ms: self.niri_backoff_ms,
            next_token: self.next_token,
            pending: pending_view(self.pending_sets@),
        }
    }
}

impl DaemonSpec {
    /// The invariant: relative paths start at an absolute directory, outputs
    /// are sound and told apart by their ids, the wait for niri is within its
    /// bounds, and every pending `set` has a token that was given out and waits
    /// for no output twice.
    pub open spec fn wf(self) -> bool {
        &&& paths::is_absolute(self.base)
        &&& forall|i: int| 0 <= i < self.outputs.len() ==> (#[trigger] self.outputs[i]).wf()
        &&& forall|i: int, j: int|
            0 <= i < j < self.outputs.len() ==> (#[trigger] self.outputs[i]).id != (
            #[trigger] self.outputs[j]).id
        &&& BACKOFF_MIN_MS <= self.niri_backoff_ms <= BACKOFF_MAX_MS
        &&& self.next_token > 0
        &&& forall|t: u64| #[trigger]
            self.pending.contains_key(t) ==> 0 < t < self.next_token
                && self.pending[t].outstanding.no_duplicates()
    }

    /// Whether no counter is about to run over.
    pub open spec fn has_room(self) -> bool {
        &&& self.next_token < u64::MAX
        &&& forall|i: int|
            0 <= i < self.outputs.len() ==> (#[trigger] self.outputs[i]).generation < u64::MAX
    }

    /// What decides how outputs are painted.
    pub open spec fn scene(self) -> Scene {
        Scene {
            overview_open: self.overview_open,
            transition_ms: self.config.transition_ms,
            blur: self.config.blur,
        }
    }

    /// Output `i` replaced.
    pub open spec fn with_output(self, i: int, e: output::EntrySpec) -> DaemonSpec {
        DaemonSpec { outputs: self.outputs.update(i, e), ..self }
    }

    /// The wallpaper of the output `name`.
    pub open spec fn resolution(self, name: Seq<char>) -> Result<
        config::ResolvedSpec,
        (Seq<char>, paths::PathFault),
    > {
        config::resolution(self.config.output, name, self.env, self.base)
    }
}

/// Output `i` is the one with this id.
pub open spec fn is_at(outputs: Seq<output::EntrySpec>, i: int, id: u64) -> bool {
    0 <= i < outputs.len() && outputs[i].id == id
}

/// Where the output with this id is.
pub open spec fn place_of(outputs: Seq<output::EntrySpec>, id: u64) -> Option<int> {
    if exists|i: int| is_at(outputs, i, id) {
        Some(choose|i: int| is_at(outputs, i, id))
    } else {
        None
    }
}

/// Output `i` is the first one of this name.
pub open spec fn is_first_named(
    outputs: Seq<output::EntrySpec>,
    i: int,
    name: Seq<char>,
) -> bool {
    &&& 0 <= i < outputs.len()
    &&& outputs[i].name == name
    &&& forall|j: int| 0 <= j < i ==> (#[trigger] outputs[j]).name != name
}

/// Where the first output of this name is.
pub open spec fn place_of_name(outputs: Seq<output::EntrySpec>, name: Seq<char>) -> Option<int> {
    if exists|i: int| is_first_named(outputs, i, name) {
        Some(choose|i: int| is_first_named(outputs, i, name))
    } else {
        None
    }
}

/// Showing a frame, if there is one.
pub open spec fn showing(c: Option<output::CommitSpec>) -> Seq<ActionSpec> {
    match c {
        Some(c) => seq![ActionSpec::Show(c)],
        None => Seq::empty(),
    }
}

/// Queueing a job, if there is one.
pub open spec fn rendering(j: Option<worker::JobSpec>) -> Seq<ActionSpec> {
    match j {
        Some(j) => seq![ActionSpec::Render(j)],
        None => Seq::empty(),
    }
}

/// If every job under `token` has reported, its client is answered and the
/// `set` forgotten.
pub open spec fn finished(m: DaemonSpec, token: u64) -> (DaemonSpec, Seq<ActionSpec>) {
    if m.pending.contains_key(token) && pending::ready(m.pending[token]) {
        (
            DaemonSpec { pending: m.pending.remove(token), ..m },
            seq![
                ActionSpec::Answer {
                    client: m.pending[token].client->0,
                    reply: pending::answer(m.pending[token]),
                },
            ],
        )
    } else {
        (m, Seq::empty())
    }
}

/// A job of the `set` under `token` reported for `output`; token 0 is no `set`.
pub open spec fn noted(m: DaemonSpec, token: u64, output: Seq<char>, error: Option<Seq<char>>) -> (
    DaemonSpec,
    Seq<ActionSpec>,
) {
    if token == 0 {
        (m, Seq::empty())
    } else if m.pending.contains_key(token) {
        finished(
            DaemonSpec {
                pending: m.pending.insert(token, pending::drained(m.pending[token], output, error)),
                ..m
            },
            token,
        )
    } else {
        (m, Seq::empty())
    }
}

/// Output `i` is repainted, for the `set` under `token` if that is not 0.
pub open spec fn repainted_at(m: DaemonSpec, i: int, token: u64, instant: bool, now: u64) -> (
    DaemonSpec,
    Seq<ActionSpec>,
) {
    let (e, rp) = output::repainted(m.outputs[i], m.scene(), m.dim, token, instant, now);
    let drawn = showing(rp.commit) + rendering(rp.job);
    if rp.complete {
        let (done, answers) = noted(m.with_output(i, e), token, e.name, None);
        (done, drawn + answers)
    } else {
        (m.with_output(i, e), drawn)
    }
}

/// The first `n` outputs told to show what the scene calls for, with crossfades.
pub open spec fn presented_upto(m: DaemonSpec, n: nat, ease: Ease, now: u64) -> (
    DaemonSpec,
    Seq<ActionSpec>,
)
    decreases n,
{
    if n == 0 {
        (m, Seq::empty())
    } else {
        let (before, acts) = presented_upto(m, (n - 1) as nat, ease, now);
        let (e, commit) = output::presented(m.outputs[n - 1], m.scene(), ease, false, now);
        (before.with_output(n - 1, e), acts + showing(commit))
    }
}

/// The overview opened or closed. Every output changes over, unless blur is
/// disabled: closing plays the curve of opening backward.
pub open spec fn overview_set(m: DaemonSpec, open: bool, now: u64) -> (
    DaemonSpec,
    Seq<ActionSpec>,
) {
    if m.overview_open == open {
        (m, Seq::empty())
    } else {
        let next = DaemonSpec { overview_open: open, ..m };
        if m.config.blur.enable {
            let ease = if open {
                Ease::Out
            } else {
                Ease::In
            };
            presented_upto(next, m.outputs.len(), ease, now)
        } else {
            (next, Seq::empty())
        }
    }
}

/// The name of an output: its connector's, or one made from its number.
pub open spec fn output_name(name: Option<Seq<char>>, protocol_id: u32) -> Seq<char> {
    match name {
        Some(n) => n,
        None => "output-"@ + text::decimal(protocol_id as nat),
    }
}

/// An output that just appeared.
pub open spec fn fresh_output(m: DaemonSpec, id: u64, name: Seq<char>, fractional: bool) -> output::EntrySpec {
    output::EntrySpec {
        id,
        name,
        scale_120: SCALE_UNIT,
        fractional,
        logical: None,
        configured: false,
        resolved: match m.resolution(name) {
            Ok(w) => w,
            Err(_) => config::ResolvedSpec { path: None, mode: Mode::Fill, color: Color::black() },
        },
        status: output::StatusSpec::Pending,
        ready: false,
        painted: None,
        shown: None,
        sharp: None,
        blurred: None,
        buffers_size: None,
        showing: Showing::Sharp,
        transition: None,
        frame_pending: false,
        generation: 0,
    }
}

/// An output appeared; one that is there already is ignored.
pub open spec fn appeared(
    m: DaemonSpec,
    id: u64,
    name: Option<Seq<char>>,
    protocol_id: u32,
    fractional: bool,
) -> DaemonSpec {
    if place_of(m.outputs, id) is Some {
        m
    } else {
        DaemonSpec {
            outputs: m.outputs.push(
                fresh_output(m, id, output_name(name, protocol_id), fractional),
            ),
            ..m
        }
    }
}

/// The output `id` went away.
pub open spec fn vanished(m: DaemonSpec, id: u64) -> DaemonSpec {
    match place_of(m.outputs, id) {
        Some(i) => DaemonSpec { outputs: m.outputs.remove(i), ..m },
        None => m,
    }
}

/// Nobody waits for the `set` under `token` any more.
pub open spec fn abandoned(m: DaemonSpec, token: u64) -> DaemonSpec {
    DaemonSpec { pending: m.pending.remove(token), ..m }
}

/// The connection to niri is up.
pub open spec fn niri_came(m: DaemonSpec) -> DaemonSpec {
    DaemonSpec { niri_connected: true, niri_backoff_ms: BACKOFF_MIN_MS, ..m }
}

/// A new fractional scale for the output `id`. Zero and the scale it has are
/// ignored.
pub open spec fn fractionally_scaled(m: DaemonSpec, id: u64, scale: u32, now: u64) -> (
    DaemonSpec,
    Seq<ActionSpec>,
) {
    match place_of(m.outputs, id) {
        None => (m, Seq::empty()),
        Some(i) => if scale == 0 || scale == m.outputs[i].scale_120 {
            (m, Seq::empty())
        } else {
            rescaled(m, i, scale, now)
        },
    }
}

/// Output `i` with another scale, repainted at once.
pub open spec fn rescaled(m: DaemonSpec, i: int, scale: u32, now: u64) -> (
    DaemonSpec,
    Seq<ActionSpec>,
) {
    let e = output::EntrySpec { scale_120: scale, ..m.outputs[i] };
    repainted_at(m.with_output(i, e), i, 0, true, now)
}

/// An integer scale factor in 120ths.
pub open spec fn factor_120(factor: i32) -> int {
    if factor >= 1 {
        factor * SCALE_UNIT
    } else {
        SCALE_UNIT as int
    }
}

/// A new integer scale for the output `id`, which counts only without a
/// fractional one.
pub open spec fn integrally_scaled(m: DaemonSpec, id: u64, factor: i32, now: u64) -> (
    DaemonSpec,
    Seq<ActionSpec>,
) {
    match place_of(m.outputs, id) {
        None => (m, Seq::empty()),
        Some(i) => if m.outputs[i].fractional || factor_120(factor) == m.outputs[i].scale_120 {
            (m, Seq::empty())
        } else {
            rescaled(m, i, factor_120(factor) as u32, now)
        },
    }
}

/// The surface of the output `id` was configured, with a new logical size if
/// neither side is zero.
pub open spec fn configured(m: DaemonSpec, id: u64, w: u32, h: u32, now: u64) -> (
    DaemonSpec,
    Seq<ActionSpec>,
) {
    match place_of(m.outputs, id) {
        None => (m, Seq::empty()),
        Some(i) => {
            let e = output::EntrySpec {
                configured: true,
                logical: if w != 0 && h != 0 {
                    Some((w, h))
                } else {
                    m.outputs[i].logical
                },
                ..m.outputs[i]
            };
            repainted_at(m.with_output(i, e), i, 0, true, now)
        },
    }
}

/// Where the output is that a render job reports on, if the report is on its
/// last render: neither stale nor for an output that vanished.
pub open spec fn reported_place(m: DaemonSpec, r: worker::JobResultSpec) -> Option<int> {
    match place_of_name(m.outputs, r.output) {
        Some(i) => if m.outputs[i].generation == r.generation {
            Some(i)
        } else {
            None
        },
        None => None,
    }
}

/// The output with the buffers of a finished render, which are not shown yet.
pub open spec fn supplied(e: output::EntrySpec, pic: worker::RenderedSpec) -> output::EntrySpec {
    output::EntrySpec {
        buffers_size: Some(pic.size),
        sharp: Some(pic.sharp),
        blurred: Some(pic.blurred),
        ready: true,
        ..e
    }
}

/// The output after its render failed.
pub open spec fn marked_failed(e: output::EntrySpec, reason: Seq<char>) -> output::EntrySpec {
    output::EntrySpec { status: output::StatusSpec::Failed(reason), ready: false, ..e }
}

/// A render job reported. A result of an older render, or for an output that
/// vanished, changes no output, whether it is a picture or a failure. Otherwise
/// the picture replaces what is on screen, and a failure marks the output. The
/// `set` that waits for the job hears of it in any case.
pub open spec fn result_applied(m: DaemonSpec, r: worker::JobResultSpec, now: u64) -> (
    DaemonSpec,
    Seq<ActionSpec>,
) {
    match r.outcome {
        Ok(pic) => {
            let (shown, drawn) = match reported_place(m, r) {
                Some(i) => {
                    let (e, commit) = output::presented(
                        supplied(m.outputs[i], pic),
                        m.scene(),
                        Ease::Out,
                        !r.fade,
                        now,
                    );
                    (m.with_output(i, e), showing(commit))
                },
                None => (m, Seq::empty()),
            };
            let (done, answers) = noted(shown, r.token, r.output, None);
            (done, drawn + answers)
        },
        Err(reason) => {
            let marked = match reported_place(m, r) {
                Some(i) => m.with_output(i, marked_failed(m.outputs[i], reason)),
                None => m,
            };
            noted(marked, r.token, r.output, Some(reason))
        },
    }
}

/// Whether the output `id` can be painted with this scale.
pub open spec fn scale_fits(m: DaemonSpec, id: u64, scale: int) -> bool {
    0 <= scale <= u32::MAX && match place_of(m.outputs, id) {
        Some(i) => m.outputs[i].logical matches Some(l) ==> output::paintable(
            l,
            scale as u32,
            m.outputs[i].fractional,
        ),
        None => true,
    }
}

/// Whether the output `id` can be painted with this logical size; a size without
/// pixels is no size.
pub open spec fn size_fits(m: DaemonSpec, id: u64, w: u32, h: u32) -> bool {
    w == 0 || h == 0 || match place_of(m.outputs, id) {
        Some(i) => output::paintable((w, h), m.outputs[i].scale_120, m.outputs[i].fractional),
        None => true,
    }
}

/// A frame callback came for the output `id`.
pub open spec fn called_back(m: DaemonSpec, id: u64, now: u64) -> (DaemonSpec, Seq<ActionSpec>) {
    match place_of(m.outputs, id) {
        Some(i) => {
            let (e, commit) = output::advanced(m.outputs[i], now);
            (m.with_output(i, e), showing(commit))
        },
        None => (m, Seq::empty()),
    }
}

/// A frame of `size` went on screen on the output `id`.
pub open spec fn commit_noted(m: DaemonSpec, id: u64, size: Size, settled: bool) -> (
    DaemonSpec,
    bool,
) {
    match place_of(m.outputs, id) {
        Some(i) => {
            let (e, want) = output::committed(m.outputs[i], size, settled);
            (m.with_output(i, e), want)
        },
        None => (m, false),
    }
}

/// No buffer could be had for a frame on the output `id`.
pub open spec fn commit_refused(m: DaemonSpec, id: u64, cause: Seq<char>) -> DaemonSpec {
    match place_of(m.outputs, id) {
        Some(i) => m.with_output(
            i,
            output::EntrySpec {
                status: output::StatusSpec::Failed("shm: "@ + cause),
                ..m.outputs[i]
            },
        ),
        None => m,
    }
}

/// The connection that waits for the `set` under `token` is known.
pub open spec fn attached(m: DaemonSpec, token: u64, client: u64) -> (DaemonSpec, Seq<ActionSpec>) {
    if m.pending.contains_key(token) {
        finished(
            DaemonSpec {
                pending: m.pending.insert(
                    token,
                    pending::PendingSpec { client: Some(client), ..m.pending[token] },
                ),
                ..m
            },
            token,
        )
    } else {
        (m, Seq::empty())
    }
}

/// The next attempt to connect to niri is due after the current wait, and the
/// one after that later.
pub open spec fn postponed(m: DaemonSpec) -> DaemonSpec {
    DaemonSpec { niri_backoff_ms: niri::backed_off(m.niri_backoff_ms as nat) as u32, ..m }
}

/// The connection to niri was lost: sharp everywhere, and another attempt.
pub open spec fn niri_gone(m: DaemonSpec, now: u64) -> (DaemonSpec, Seq<ActionSpec>) {
    let (closed, acts) = overview_set(DaemonSpec { niri_connected: false, ..m }, false, now);
    (postponed(closed), acts)
}

/// A line of niri's event stream.
pub open spec fn niri_said(m: DaemonSpec, line: Seq<u8>, now: u64) -> (
    DaemonSpec,
    Seq<ActionSpec>,
) {
    match niri::overview_of_line(line) {
        Some(open) => overview_set(m, open, now),
        None => (m, Seq::empty()),
    }
}

// ------------------------------------------------------------- basic facts

proof fn lemma_place_of(outputs: Seq<output::EntrySpec>, i: int, id: u64)
    requires
        is_at(outputs, i, id),
        forall|a: int, b: int|
            0 <= a < b < outputs.len() ==> (#[trigger] outputs[a]).id != (#[trigger] outputs[b]).id,
    ensures
        place_of(outputs, id) == Some(i),
{
    let k = choose|k: int| is_at(outputs, k, id);
    if k < i {
        assert(outputs[k].id != outputs[i].id);
    } else if i < k {
        assert(outputs[i].id != outputs[k].id);
    }
}

/// The first output of a name is the one that the name finds.
pub proof fn lemma_first_named_is_found(outputs: Seq<output::EntrySpec>, i: int, name: Seq<char>)
    requires
        is_first_named(outputs, i, name),
    ensures
        place_of_name(outputs, name) == Some(i),
{
    let k = choose|k: int| is_first_named(outputs, k, name);
    if k < i {
        assert(outputs[k].name != name);
    } else if i < k {
        assert(outputs[i].name != name);
    }
}

// -------------------------------------------------------------------- code

/// Put `more` behind `list`.
pub(crate) fn extend(list: &mut Vec<Action>, more: Vec<Action>)
    ensures
        actions(final(list)@) == actions(old(list)@) + actions(more@),
{
    let ghost added = more@;
    let mut rest = more;
    list.append(&mut rest);
    assert(actions(list@) =~= actions(old(list)@) + actions(added));
}

/// Showing a frame, if there is one.
fn show(commit: Option<Commit>) -> (r: Vec<Action>)
    ensures
        actions(r@) == showing(output::opt_commit(commit)),
{
    let mut list: Vec<Action> = Vec::new();
    if let Some(c) = commit {
        list.push(Action::Show(c));
    }
    assert(actions(list@) =~= showing(output::opt_commit(commit)));
    list
}

impl DaemonState {
    /// Whether no counter is about to run over.
    pub fn has_room(&self) -> (r: bool)
        ensures
            r == self@.has_room(),
    {
        let mut i: usize = 0;
        while i < self.outputs.len()
            invariant
                i <= self.outputs@.len(),
                forall|j: int| 0 <= j < i ==> (#[trigger] self@.outputs[j]).generation < u64::MAX,
            decreases self.outputs@.len() - i,
        {
            if self.outputs[i].generation == u64::MAX {
                assert(self@.outputs[i as int].generation == u64::MAX);
                return false;
            }
            i += 1;
        }
        self.next_token < u64::MAX
    }

    /// Where the output with this id is.
    fn find(&self, id: u64) -> (r: Option<usize>)
        requires
            self@.wf(),
        ensures
            match r {
                Some(i) => is_at(self@.outputs, i as int, id) && place_of(self@.outputs, id)
                    == Some(i as int),
                None => place_of(self@.outputs, id) is None,
            },
    {
        let mut i: usize = 0;
        while i < self.outputs.len()
            invariant
                self@.wf(),
                i <= self.outputs@.len(),
                forall|j: int| 0 <= j < i ==> (#[trigger] self@.outputs[j]).id != id,
            decreases self.outputs@.len() - i,
        {
            if self.outputs[i].id == id {
                proof {
                    lemma_place_of(self@.outputs, i as int, id);
                }
                return Some(i);
            }
            i += 1;
        }
        None
    }

    /// Where the first output of this name is.
    fn find_name(&self, name: &str) -> (r: Option<usize>)
        ensures
            match r {
                Some(i) => i < self.outputs@.len() && place_of_name(self@.outputs, name@) == Some(
                    i as int,
                ),
                None => place_of_name(self@.outputs, name@) is None,
            },
    {
        let mut i: usize = 0;
        while i < self.outputs.len()
            invariant
                i <= self.outputs@.len(),
                forall|j: int| 0 <= j < i ==> (#[trigger] self@.outputs[j]).name != name@,
            decreases self.outputs@.len() - i,
        {
            if str_eq(self.outputs[i].name.as_str(), name) {
                proof {
                    assert(is_first_named(self@.outputs, i as int, name@));
                    lemma_first_named_is_found(self@.outputs, i as int, name@);
                }
                return Some(i);
            }
            i += 1;
        }
        None
    }

    /// What decides how outputs are painted.
    fn scene(&self) -> (r: Scene)
        ensures
            r == self@.scene(),
    {
        Scene {
            overview_open: self.overview_open,
            transition_ms: self.config.transition_ms,
            blur: self.config.blur,
        }
    }

    /// If every job under `token` has reported, answer its client and forget
    /// the `set`.
    fn try_finish_pending(&mut self, token: u64) -> (r: Vec<Action>)
        requires
            old(self)@.wf(),
        ensures
            final(self)@ == finished(old(self)@, token).0,
            actions(r@) == finished(old(self)@, token).1,
            final(self)@.wf(),
    {
        let mut list: Vec<Action> = Vec::new();
        let ghost before = self@.pending;
        assert(actions(list@) =~= Seq::empty());
        if let Some(p) = self.pending_sets.remove(&token) {
            assert(pending_view(self.pending_sets@) =~= before.remove(token));
            if p.is_ready() {
                if let Some(client) = p.client {
                    let reply = p.reply();
                    list.push(Action::Answer { client, reply });
                    assert(actions(list@) =~= finished(old(self)@, token).1);
                }
            } else {
                self.pending_sets.insert(token, p);
                assert(pending_view(self.pending_sets@) =~= before);
            }
        } else {
            assert(pending_view(self.pending_sets@) =~= before);
        }
        list
    }

    /// A job of the `set` under `token` (0 for none) reported for `output`.
    fn note_result(&mut self, token: u64, output: &str, error: Option<String>) -> (r: Vec<Action>)
        requires
            old(self)@.wf(),
        ensures
            final(self)@ == noted(old(self)@, token, output@, text::opt_view(error)).0,
            actions(r@) == noted(old(self)@, token, output@, text::opt_view(error)).1,
            final(self)@.wf(),
    {
        let ghost before = self@.pending;
        let none: Vec<Action> = Vec::new();
        assert(actions(none@) =~= Seq::empty());
        if token == 0 {
            return none;
        }
        match self.pending_sets.remove(&token) {
            None => {
                assert(pending_view(self.pending_sets@) =~= before);
                none
            },
            Some(p) => {
                let mut p = p;
                assert(before.contains_key(token) && before[token] == p@);
                p.drain(output, error);
                let ghost drained = p@;
                self.pending_sets.insert(token, p);
                assert(pending_view(self.pending_sets@) =~= before.insert(token, drained));
                self.try_finish_pending(token)
            },
        }
    }

    /// Repaint output `i`, for the `set` under `token` if that is not 0.
    pub(crate) fn repaint_tagged(&mut self, i: usize, token: u64, instant: bool, now: u64) -> (r: Vec<Action>)
        requires
            old(self)@.wf(),
            i < old(self).outputs@.len(),
            old(self)@.outputs[i as int].generation < u64::MAX,
        ensures
            final(self)@ == repainted_at(old(self)@, i as int, token, instant, now).0,
            actions(r@) == repainted_at(old(self)@, i as int, token, instant, now).1,
            final(self)@.wf(),
            final(self).outputs@.len() == old(self).outputs@.len(),
    {
        let scene = self.scene();
        let ghost m = self@;
        assert(m.outputs[i as int].wf());
        let rp = self.outputs[i].repaint(&scene, &self.dim, token, instant, now);
        assert(self@.outputs =~= m.outputs.update(
            i as int,
            output::repainted(m.outputs[i as int], scene, m.dim, token, instant, now).0,
        ));
        let mut list = show(rp.commit);
        if let Some(job) = rp.job {
            let ghost before = actions(list@);
            list.push(Action::Render(job));
            assert(actions(list@) =~= before + rendering(Some(job@)));
        } else {
            assert(actions(list@) =~= actions(list@) + rendering(None));
        }
        if rp.complete {
            let name = self.outputs[i].name.clone();
            let answers = self.note_result(token, name.as_str(), None);
            extend(&mut list, answers);
        }
        list
    }

    /// A new output appeared. One that is known already is left alone.
    pub fn connect_output(&mut self, id: u64, name: Option<String>, protocol_id: u32, fractional: bool)
        requires
            old(self)@.wf(),
        ensures
            final(self)@.wf(),
            final(self)@ == (if place_of(old(self)@.outputs, id) is Some {
                old(self)@
            } else {
                DaemonSpec {
                    outputs: old(self)@.outputs.push(
                        fresh_output(
                            old(self)@,
                            id,
                            output_name(text::opt_view(name), protocol_id),
                            fractional,
                        ),
                    ),
                    ..old(self)@
                }
            }),
            final(self)@ == appeared(
                old(self)@,
                id,
                text::opt_view(name),
                protocol_id,
                fractional,
            ),
    {
        if self.find(id).is_some() {
            return;
        }
        let name = match name {
            Some(n) => n,
            None => {
                let mut n = "output-".to_string();
                push_decimal(&mut n, protocol_id as u64);
                n
            },
        };
        let resolved = match self.config.resolve(name.as_str(), &self.env, &self.base) {
            Ok((w, _)) => w,
            Err(_) => Resolved { path: None, mode: Mode::Fill, color: Color::black() },
        };
        let ghost m = self@;
        let entry = OutputEntry {
            id,
            name,
            scale_120: SCALE_UNIT,
            fractional,
            logical: None,
            configured: false,
            resolved,
            status: PaintStatus::Pending,
            ready: false,
            painted: None,
            shown: None,
            sharp: None,
            blurred: None,
            buffers_size: None,
            showing: Showing::Sharp,
            transition: None,
            frame_pending: false,
            generation: 0,
        };
        let ghost added = entry@;
        proof {
            assert forall|i: int| 0 <= i < m.outputs.len() implies (#[trigger] m.outputs[i]).id
                != id by {
                if m.outputs[i].id == id {
                    assert(is_at(m.outputs, i, id));
                }
            }
        }
        self.outputs.push(entry);
        assert(self@.outputs =~= m.outputs.push(added));
    }

    /// An output went away, or its surface was closed.
    pub fn disconnect_output(&mut self, id: u64)
        requires
            old(self)@.wf(),
        ensures
            final(self)@.wf(),
            final(self)@ == vanished(old(self)@, id),
            final(self)@ == (match place_of(old(self)@.outputs, id) {
                Some(i) => DaemonSpec { outputs: old(self)@.outputs.remove(i), ..old(self)@ },
                None => old(self)@,
            }),
    {
        if let Some(i) = self.find(id) {
            let ghost m = self@;
            self.outputs.remove(i);
            assert(self@.outputs =~= m.outputs.remove(i as int));
        }
    }

    /// Whether the output `id` can be painted with this fractional scale.
    pub fn fits_scale(&self, id: u64, scale: u32) -> (r: bool)
        requires
            self@.wf(),
        ensures
            r == scale_fits(self@, id, scale as int),
    {
        match self.find(id) {
            None => true,
            Some(i) => match self.outputs[i].logical {
                Some(l) => is_paintable(l, scale, self.outputs[i].fractional),
                None => true,
            },
        }
    }

    /// Whether the output `id` can be painted with this integer scale.
    pub fn fits_factor(&self, id: u64, factor: i32) -> (r: bool)
        requires
            self@.wf(),
        ensures
            r == scale_fits(self@, id, factor_120(factor)),
    {
        let whole: u64 = if factor >= 1 {
            factor as u64
        } else {
            1
        };
        let scale: u64 = whole * SCALE_UNIT as u64;
        scale <= u32::MAX as u64 && self.fits_scale(id, scale as u32)
    }

    /// Whether the output `id` can be painted at this logical size.
    pub fn fits_size(&self, id: u64, w: u32, h: u32) -> (r: bool)
        requires
            self@.wf(),
        ensures
            r == size_fits(self@, id, w, h),
    {
        if w == 0 || h == 0 {
            return true;
        }
        match self.find(id) {
            None => true,
            Some(i) => is_paintable((w, h), self.outputs[i].scale_120, self.outputs[i].fractional),
        }
    }

    /// Give output `i` another scale and repaint it.
    fn rescale(&mut self, i: usize, scale: u32, now: u64) -> (r: Vec<Action>)
        requires
            old(self)@.wf(),
            old(self)@.has_room(),
            i < old(self).outputs@.len(),
            scale > 0,
            old(self)@.outputs[i as int].logical matches Some(l) ==> output::paintable(
                l,
                scale,
                old(self)@.outputs[i as int].fractional,
            ),
        ensures
            final(self)@ == rescaled(old(self)@, i as int, scale, now).0,
            actions(r@) == rescaled(old(self)@, i as int, scale, now).1,
            final(self)@.wf(),
    {
        let ghost m = self@;
        assert(m.outputs[i as int].wf());
        self.outputs[i].scale_120 = scale;
        proof {
            let e = output::EntrySpec { scale_120: scale, ..m.outputs[i as int] };
            assert(self@.outputs =~= m.outputs.update(i as int, e));
        }
        self.repaint_tagged(i, 0, true, now)
    }

    /// The compositor prefers this fractional scale for the output `id`.
    pub fn on_fractional_scale(&mut self, id: u64, scale: u32, now: u64) -> (r: Vec<Action>)
        requires
            old(self)@.wf(),
            old(self)@.has_room(),
            scale_fits(old(self)@, id, scale as int),
        ensures
            final(self)@ == fractionally_scaled(old(self)@, id, scale, now).0,
            actions(r@) == fractionally_scaled(old(self)@, id, scale, now).1,
            final(self)@.wf(),
    {
        if let Some(i) = self.find(id) {
            if scale != 0 && scale != self.outputs[i].scale_120 {
                return self.rescale(i, scale, now);
            }
        }
        let none: Vec<Action> = Vec::new();
        assert(actions(none@) =~= Seq::empty());
        none
    }

    /// The compositor prefers this integer scale for the output `id`.
    pub fn on_integer_scale(&mut self, id: u64, factor: i32, now: u64) -> (r: Vec<Action>)
        requires
            old(self)@.wf(),
            old(self)@.has_room(),
            scale_fits(old(self)@, id, factor_120(factor)),
        ensures
            final(self)@ == integrally_scaled(old(self)@, id, factor, now).0,
            actions(r@) == integrally_scaled(old(self)@, id, factor, now).1,
            final(self)@.wf(),
    {
        let whole: u32 = if factor >= 1 {
            factor as u32
        } else {
            1
        };
        let scale: u32 = whole * SCALE_UNIT;
        if let Some(i) = self.find(id) {
            if !self.outputs[i].fractional && scale != self.outputs[i].scale_120 {
                return self.rescale(i, scale, now);
            }
        }
        let none: Vec<Action> = Vec::new();
        assert(actions(none@) =~= Seq::empty());
        none
    }

    /// The surface of the output `id` was configured.
    pub fn on_layer_configure(&mut self, id: u64, w: u32, h: u32, now: u64) -> (r: Vec<Action>)
        requires
            old(self)@.wf(),
            old(self)@.has_room(),
            size_fits(old(self)@, id, w, h),
        ensures
            final(self)@ == configured(old(self)@, id, w, h, now).0,
            actions(r@) == configured(old(self)@, id, w, h, now).1,
            final(self)@.wf(),
    {
        match self.find(id) {
            None => {
                let none: Vec<Action> = Vec::new();
                assert(actions(none@) =~= Seq::empty());
                none
            },
            Some(i) => {
                let ghost m = self@;
                assert(m.outputs[i as int].wf());
                if w != 0 && h != 0 {
                    self.outputs[i].logical = Some((w, h));
                }
                self.outputs[i].configured = true;
                proof {
                    let e = self@.outputs[i as int];
                    assert(self@.outputs =~= m.outputs.update(i as int, e));
                    assert(e.wf());
                }
                self.repaint_tagged(i, 0, true, now)
            },
        }
    }

    /// The overview opened or closed: crossfade every output between its sharp
    /// and its blurred buffer.
    pub fn set_overview_open(&mut self, open: bool, now: u64) -> (r: Vec<Action>)
        requires
            old(self)@.wf(),
        ensures
            final(self)@ == overview_set(old(self)@, open, now).0,
            actions(r@) == overview_set(old(self)@, open, now).1,
            final(self)@.wf(),
    {
        let mut list: Vec<Action> = Vec::new();
        assert(actions(list@) =~= Seq::empty());
        if self.overview_open == open {
            return list;
        }
        self.overview_open = open;
        if !self.config.blur.enable {
            return list;
        }
        let ease = if open {
            Ease::Out
        } else {
            Ease::In
        };
        let scene = self.scene();
        let ghost m = self@;
        let mut i: usize = 0;
        while i < self.outputs.len()
            invariant
                m.wf(),
                self@.wf(),
                scene == m.scene(),
                i <= self.outputs@.len(),
                self.outputs@.len() == m.outputs.len(),
                self@ == presented_upto(m, i as nat, ease, now).0,
                actions(list@) == presented_upto(m, i as nat, ease, now).1,
                forall|j: int|
                    i <= j < m.outputs.len() ==> #[trigger] self@.outputs[j] == m.outputs[j],
            decreases self.outputs@.len() - i,
        {
            let ghost before = self@;
            assert(before.outputs[i as int] == m.outputs[i as int]);
            assert(m.outputs[i as int].wf());
            let commit = self.outputs[i].present_target(&scene, ease, false, now);
            assert(self@.outputs =~= before.outputs.update(
                i as int,
                output::presented(m.outputs[i as int], scene, ease, false, now).0,
            ));
            let more = show(commit);
            extend(&mut list, more);
            i += 1;
        }
        list
    }

    /// A frame callback came for the output `id`: advance its crossfade.
    pub fn on_frame(&mut self, id: u64, now: u64) -> (r: Vec<Action>)
        requires
            old(self)@.wf(),
        ensures
            final(self)@ == called_back(old(self)@, id, now).0,
            actions(r@) == called_back(old(self)@, id, now).1,
            final(self)@.wf(),
    {
        match self.find(id) {
            None => {
                let none: Vec<Action> = Vec::new();
                assert(actions(none@) =~= Seq::empty());
                none
            },
            Some(i) => {
                let ghost m = self@;
                assert(m.outputs[i as int].wf());
                let commit = self.outputs[i].advance_transition(now);
                assert(self@.outputs =~= m.outputs.update(
                    i as int,
                    output::advanced(m.outputs[i as int], now).0,
                ));
                show(commit)
            },
        }
    }

    /// How a frame of `size` is attached to the surface of the output `id`; none
    /// if the output is gone or has no size yet.
    pub fn commit_plan(&self, id: u64, size: Size) -> (r: Option<Plan>)
        requires
            self@.wf(),
            size.showable(),
        ensures
            r == (match place_of(self@.outputs, id) {
                Some(i) => output::planned(self@.outputs[i], size),
                None => None,
            }),
    {
        match self.find(id) {
            Some(i) => {
                assert(self@.outputs[i as int].wf());
                self.outputs[i].commit_plan(size)
            },
            None => None,
        }
    }

    /// A frame of `size` went on screen on the output `id`. Says whether to ask
    /// for a frame callback; `settled` is whether the frame ended a crossfade.
    pub fn commit_done(&mut self, id: u64, size: Size, settled: bool) -> (r: bool)
        requires
            old(self)@.wf(),
        ensures
            final(self)@ == commit_noted(old(self)@, id, size, settled).0,
            r == commit_noted(old(self)@, id, size, settled).1,
            final(self)@.wf(),
    {
        match self.find(id) {
            None => false,
            Some(i) => {
                let ghost m = self@;
                assert(m.outputs[i as int].wf());
                let want = self.outputs[i].commit_done(size, settled);
                assert(self@.outputs =~= m.outputs.update(
                    i as int,
                    output::committed(m.outputs[i as int], size, settled).0,
                ));
                want
            },
        }
    }

    /// No buffer could be had for a frame on the output `id`.
    pub fn commit_failed(&mut self, id: u64, cause: &str)
        requires
            old(self)@.wf(),
        ensures
            final(self)@ == commit_refused(old(self)@, id, cause@),
            final(self)@.wf(),
    {
        if let Some(i) = self.find(id) {
            let ghost m = self@;
            assert(m.outputs[i as int].wf());
            let mut reason = "shm: ".to_string();
            reason.push_str(cause);
            self.outputs[i].status = PaintStatus::Failed(reason);
            assert(self@.outputs =~= m.outputs.update(
                i as int,
                output::EntrySpec {
                    status: output::StatusSpec::Failed(reason@),
                    ..m.outputs[i as int]
                },
            ));
        }
    }

    /// Apply one finished render.
    pub fn apply_rendered(&mut self, result: JobResult, now: u64) -> (r: Vec<Action>)
        requires
            old(self)@.wf(),
        ensures
            final(self)@ == result_applied(old(self)@, result@, now).0,
            actions(r@) == result_applied(old(self)@, result@, now).1,
            final(self)@.wf(),
    {
        let found = self.find_name(result.output.as_str());
        let ghost m = self@;
        match result.outcome {
            Ok(picture) => {
                let mut list: Vec<Action> = Vec::new();
                assert(actions(list@) =~= Seq::empty());
                if let Some(i) = found {
                    if self.outputs[i].generation == result.generation {
                        assert(m.outputs[i as int].wf());
                        let scene = self.scene();
                        self.outputs[i].buffers_size = Some(picture.size);
                        self.outputs[i].sharp = Some(Rc::new(picture.sharp));
                        self.outputs[i].blurred = Some(Rc::new(picture.blurred));
                        self.outputs[i].ready = true;
                        let ghost e = supplied(m.outputs[i as int], picture@);
                        assert(self@.outputs =~= m.outputs.update(i as int, e));
                        let commit = self.outputs[i].present_target(
                            &scene,
                            Ease::Out,
                            !result.fade,
                            now,
                        );
                        assert(self@.outputs =~= m.outputs.update(
                            i as int,
                            output::presented(e, scene, Ease::Out, !result.fade, now).0,
                        ));
                        list = show(commit);
                    }
                }
                let answers = self.note_result(result.token, result.output.as_str(), None);
                extend(&mut list, answers);
                list
            },
            Err(reason) => {
                if let Some(i) = found {
                    if self.outputs[i].generation == result.generation {
                        assert(m.outputs[i as int].wf());
                        self.outputs[i].status = PaintStatus::Failed(reason.clone());
                        self.outputs[i].ready = false;
                        assert(self@.outputs =~= m.outputs.update(
                            i as int,
                            marked_failed(m.outputs[i as int], reason@),
                        ));
                    }
                }
                self.note_result(result.token, result.output.as_str(), Some(reason))
            },
        }
    }

    /// The connection that waits for the `set` under `token` is `client`.
    pub fn attach_client(&mut self, token: u64, client: u64) -> (r: Vec<Action>)
        requires
            old(self)@.wf(),
        ensures
            final(self)@ == attached(old(self)@, token, client).0,
            actions(r@) == attached(old(self)@, token, client).1,
            final(self)@.wf(),
    {
        let ghost before = self@.pending;
        match self.pending_sets.remove(&token) {
            None => {
                assert(pending_view(self.pending_sets@) =~= before);
                let none: Vec<Action> = Vec::new();
                assert(actions(none@) =~= Seq::empty());
                none
            },
            Some(p) => {
                let mut p = p;
                assert(before.contains_key(token) && before[token] == p@);
                p.client = Some(client);
                let ghost known = p@;
                self.pending_sets.insert(token, p);
                assert(pending_view(self.pending_sets@) =~= before.insert(token, known));
                self.try_finish_pending(token)
            },
        }
    }

    /// Nobody waits for the `set` under `token` any more.
    pub fn abandon_set(&mut self, token: u64)
        requires
            old(self)@.wf(),
        ensures
            final(self)@ == (DaemonSpec {
                pending: old(self)@.pending.remove(token),
                ..old(self)@
            }),
            final(self)@ == abandoned(old(self)@, token),
            final(self)@.wf(),
    {
        let ghost before = self@.pending;
        self.pending_sets.remove(&token);
        assert(pending_view(self.pending_sets@) =~= before.remove(token));
    }

    /// The connection to niri is up.
    pub fn on_niri_connected(&mut self)
        requires
            old(self)@.wf(),
        ensures
            final(self)@ == (DaemonSpec {
                niri_connected: true,
                niri_backoff_ms: BACKOFF_MIN_MS,
                ..old(self)@
            }),
            final(self)@ == niri_came(old(self)@),
            final(self)@.wf(),
    {
        self.niri_connected = true;
        self.niri_backoff_ms = BACKOFF_MIN_MS;
    }

    /// An attempt to connect to niri failed. Says after how many milliseconds to
    /// try again.
    pub fn schedule_niri_reconnect(&mut self) -> (r: u32)
        requires
            old(self)@.wf(),
        ensures
            final(self)@ == postponed(old(self)@),
            r == old(self)@.niri_backoff_ms,
            final(self)@.wf(),
    {
        let delay = self.niri_backoff_ms;
        self.niri_backoff_ms = next_backoff(delay);
        delay
    }

    /// The connection to niri came up but cannot be read from. Says after how
    /// many milliseconds to try again.
    pub fn on_niri_unusable(&mut self) -> (r: u32)
        requires
            old(self)@.wf(),
        ensures
            final(self)@ == postponed(DaemonSpec { niri_connected: false, ..old(self)@ }),
            r == old(self)@.niri_backoff_ms,
            final(self)@.wf(),
    {
        self.niri_connected = false;
        self.schedule_niri_reconnect()
    }

    /// The connection to niri was lost. Besides what is to be shown, says after
    /// how many milliseconds to connect again.
    pub fn niri_lost(&mut self, now: u64) -> (r: (Vec<Action>, u32))
        requires
            old(self)@.wf(),
        ensures
            final(self)@ == niri_gone(old(self)@, now).0,
            actions(r.0@) == niri_gone(old(self)@, now).1,
            r.1 == old(self)@.niri_backoff_ms,
            final(self)@.wf(),
    {
        self.niri_connected = false;
        let ghost m = self@;
        let list = self.set_overview_open(false, now);
        proof {
            lemma_overview_keeps(m, false, now);
        }
        let delay = self.schedule_niri_reconnect();
        (list, delay)
    }

    /// A line of niri's event stream.
    pub fn handle_niri_line(&mut self, line: &[u8], now: u64) -> (r: Vec<Action>)
        requires
            old(self)@.wf(),
        ensures
            final(self)@ == niri_said(old(self)@, line@, now).0,
            actions(r@) == niri_said(old(self)@, line@, now).1,
            final(self)@.wf(),
    {
        match overview_from_line(line) {
            Some(open) => self.set_overview_open(open, now),
            None => {
                let none: Vec<Action> = Vec::new();
                assert(actions(none@) =~= Seq::empty());
                none
            },
        }
    }
}

/// Presenting outputs changes nothing but the outputs, and none of their names,
/// ids and wallpapers.
pub proof fn lemma_presented_keeps(m: DaemonSpec, n: nat, ease: Ease, now: u64)
    requires
        n <= m.outputs.len(),
    ensures
        ({
            let p = presented_upto(m, n, ease, now).0;
            &&& p == (DaemonSpec { outputs: p.outputs, ..m })
            &&& p.outputs.len() == m.outputs.len()
            &&& forall|i: int|
                0 <= i < m.outputs.len() ==> #[trigger] p.outputs[i] == (if i < n {
                    output::presented(m.outputs[i], m.scene(), ease, false, now).0
                } else {
                    m.outputs[i]
                })
        }),
    decreases n,
{
    if n > 0 {
        lemma_presented_keeps(m, (n - 1) as nat, ease, now);
    }
}

/// A report of a job changes nothing but the pending `set`s.
pub proof fn lemma_noted_keeps(m: DaemonSpec, token: u64, output: Seq<char>, error: Option<Seq<char>>)
    ensures
        ({
            let p = noted(m, token, output, error).0;
            p == (DaemonSpec { pending: p.pending, ..m })
        }),
{
}

/// Repainting an output changes nothing but it and the pending `set`s, and not
/// its id, name, size and wallpaper.
pub proof fn lemma_repainted_at_keeps(m: DaemonSpec, i: int, token: u64, instant: bool, now: u64)
    requires
        0 <= i < m.outputs.len(),
    ensures
        ({
            let p = repainted_at(m, i, token, instant, now).0;
            &&& p == (DaemonSpec { outputs: p.outputs, pending: p.pending, ..m })
            &&& p.outputs.len() == m.outputs.len()
            &&& forall|j: int|
                0 <= j < m.outputs.len() && j != i ==> #[trigger] p.outputs[j] == m.outputs[j]
            &&& p.outputs[i].id == m.outputs[i].id
            &&& p.outputs[i].name == m.outputs[i].name
            &&& p.outputs[i].resolved == m.outputs[i].resolved
            &&& p.outputs[i].logical == m.outputs[i].logical
        }),
{
    let (e, rp) = output::repainted(m.outputs[i], m.scene(), m.dim, token, instant, now);
    lemma_noted_keeps(m.with_output(i, e), token, e.name, None);
}

/// Opening or closing the overview changes nothing but that and the outputs.
pub proof fn lemma_overview_keeps(m: DaemonSpec, open: bool, now: u64)
    ensures
        ({
            let p = overview_set(m, open, now).0;
            &&& p == (DaemonSpec { outputs: p.outputs, overview_open: open, ..m })
            &&& p.outputs.len() == m.outputs.len()
        }),
{
    let ease = if open {
        Ease::Out
    } else {
        Ease::In
    };
    lemma_presented_keeps(
        DaemonSpec { overview_open: open, ..m },
        m.outputs.len(),
        ease,
        now,
    );
}

// -------------------------------------------------------------------- laws

/// What a render job reports to the `set` that waits for it: nothing, or why it
/// failed.
pub open spec fn reported_error(r: worker::JobResultSpec) -> Option<Seq<char>> {
    match r.outcome {
        Ok(_) => None,
        Err(reason) => Some(reason),
    }
}

/// A report on a render of an older generation, or for an output that is gone,
/// changes no output and draws nothing, whether the render came through or
/// failed; the `set` that waits for it hears of it all the same.
pub proof fn law_stale_render_is_discarded(m: DaemonSpec, r: worker::JobResultSpec, now: u64)
    requires
        place_of_name(m.outputs, r.output) matches Some(i) ==> m.outputs[i].generation
            != r.generation,
    ensures
        result_applied(m, r, now).0.outputs == m.outputs,
        result_applied(m, r, now) == noted(m, r.token, r.output, reported_error(r)),
        forall|k: int|
            0 <= k < result_applied(m, r, now).1.len() ==> #[trigger] result_applied(
                m,
                r,
                now,
            ).1[k] !is Show,
{
    lemma_noted_keeps(m, r.token, r.output, reported_error(r));
    let (after, acts) = noted(m, r.token, r.output, reported_error(r));
    assert(Seq::<ActionSpec>::empty() + acts =~= acts);
}

/// Of two renders of one output only the later one counts: once the output is
/// repainted again, the results of all its earlier jobs are discarded, failures
/// too, in whatever order they come in.
pub proof fn law_later_render_wins(
    m: DaemonSpec,
    i: int,
    token: u64,
    instant: bool,
    now: u64,
    r: worker::JobResultSpec,
    later: u64,
)
    requires
        0 <= i < m.outputs.len(),
        m.outputs[i].generation < u64::MAX,
        repainted_at(m, i, token, instant, now).0.outputs[i].generation
            != m.outputs[i].generation,
        is_first_named(m.outputs, i, r.output),
        r.generation <= m.outputs[i].generation,
    ensures
        ({
            let again = repainted_at(m, i, token, instant, now).0;
            result_applied(again, r, later).0.outputs == again.outputs
        }),
{
    let again = repainted_at(m, i, token, instant, now).0;
    lemma_repainted_at_keeps(m, i, token, instant, now);
    output::law_repaint_outdates_older_jobs(
        m.outputs[i],
        m.scene(),
        m.dim,
        token,
        instant,
        now,
    );
    assert(is_first_named(again.outputs, i, r.output)) by {
        assert forall|j: int| 0 <= j < i implies (#[trigger] again.outputs[j]).name != r.output by {
            assert(again.outputs[j] == m.outputs[j]);
            assert(m.outputs[j].name != r.output);
        }
    }
    lemma_first_named_is_found(again.outputs, i, r.output);
    law_stale_render_is_discarded(again, r, later);
}

/// A wallpaper that is finished while the overview is open appears blurred, and
/// otherwise sharp.
pub proof fn law_fresh_render_respects_the_overview(
    m: DaemonSpec,
    r: worker::JobResultSpec,
    now: u64,
    i: int,
)
    requires
        place_of_name(m.outputs, r.output) == Some(i),
        0 <= i < m.outputs.len(),
        m.outputs[i].generation == r.generation,
        r.outcome is Ok,
    ensures
        ({
            let e = result_applied(m, r, now).0.outputs[i];
            let target = if m.scene().blurs() {
                r.outcome->Ok_0.blurred
            } else {
                r.outcome->Ok_0.sharp
            };
            &&& e.showing == (if m.scene().blurs() {
                Showing::Blurred
            } else {
                Showing::Sharp
            })
            &&& e.transition matches Some(t) ==> t.to == target
            &&& e.transition is None ==> e.on_screen(now) == target
        }),
{
}

/// A finished render that is to be faded in starts from exactly what is on
/// screen: the first frame is the old picture, and nothing jumps.
pub proof fn law_fresh_render_fades_from_the_old_picture(
    m: DaemonSpec,
    r: worker::JobResultSpec,
    now: u64,
    i: int,
)
    requires
        m.wf(),
        place_of_name(m.outputs, r.output) == Some(i),
        0 <= i < m.outputs.len(),
        m.outputs[i].generation == r.generation,
        r.outcome is Ok,
        r.fade,
        m.config.transition_ms != 0,
        m.outputs[i].on_screen(now).len() > 0,
        m.outputs[i].on_screen(now).len() == (if m.scene().blurs() {
            r.outcome->Ok_0.blurred
        } else {
            r.outcome->Ok_0.sharp
        }).len(),
    ensures
        ({
            let (after, acts) = result_applied(m, r, now);
            let from = m.outputs[i].on_screen(now);
            let to = if m.scene().blurs() {
                r.outcome->Ok_0.blurred
            } else {
                r.outcome->Ok_0.sharp
            };
            &&& acts.len() > 0
            &&& acts[0] == ActionSpec::Show(
                output::CommitSpec {
                    id: m.outputs[i].id,
                    frame: output::FrameSpec::Fade { from, to, t: 0 },
                    size: r.outcome->Ok_0.size,
                },
            )
            &&& after.outputs[i].transition matches Some(t) && t.from == from && t.to == to
            &&& after.outputs[i].on_screen(now) == from
        }),
{
    let e = supplied(m.outputs[i], r.outcome->Ok_0);
    assert(m.outputs[i].wf());
    assert(e.on_screen(now) == m.outputs[i].on_screen(now));
    output::law_retarget_never_jumps(e, m.scene(), Ease::Out, now);
    let (shown, commit) = output::presented(e, m.scene(), Ease::Out, false, now);
    lemma_noted_keeps(m.with_output(i, shown), r.token, r.output, None);
}

/// A failed render leaves what is on screen alone: it draws nothing, and marks
/// the output if it was its last one.
pub proof fn law_failed_render_keeps_the_wallpaper(
    m: DaemonSpec,
    r: worker::JobResultSpec,
    now: u64,
    i: int,
    later: u64,
)
    requires
        r.outcome is Err,
        0 <= i < m.outputs.len(),
    ensures
        ({
            let (after, acts) = result_applied(m, r, now);
            &&& after.outputs.len() == m.outputs.len()
            &&& after.outputs[i].on_screen(later) == m.outputs[i].on_screen(later)
            &&& after.outputs[i].painted == m.outputs[i].painted
            &&& after.outputs[i].transition == m.outputs[i].transition
            &&& after.outputs[i].sharp == m.outputs[i].sharp
            &&& after.outputs[i].blurred == m.outputs[i].blurred
            &&& reported_place(m, r) == Some(i) ==> after.outputs[i].status
                == output::StatusSpec::Failed(r.outcome->Err_0)
            &&& forall|k: int| 0 <= k < acts.len() ==> #[trigger] acts[k] !is Show
        }),
{
}

/// A failure stays reported while frames of the old picture go on screen: only
/// a picture of the current wallpaper makes the output count as painted.
pub proof fn law_failure_outlasts_old_frames(
    m: DaemonSpec,
    r: worker::JobResultSpec,
    now: u64,
    i: int,
    size: Size,
    settled: bool,
)
    requires
        r.outcome is Err,
        0 <= i < m.outputs.len(),
        reported_place(m, r) == Some(i),
    ensures
        output::committed(result_applied(m, r, now).0.outputs[i], size, settled).0.status
            == output::StatusSpec::Failed(r.outcome->Err_0),
{
}

/// A result for one output leaves all others as they are.
pub proof fn law_result_touches_one_output(
    m: DaemonSpec,
    r: worker::JobResultSpec,
    now: u64,
    j: int,
)
    requires
        0 <= j < m.outputs.len(),
        place_of_name(m.outputs, r.output) != Some(j),
    ensures
        result_applied(m, r, now).0.outputs[j] == m.outputs[j],
{
    if let Some(i) = place_of_name(m.outputs, r.output) {
        assert(is_first_named(m.outputs, i, r.output));
    }
}

/// While blur is disabled the overview can open and close without a single
/// frame; only the report knows.
pub proof fn law_disabled_blur_never_draws(m: DaemonSpec, open: bool, now: u64)
    requires
        !m.config.blur.enable,
    ensures
        overview_set(m, open, now).1.len() == 0,
        overview_set(m, open, now).0 == (DaemonSpec { overview_open: open, ..m }),
{
}

/// Being told the overview state that is known already changes nothing.
pub proof fn law_overview_is_idempotent(m: DaemonSpec, open: bool, now: u64, later: u64)
    ensures
        ({
            let once = overview_set(m, open, now).0;
            &&& once.overview_open == open
            &&& overview_set(once, open, later) == (once, Seq::<ActionSpec>::empty())
        }),
{
    lemma_overview_keeps(m, open, now);
}

/// When the overview changes, every output that has something composed heads for
/// the matching buffer: blurred while it is open, sharp while it is closed.
pub proof fn law_overview_reaches_every_output(m: DaemonSpec, open: bool, now: u64, i: int)
    requires
        m.config.blur.enable,
        m.overview_open != open,
        0 <= i < m.outputs.len(),
        m.outputs[i].buffers_size is Some,
        m.outputs[i].sharp is Some,
        m.outputs[i].blurred is Some,
    ensures
        ({
            let e = overview_set(m, open, now).0.outputs[i];
            &&& e.showing == (if open {
                Showing::Blurred
            } else {
                Showing::Sharp
            })
            &&& e.transition matches Some(t) ==> t.to == (if open {
                m.outputs[i].blurred->0
            } else {
                m.outputs[i].sharp->0
            })
            &&& e.transition is None ==> e.on_screen(now) == (if open {
                m.outputs[i].blurred->0
            } else {
                m.outputs[i].sharp->0
            })
        }),
{
    let ease = if open {
        Ease::Out
    } else {
        Ease::In
    };
    let next = DaemonSpec { overview_open: open, ..m };
    lemma_presented_keeps(next, m.outputs.len(), ease, now);
    assert(presented_upto(next, m.outputs.len(), ease, now).0.outputs[i] == output::presented(
        next.outputs[i],
        next.scene(),
        ease,
        false,
        now,
    ).0);
}

/// Losing niri closes the overview, leaves everything else in place, and makes
/// the next wait at least as long as this one.
pub proof fn law_losing_niri_closes_the_overview(m: DaemonSpec, now: u64)
    requires
        m.wf(),
    ensures
        ({
            let after = niri_gone(m, now).0;
            &&& !after.niri_connected
            &&& !after.overview_open
            &&& after.config == m.config
            &&& after.pending == m.pending
            &&& after.niri_backoff_ms >= m.niri_backoff_ms
        }),
{
    lemma_overview_keeps(DaemonSpec { niri_connected: false, ..m }, false, now);
}

/// A `set` is answered by the result that settles its last outstanding output,
/// not before, and then it is forgotten, so it is answered only once.
pub proof fn law_set_is_answered_once(
    m: DaemonSpec,
    token: u64,
    name: Seq<char>,
    error: Option<Seq<char>>,
)
    requires
        m.wf(),
        token != 0,
        m.pending.contains_key(token),
        m.pending[token].client is Some,
        m.pending[token].outstanding.len() > 0,
    ensures
        ({
            let (after, acts) = noted(m, token, name, error);
            if m.pending[token].outstanding.len() == 1 {
                &&& acts.len() == 1
                &&& acts[0] == (ActionSpec::Answer {
                    client: m.pending[token].client->0,
                    reply: pending::answer(pending::drained(m.pending[token], name, error)),
                })
                &&& !after.pending.contains_key(token)
                &&& noted(after, token, name, error) == (after, Seq::<ActionSpec>::empty())
            } else {
                &&& acts.len() == 0
                &&& after.pending.contains_key(token)
                &&& after.pending[token].outstanding.len() == m.pending[token].outstanding.len() - 1
            }
        }),
{
    pending::law_each_result_settles_one(m.pending[token], name, error);
}

/// Whatever reports come in, the other pending `set`s are not affected.
pub proof fn law_results_touch_one_set(
    m: DaemonSpec,
    token: u64,
    name: Seq<char>,
    error: Option<Seq<char>>,
    other: u64,
)
    requires
        other != token,
    ensures
        noted(m, token, name, error).0.pending.contains_key(other) == m.pending.contains_key(other),
        m.pending.contains_key(other) ==> noted(m, token, name, error).0.pending[other]
            == m.pending[other],
{
}

/// A repaint draws at most one frame, on the output that is repainted.
pub proof fn law_repaint_draws_one_frame(m: DaemonSpec, i: int, token: u64, instant: bool, now: u64)
    requires
        0 <= i < m.outputs.len(),
    ensures
        forall|k: int|
            0 <= k < repainted_at(m, i, token, instant, now).1.len() ==> (#[trigger] repainted_at(
                m,
                i,
                token,
                instant,
                now,
            ).1[k] matches ActionSpec::Show(c) ==> k == 0 && c.id == m.outputs[i].id),
{
    let (e, rp) = output::repainted(m.outputs[i], m.scene(), m.dim, token, instant, now);
    let drawn = showing(rp.commit) + rendering(rp.job);
    let all = repainted_at(m, i, token, instant, now).1;
    assert forall|k: int| 0 <= k < all.len() implies (#[trigger] all[k] matches ActionSpec::Show(c)
        ==> k == 0 && c.id == m.outputs[i].id) by {
        if k < drawn.len() {
            assert(all[k] == drawn[k]);
        }
    }
}

/// An output is found by its id exactly if it is connected, and no other is
/// taken for it; by its name the first one of that name is found.
pub proof fn law_outputs_are_found(outputs: Seq<output::EntrySpec>, id: u64, name: Seq<char>, k: int)
    requires
        0 <= k < outputs.len(),
    ensures
        place_of(outputs, id) matches Some(i) ==> 0 <= i < outputs.len() && outputs[i].id == id,
        outputs[k].id == id ==> place_of(outputs, id) is Some,
        place_of_name(outputs, name) matches Some(i) ==> 0 <= i < outputs.len() && outputs[i].name
            == name,
        outputs[k].name == name ==> place_of_name(outputs, name) is Some && place_of_name(
            outputs,
            name,
        )->0 <= k,
    decreases k,
{
    if outputs[k].id == id {
        assert(is_at(outputs, k, id));
    }
    if outputs[k].name == name {
        if forall|j: int| 0 <= j < k ==> (#[trigger] outputs[j]).name != name {
            assert(is_first_named(outputs, k, name));
            lemma_first_named_is_found(outputs, k, name);
        } else {
            let j = choose|j: int| 0 <= j < k && (#[trigger] outputs[j]).name == name;
            law_outputs_are_found(outputs, id, name, j);
        }
    }
}

/// Without outputs none is found.
pub proof fn law_nothing_to_find(id: u64, name: Seq<char>)
    ensures
        place_of(Seq::empty(), id) is None,
        place_of_name(Seq::empty(), name) is None,
{
}

/// An output that just appeared has the wallpaper that is configured for its
/// name, or black and no image if that cannot be resolved. It has no size yet,
/// shows nothing, and is at a scale of one.
pub proof fn law_new_output_has_its_wallpaper(
    m: DaemonSpec,
    id: u64,
    name: Seq<char>,
    fractional: bool,
)
    ensures
        ({
            let e = fresh_output(m, id, name, fractional);
            &&& e.id == id && e.name == name && e.fractional == fractional && e.scale_120 == 120
            &&& e.logical is None && !e.configured
            &&& e.painted is None && e.shown is None && e.transition is None && !e.ready
            &&& e.sharp is None && e.blurred is None && e.buffers_size is None
            &&& e.status == output::StatusSpec::Pending && !e.frame_pending
            &&& match config::resolution(m.config.output, name, m.env, m.base) {
                Ok(w) => e.resolved == w,
                Err(_) => {
                    &&& e.resolved.path is None
                    &&& e.resolved.mode == Mode::Fill
                    &&& e.resolved.color == (Color { r: 0, g: 0, b: 0, a: 255 })
                },
            }
        }),
{
}

/// An output goes by its connector's name, and by its number only if it has
/// none.
pub proof fn law_output_names(name: Seq<char>, protocol_id: u32)
    ensures
        output_name(Some(name), protocol_id) == name,
        output_name(None, protocol_id) == "output-"@ + text::decimal(protocol_id as nat),
{
}

/// A repaint queues one job for an output that has a size to paint and an image,
/// and that job is for its own wallpaper, at its size, with the configured blur;
/// it queues none otherwise.
pub proof fn law_repaint_queues_the_wallpaper(
    m: DaemonSpec,
    i: int,
    token: u64,
    instant: bool,
    now: u64,
)
    requires
        0 <= i < m.outputs.len(),
        m.outputs[i].generation < u64::MAX,
    ensures
        ({
            let e = m.outputs[i];
            let (after, acts) = repainted_at(m, i, token, instant, now);
            let wants = e.configured && e.physical() is Some && e.physical()->0.w > 0
                && e.physical()->0.h > 0 && e.resolved.path is Some;
            &&& forall|k: int|
                0 <= k < acts.len() ==> (#[trigger] acts[k] matches ActionSpec::Render(j) ==> {
                    &&& wants
                    &&& Some(j.path) == e.resolved.path
                    &&& j.mode == e.resolved.mode
                    &&& j.fill == e.resolved.color
                    &&& Some(j.target) == e.physical()
                    &&& j.blur_radius == m.config.blur.radius
                    &&& j.blur_dim_bits == m.config.blur.dim_bits
                    &&& j.output == e.name
                    &&& j.token == token
                    &&& j.fade == !instant
                    &&& j.generation == after.outputs[i].generation
                    &&& j.generation == e.generation + 1
                })
            &&& wants ==> exists|k: int| 0 <= k < acts.len() && #[trigger] acts[k] is Render
        }),
{
    let e = m.outputs[i];
    output::law_job_carries_the_wallpaper(e, m.scene(), m.dim, token, instant, now);
    let (next, rp) = output::repainted(e, m.scene(), m.dim, token, instant, now);
    lemma_repainted_at_keeps(m, i, token, instant, now);
    let shows = showing(rp.commit);
    let drawn = shows + rendering(rp.job);
    let (after, acts) = repainted_at(m, i, token, instant, now);
    assert forall|k: int| 0 <= k < acts.len() implies (#[trigger] acts[k] matches ActionSpec::Render(
        j,
    ) ==> Some(j) == rp.job) by {
        if k < drawn.len() {
            assert(acts[k] == drawn[k]);
        }
    }
    if rp.job is Some {
        assert(drawn[shows.len() as int] == ActionSpec::Render(rp.job->0));
        assert(acts[shows.len() as int] is Render);
    }
}

proof fn lemma_presented_shows(m: DaemonSpec, n: nat, ease: Ease, now: u64, i: int)
    requires
        0 <= i < n <= m.outputs.len(),
        output::presented(m.outputs[i], m.scene(), ease, false, now).1 is Some,
    ensures
        presented_upto(m, n, ease, now).1.contains(
            ActionSpec::Show(
                output::presented(m.outputs[i], m.scene(), ease, false, now).1->0,
            ),
        ),
    decreases n,
{
    let act = ActionSpec::Show(output::presented(m.outputs[i], m.scene(), ease, false, now).1->0);
    let before = presented_upto(m, (n - 1) as nat, ease, now).1;
    let all = presented_upto(m, n, ease, now).1;
    if i < n - 1 {
        lemma_presented_shows(m, (n - 1) as nat, ease, now, i);
        let k = before.index_of(act);
        assert(all[k] == act);
    } else {
        assert(all[before.len() as int] == act);
    }
}

/// When the overview opens or closes, every output that has something composed
/// is sent the first frame toward the matching buffer, from exactly what it
/// shows: blurred while it is open, sharp while it is closed. The crossfade runs
/// for the configured time, easing out on opening and in on closing; with no
/// time configured the buffer itself is sent.
pub proof fn law_overview_sends_every_output_a_frame(m: DaemonSpec, open: bool, now: u64, i: int)
    requires
        m.config.blur.enable,
        m.overview_open != open,
        0 <= i < m.outputs.len(),
        m.outputs[i].buffers_size is Some,
        m.outputs[i].sharp is Some,
        m.outputs[i].blurred is Some,
    ensures
        ({
            let e = m.outputs[i];
            let (after, acts) = overview_set(m, open, now);
            let next = if open {
                e.blurred->0
            } else {
                e.sharp->0
            };
            let faded = m.config.transition_ms > 0 && e.on_screen(now).len() == next.len()
                && next.len() > 0;
            &&& after.outputs[i].shown == Some(next)
            &&& after.outputs[i].transition is Some <==> faded
            &&& acts.contains(
                ActionSpec::Show(
                    output::CommitSpec {
                        id: e.id,
                        frame: if faded {
                            output::FrameSpec::Fade { from: e.on_screen(now), to: next, t: 0 }
                        } else {
                            output::FrameSpec::Whole(next)
                        },
                        size: e.buffers_size->0,
                    },
                ),
            )
            &&& after.outputs[i].transition matches Some(t) ==> {
                &&& t.anim.start == now
                &&& t.anim.duration == m.config.transition_ms * 1_000_000
                &&& t.anim.ease == (if open {
                    Ease::Out
                } else {
                    Ease::In
                })
            }
        }),
{
    let ease = if open {
        Ease::Out
    } else {
        Ease::In
    };
    let next = DaemonSpec { overview_open: open, ..m };
    lemma_presented_keeps(next, m.outputs.len(), ease, now);
    assert(presented_upto(next, m.outputs.len(), ease, now).0.outputs[i] == output::presented(
        next.outputs[i],
        next.scene(),
        ease,
        false,
        now,
    ).0);
    output::law_when_a_change_is_faded(next.outputs[i], next.scene(), ease, false, now);
    lemma_presented_shows(next, m.outputs.len(), ease, now, i);
    assert(m.config.transition_ms * output::NANOS_PER_MS <= u64::MAX) by (nonlinear_arith)
        requires
            m.config.transition_ms <= u32::MAX,
            output::NANOS_PER_MS == 1_000_000,
    ;
}

/// Opening and closing the overview changes nothing else: not the configuration,
/// the pending `set`s or the connection to niri.
pub proof fn law_overview_changes_only_what_is_shown(m: DaemonSpec, open: bool, now: u64)
    ensures
        ({
            let after = overview_set(m, open, now).0;
            &&& after.overview_open == open
            &&& after.config == m.config && after.disk_config == m.disk_config
            &&& after.overrides == m.overrides && after.pending == m.pending
            &&& after.niri_connected == m.niri_connected
            &&& after.niri_backoff_ms == m.niri_backoff_ms
            &&& after.next_token == m.next_token
            &&& after.outputs.len() == m.outputs.len()
        }),
        m.overview_open == open ==> overview_set(m, open, now) == (m, Seq::<ActionSpec>::empty()),
{
    lemma_overview_keeps(m, open, now);
}

/// What a change of geometry does to an output and to nothing else: it is
/// repainted at its new size, without a fade.
pub open spec fn repainted_in_place(
    m: DaemonSpec,
    i: int,
    e: output::EntrySpec,
    after: DaemonSpec,
    acts: Seq<ActionSpec>,
) -> bool {
    let wants = e.configured && e.physical() is Some && e.physical()->0.w > 0 && e.physical()->0.h
        > 0;
    let f = after.outputs[i];
    &&& after.outputs.len() == m.outputs.len()
    &&& forall|j: int|
        0 <= j < m.outputs.len() && j != i ==> #[trigger] after.outputs[j] == m.outputs[j]
    &&& f.id == e.id && f.name == e.name && f.resolved == e.resolved
    &&& f.scale_120 == e.scale_120 && f.logical == e.logical && f.configured == e.configured
    &&& f.fractional == e.fractional
    &&& after.config == m.config && after.overview_open == m.overview_open
    &&& wants && e.resolved.path is None ==> f.buffers_size == e.physical() && f.transition is None
    &&& forall|k: int|
        0 <= k < acts.len() ==> match #[trigger] acts[k] {
            ActionSpec::Render(j) => {
                &&& wants
                &&& Some(j.target) == e.physical()
                &&& Some(j.path) == e.resolved.path
                &&& j.mode == e.resolved.mode
                &&& j.fill == e.resolved.color
                &&& j.token == 0
                &&& !j.fade
            },
            ActionSpec::Show(c) => c.id == e.id && Some(c.size) == e.physical(),
            _ => false,
        }
    &&& wants && e.resolved.path is Some ==> exists|k: int|
        0 <= k < acts.len() && #[trigger] acts[k] is Render
    &&& wants && e.resolved.path is None ==> exists|k: int|
        0 <= k < acts.len() && #[trigger] acts[k] is Show
}

proof fn lemma_repainted_in_place(m: DaemonSpec, i: int, e: output::EntrySpec, now: u64)
    requires
        0 <= i < m.outputs.len(),
        e.id == m.outputs[i].id,
        e.generation < u64::MAX,
    ensures
        ({
            let (after, acts) = repainted_at(m.with_output(i, e), i, 0, true, now);
            repainted_in_place(m, i, e, after, acts)
        }),
{
    let mid = m.with_output(i, e);
    let (after, acts) = repainted_at(mid, i, 0, true, now);
    lemma_repainted_at_keeps(mid, i, 0, true, now);
    law_repaint_queues_the_wallpaper(mid, i, 0, true, now);
    output::law_repainting_keeps_the_rest(e, mid.scene(), mid.dim, 0, true, now);
    let (next, rp) = output::repainted(e, mid.scene(), mid.dim, 0, true, now);
    let drawn = showing(rp.commit) + rendering(rp.job);
    assert(acts =~= drawn);
    assert forall|j: int| 0 <= j < m.outputs.len() && j != i implies #[trigger] after.outputs[j]
        == m.outputs[j] by {
        assert(mid.outputs[j] == m.outputs[j]);
    }
    assert(after.outputs[i] == next);
    if rp.commit is Some {
        assert(acts[0] is Show);
    }
}

/// A new fractional scale takes effect at once: the output has it, and is
/// repainted at the size that follows from it. Zero, the scale it has, and
/// outputs that are not there change nothing.
pub proof fn law_new_scale_repaints(m: DaemonSpec, id: u64, scale: u32, now: u64, i: int)
    requires
        m.wf(),
        m.has_room(),
        0 <= i < m.outputs.len(),
        m.outputs[i].id == id,
    ensures
        ({
            let (after, acts) = fractionally_scaled(m, id, scale, now);
            if scale == 0 || scale == m.outputs[i].scale_120 {
                after == m && acts.len() == 0
            } else {
                repainted_in_place(
                    m,
                    i,
                    output::EntrySpec { scale_120: scale, ..m.outputs[i] },
                    after,
                    acts,
                )
            }
        }),
{
    lemma_place_of(m.outputs, i, id);
    assert(m.outputs[i].generation < u64::MAX);
    lemma_repainted_in_place(
        m,
        i,
        output::EntrySpec { scale_120: scale, ..m.outputs[i] },
        now,
    );
}

/// A new integer scale, of which anything below one counts as one, takes effect
/// in the same way, but only on an output without a fractional one.
pub proof fn law_new_integer_scale_repaints(m: DaemonSpec, id: u64, factor: i32, now: u64, i: int)
    requires
        m.wf(),
        m.has_room(),
        0 <= i < m.outputs.len(),
        m.outputs[i].id == id,
        factor * 120 <= u32::MAX,
    ensures
        ({
            let (after, acts) = integrally_scaled(m, id, factor, now);
            let scale = (if factor >= 1 {
                factor * 120
            } else {
                120
            }) as u32;
            if m.outputs[i].fractional || scale == m.outputs[i].scale_120 {
                after == m && acts.len() == 0
            } else {
                repainted_in_place(
                    m,
                    i,
                    output::EntrySpec { scale_120: scale, ..m.outputs[i] },
                    after,
                    acts,
                )
            }
        }),
{
    let scale = (if factor >= 1 {
        factor * 120
    } else {
        120
    }) as u32;
    lemma_place_of(m.outputs, i, id);
    assert(m.outputs[i].generation < u64::MAX);
    lemma_repainted_in_place(
        m,
        i,
        output::EntrySpec { scale_120: scale, ..m.outputs[i] },
        now,
    );
}

/// A configure gives the output the size that it brings, or leaves it the one it
/// has if either side is zero, and paints it.
pub proof fn law_configure_sizes_and_paints(m: DaemonSpec, id: u64, w: u32, h: u32, now: u64, i: int)
    requires
        m.wf(),
        m.has_room(),
        0 <= i < m.outputs.len(),
        m.outputs[i].id == id,
    ensures
        ({
            let (after, acts) = configured(m, id, w, h, now);
            repainted_in_place(
                m,
                i,
                output::EntrySpec {
                    configured: true,
                    logical: if w > 0 && h > 0 {
                        Some((w, h))
                    } else {
                        m.outputs[i].logical
                    },
                    ..m.outputs[i]
                },
                after,
                acts,
            )
        }),
{
    lemma_place_of(m.outputs, i, id);
    assert(m.outputs[i].generation < u64::MAX);
    lemma_repainted_in_place(
        m,
        i,
        output::EntrySpec {
            configured: true,
            logical: if w > 0 && h > 0 {
                Some((w, h))
            } else {
                m.outputs[i].logical
            },
            ..m.outputs[i]
        },
        now,
    );
}

/// Geometry events for an output that is not there change nothing.
pub proof fn law_unknown_outputs_are_ignored(
    m: DaemonSpec,
    id: u64,
    w: u32,
    h: u32,
    scale: u32,
    factor: i32,
    now: u64,
    size: Size,
    settled: bool,
    cause: Seq<char>,
)
    requires
        forall|i: int| 0 <= i < m.outputs.len() ==> (#[trigger] m.outputs[i]).id != id,
    ensures
        configured(m, id, w, h, now) == (m, Seq::<ActionSpec>::empty()),
        fractionally_scaled(m, id, scale, now) == (m, Seq::<ActionSpec>::empty()),
        integrally_scaled(m, id, factor, now) == (m, Seq::<ActionSpec>::empty()),
        called_back(m, id, now) == (m, Seq::<ActionSpec>::empty()),
        commit_noted(m, id, size, settled) == (m, false),
        commit_refused(m, id, cause) == m,
{
}

/// A frame callback and the outcome of a frame concern the output that they name
/// and leave all others as they are. A refused frame is told as an error.
pub proof fn law_frame_events_reach_their_output(
    m: DaemonSpec,
    id: u64,
    now: u64,
    size: Size,
    settled: bool,
    cause: Seq<char>,
    i: int,
    j: int,
)
    requires
        m.wf(),
        0 <= i < m.outputs.len(),
        m.outputs[i].id == id,
        0 <= j < m.outputs.len(),
        j != i,
    ensures
        called_back(m, id, now).0.outputs[i] == output::advanced(m.outputs[i], now).0,
        called_back(m, id, now).1 == (match output::advanced(m.outputs[i], now).1 {
            Some(c) => seq![ActionSpec::Show(c)],
            None => Seq::<ActionSpec>::empty(),
        }),
        called_back(m, id, now).0.outputs[j] == m.outputs[j],
        commit_noted(m, id, size, settled).0.outputs[i] == output::committed(
            m.outputs[i],
            size,
            settled,
        ).0,
        commit_noted(m, id, size, settled).1 == output::committed(m.outputs[i], size, settled).1,
        commit_noted(m, id, size, settled).0.outputs[j] == m.outputs[j],
        commit_refused(m, id, cause).outputs[i].status == output::StatusSpec::Failed(
            "shm: "@ + cause,
        ),
        commit_refused(m, id, cause).outputs[i].on_screen(now) == m.outputs[i].on_screen(now),
        commit_refused(m, id, cause).outputs[j] == m.outputs[j],
{
    lemma_place_of(m.outputs, i, id);
}

/// A finished render that is not stale is kept as it came: both buffers and
/// their size. It is on its way to the screen, and the output counts as ready.
pub proof fn law_fresh_render_is_kept(m: DaemonSpec, r: worker::JobResultSpec, now: u64, i: int)
    requires
        is_first_named(m.outputs, i, r.output),
        m.outputs[i].generation == r.generation,
        r.outcome is Ok,
    ensures
        ({
            let pic = r.outcome->Ok_0;
            let (after, acts) = result_applied(m, r, now);
            let e = after.outputs[i];
            let next = if m.overview_open && m.config.blur.enable {
                pic.blurred
            } else {
                pic.sharp
            };
            let faded = r.fade && m.config.transition_ms > 0 && m.outputs[i].on_screen(now).len()
                == next.len() && next.len() > 0;
            &&& e.sharp == Some(pic.sharp)
            &&& e.blurred == Some(pic.blurred)
            &&& e.buffers_size == Some(pic.size)
            &&& e.ready
            &&& e.shown == Some(next)
            &&& e.id == m.outputs[i].id && e.name == m.outputs[i].name
            &&& e.resolved == m.outputs[i].resolved && e.status == m.outputs[i].status
            &&& e.transition is Some <==> faded
            &&& e.transition matches Some(t) ==> t.anim.start == now && t.anim.duration
                == m.config.transition_ms * 1_000_000 && t.anim.ease == Ease::Out
            &&& acts.len() > 0
            &&& acts[0] == ActionSpec::Show(
                output::CommitSpec {
                    id: m.outputs[i].id,
                    frame: if faded {
                        output::FrameSpec::Fade {
                            from: m.outputs[i].on_screen(now),
                            to: next,
                            t: 0,
                        }
                    } else {
                        output::FrameSpec::Whole(next)
                    },
                    size: pic.size,
                },
            )
        }),
{
    lemma_first_named_is_found(m.outputs, i, r.output);
    let e = supplied(m.outputs[i], r.outcome->Ok_0);
    output::law_when_a_change_is_faded(e, m.scene(), Ease::Out, !r.fade, now);
    let shown = output::presented(e, m.scene(), Ease::Out, !r.fade, now).0;
    lemma_noted_keeps(m.with_output(i, shown), r.token, r.output, None);
    assert(m.config.transition_ms * output::NANOS_PER_MS <= u64::MAX) by (nonlinear_arith)
        requires
            m.config.transition_ms <= u32::MAX,
            output::NANOS_PER_MS == 1_000_000,
    ;
}

/// A repaint that belongs to no `set` answers nobody, and a `set` that is not
/// pending any more is not answered again.
pub proof fn law_nobody_waits_for_a_plain_repaint(
    m: DaemonSpec,
    token: u64,
    name: Seq<char>,
    error: Option<Seq<char>>,
)
    requires
        token == 0 || !m.pending.contains_key(token),
    ensures
        noted(m, token, name, error) == (m, Seq::<ActionSpec>::empty()),
{
}

/// A client that is attached to a `set` is answered at once if nothing is
/// outstanding, and otherwise waits; either way no output is touched.
pub proof fn law_attached_client_is_answered_when_done(m: DaemonSpec, token: u64, client: u64)
    requires
        m.pending.contains_key(token),
    ensures
        ({
            let p = m.pending[token];
            let (after, acts) = attached(m, token, client);
            &&& after.outputs == m.outputs && after.config == m.config
            &&& after.next_token == m.next_token
            &&& p.outstanding.len() == 0 ==> {
                &&& acts.len() == 1
                &&& acts[0] == (ActionSpec::Answer { client, reply: pending::answer(p) })
                &&& !after.pending.contains_key(token)
            }
            &&& p.outstanding.len() > 0 ==> {
                &&& acts.len() == 0
                &&& after.pending.contains_key(token)
                &&& after.pending[token].client == Some(client)
                &&& after.pending[token].outstanding == p.outstanding
                &&& after.pending[token].failures == p.failures
            }
        }),
{
}

/// After each failure the wait for niri doubles, up to five seconds, and losing
/// niri counts as one; everything else stays but the overview, which closes.
pub proof fn law_niri_waits_double(m: DaemonSpec, now: u64)
    requires
        m.wf(),
    ensures
        ({
            let twice: int = if m.niri_backoff_ms * 2 <= 5000 {
                m.niri_backoff_ms * 2
            } else {
                5000
            };
            let lost = niri_gone(m, now).0;
            &&& postponed(m) == (DaemonSpec { niri_backoff_ms: twice as u32, ..m })
            &&& postponed(m).niri_backoff_ms == twice
            &&& lost.niri_backoff_ms == twice
            &&& !lost.niri_connected && !lost.overview_open
            &&& niri_gone(m, now).1 == overview_set(m, false, now).1
            &&& lost.outputs == overview_set(m, false, now).0.outputs
            &&& lost.overrides == m.overrides && lost.next_token == m.next_token
        }),
{
    let cut = DaemonSpec { niri_connected: false, ..m };
    lemma_overview_keeps(cut, false, now);
    lemma_overview_keeps(m, false, now);
    if m.overview_open && m.config.blur.enable {
        lemma_presented_alike(
            DaemonSpec { overview_open: false, ..cut },
            DaemonSpec { overview_open: false, ..m },
            m.outputs.len(),
            Ease::In,
            now,
        );
    }
}

proof fn lemma_presented_alike(a: DaemonSpec, b: DaemonSpec, n: nat, ease: Ease, now: u64)
    requires
        n <= a.outputs.len(),
        a.outputs == b.outputs,
        a.config == b.config,
        a.overview_open == b.overview_open,
    ensures
        presented_upto(a, n, ease, now).0.outputs == presented_upto(b, n, ease, now).0.outputs,
        presented_upto(a, n, ease, now).1 == presented_upto(b, n, ease, now).1,
    decreases n,
{
    if n > 0 {
        lemma_presented_alike(a, b, (n - 1) as nat, ease, now);
    }
}

/// An event line of niri that tells the overview state has the effect of that
/// state; any other line has none.
pub proof fn law_niri_lines_drive_the_overview(m: DaemonSpec, line: Seq<u8>, now: u64, open: bool)
    ensures
        niri::overview_of_line(line) == Some(open) ==> niri_said(m, line, now) == overview_set(
            m,
            open,
            now,
        ),
        niri::overview_of_line(line) is None ==> niri_said(m, line, now) == (
            m,
            Seq::<ActionSpec>::empty(),
        ),
{
}

/// A new output comes last, under its connector's name and with the wallpaper
/// that is configured for it. The others, and everything else, stay as they are;
/// nothing changes for one that is there already.
pub proof fn law_new_output_comes_last(
    m: DaemonSpec,
    id: u64,
    name: Seq<char>,
    protocol_id: u32,
    fractional: bool,
)
    ensures
        ({
            let after = appeared(m, id, Some(name), protocol_id, fractional);
            let known = exists|i: int|
                0 <= i < m.outputs.len() && (#[trigger] m.outputs[i]).id == id;
            &&& known ==> after == m
            &&& !known ==> {
                &&& after.outputs.len() == m.outputs.len() + 1
                &&& after.outputs.drop_last() == m.outputs
                &&& after.outputs.last().id == id
                &&& after.outputs.last().name == name
                &&& after.outputs.last().fractional == fractional
                &&& config::resolution(m.config.output, name, m.env, m.base) matches Ok(w)
                    ==> after.outputs.last().resolved == w
            }
            &&& after == (DaemonSpec { outputs: after.outputs, ..m })
        }),
{
    let after = appeared(m, id, Some(name), protocol_id, fractional);
    if exists|i: int| 0 <= i < m.outputs.len() && (#[trigger] m.outputs[i]).id == id {
        let i = choose|i: int| 0 <= i < m.outputs.len() && (#[trigger] m.outputs[i]).id == id;
        assert(is_at(m.outputs, i, id));
    } else {
        assert(after.outputs.drop_last() =~= m.outputs);
    }
}

/// An output that goes away is gone, and the others stay, in their order and as
/// they are. A `set` that waits for it goes on waiting.
pub proof fn law_only_the_output_goes_away(m: DaemonSpec, id: u64, i: int)
    requires
        m.wf(),
        0 <= i < m.outputs.len(),
        m.outputs[i].id == id,
    ensures
        vanished(m, id).outputs == m.outputs.take(i) + m.outputs.skip(i + 1),
        forall|j: int|
            0 <= j < vanished(m, id).outputs.len() ==> (#[trigger] vanished(m, id).outputs[j]).id
                != id,
        vanished(m, id) == (DaemonSpec { outputs: vanished(m, id).outputs, ..m }),
{
    assert(is_at(m.outputs, i, id));
    lemma_place_of(m.outputs, i, id);
    assert(m.outputs.remove(i) =~= m.outputs.take(i) + m.outputs.skip(i + 1));
    assert forall|j: int| 0 <= j < vanished(m, id).outputs.len() implies (
    #[trigger] vanished(m, id).outputs[j]).id != id by {
        if j < i {
            assert(vanished(m, id).outputs[j] == m.outputs[j]);
        } else {
            assert(vanished(m, id).outputs[j] == m.outputs[j + 1]);
        }
    }
}

/// What is not connected cannot go away.
pub proof fn law_unknown_outputs_do_not_go_away(m: DaemonSpec, id: u64)
    requires
        forall|i: int| 0 <= i < m.outputs.len() ==> (#[trigger] m.outputs[i]).id != id,
    ensures
        vanished(m, id) == m,
{
}

/// Giving up one `set` forgets that one, and no other.
pub proof fn law_only_one_set_is_abandoned(m: DaemonSpec, token: u64, other: u64)
    ensures
        !abandoned(m, token).pending.contains_key(token),
        other != token ==> (abandoned(m, token).pending.contains_key(other)
            <==> m.pending.contains_key(other)),
        other != token && m.pending.contains_key(other) ==> abandoned(m, token).pending[other]
            == m.pending[other],
        abandoned(m, token) == (DaemonSpec { pending: abandoned(m, token).pending, ..m }),
{
}

/// Once niri is connected the next wait starts over at a quarter of a second;
/// nothing else changes by it.
pub proof fn law_connecting_starts_the_waits_over(m: DaemonSpec)
    ensures
        niri_came(m).niri_connected,
        niri_came(m).niri_backoff_ms == 250,
        niri_came(m) == (DaemonSpec {
            niri_connected: niri_came(m).niri_connected,
            niri_backoff_ms: niri_came(m).niri_backoff_ms,
            ..m
        }),
{
}

} // verus!
