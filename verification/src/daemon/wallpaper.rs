//! Changing what the outputs show: `set`, `reload` and `reset`.

use vstd::prelude::*;

use crate::color;
use crate::color::{Color, DimSteps};
use crate::config;
use crate::config::{Config, OutputConfig, Resolved, DEFAULT_SLOT};
use crate::daemon::control;
use crate::daemon::control::{extend, Action, DaemonState};
use crate::daemon::ipc;
use crate::daemon::ipc::{SetDispatch, SetRequest};
use crate::daemon::output;
use crate::daemon::output::{OutputEntry, PaintStatus};
use crate::daemon::pending;
use crate::daemon::pending::{push_once, PendingSet};
use crate::daemon::render;
use crate::daemon::worker;
use crate::paths;
use crate::paths::same_opt_path;
use crate::proto;
use crate::proto::{ReplyData, WireReply};
use crate::slots;
use crate::state;
use crate::state::{effective, State};
use crate::text::str_eq;

verus! {

broadcast use vstd::std_specs::hash::group_hash_axioms;

// ------------------------------------------------------------------- model

/// The slot that a `set` is for.
pub open spec fn slot_of(req: ipc::SetSpec) -> Seq<char> {
    match req.slot {
        Some(s) => s,
        None => DEFAULT_SLOT@,
    }
}

/// The configuration after a `set` was stored: among the overrides if it is to
/// be remembered, else only in effect until the next reload.
pub open spec fn stored(m: control::DaemonSpec, req: ipc::SetSpec) -> control::DaemonSpec {
    let slot = slot_of(req);
    if req.persist {
        let overrides = slots::patched(m.overrides, slot, req.patch);
        control::DaemonSpec {
            overrides,
            config: state::effective_model(m.disk_config, overrides),
            ..m
        }
    } else {
        control::DaemonSpec {
            config: config::ConfigSpec {
                output: slots::patched(m.config.output, slot, req.patch),
                ..m.config
            },
            ..m
        }
    }
}

/// Whether a `set` on `slot` is for the output `name`: the connector of that
/// name, or, for the default slot, every output without a table of its own.
pub open spec fn targeted(
    output: Map<Seq<char>, config::OutputSpec>,
    slot: Seq<char>,
    name: Seq<char>,
) -> bool {
    if slot == DEFAULT_SLOT@ {
        !output.contains_key(name)
    } else {
        name == slot
    }
}

/// The names of those of the first `n` outputs that a `set` on `slot` is for.
pub open spec fn target_names(m: control::DaemonSpec, slot: Seq<char>, n: nat) -> Seq<Seq<char>>
    decreases n,
{
    if n == 0 {
        Seq::empty()
    } else {
        let before = target_names(m, slot, (n - 1) as nat);
        let name = m.outputs[n - 1].name;
        if targeted(m.config.output, slot, name) {
            pending::pushed_once(before, name)
        } else {
            before
        }
    }
}

/// The output given another wallpaper. One with another image counts as not
/// painted until that is rendered; what is on screen stays there meanwhile.
pub open spec fn retargeted(e: output::EntrySpec, w: config::ResolvedSpec) -> output::EntrySpec {
    let new_image = w.path is Some && paths::opt_path_key(e.resolved.path) != paths::opt_path_key(
        w.path,
    );
    output::EntrySpec {
        resolved: w,
        status: if new_image {
            output::StatusSpec::Pending
        } else {
            e.status
        },
        ready: e.ready && !new_image,
        ..e
    }
}

/// Output `i` given the wallpaper that is configured for it, if that can be
/// resolved.
pub open spec fn reresolved(m: control::DaemonSpec, i: int) -> control::DaemonSpec {
    match m.resolution(m.outputs[i].name) {
        Ok(w) => m.with_output(i, retargeted(m.outputs[i], w)),
        Err(_) => m,
    }
}

/// Those of the first `n` outputs that a `set` on `slot` is for, repainted.
pub open spec fn set_upto(
    m: control::DaemonSpec,
    slot: Seq<char>,
    n: nat,
    token: u64,
    instant: bool,
    now: u64,
) -> (control::DaemonSpec, Seq<control::ActionSpec>)
    decreases n,
{
    if n == 0 {
        (m, Seq::empty())
    } else {
        let (before, acts) = set_upto(m, slot, (n - 1) as nat, token, instant, now);
        if targeted(m.config.output, slot, m.outputs[n - 1].name) {
            let (after, more) = control::repainted_at(
                reresolved(before, n - 1),
                n - 1,
                token,
                instant,
                now,
            );
            (after, acts + more)
        } else {
            (before, acts)
        }
    }
}

/// What a client is told when nothing shows the change.
pub open spec fn stored_note(slot: Seq<char>) -> Seq<char> {
    if slot == DEFAULT_SLOT@ {
        "stored; no outputs are currently connected"@
    } else {
        "stored; "@ + slot + " is not currently connected"@
    }
}

/// Writing the overrides to disk, if the `set` is to be remembered.
pub open spec fn saving(req: ipc::SetSpec) -> Seq<control::ActionSpec> {
    if req.persist {
        seq![control::ActionSpec::Save]
    } else {
        Seq::empty()
    }
}

/// A `set` was carried out: it is stored, and the outputs it is for are
/// repainted under one token that the reply waits for. If there is none the
/// reply comes at once.
pub open spec fn wallpaper_set(m: control::DaemonSpec, req: ipc::SetSpec, now: u64) -> (
    control::DaemonSpec,
    Seq<control::ActionSpec>,
    ipc::SetDispatchSpec,
) {
    let slot = slot_of(req);
    let kept = stored(m, req);
    let names = target_names(kept, slot, kept.outputs.len());
    if names.len() == 0 {
        (
            kept,
            saving(req),
            ipc::SetDispatchSpec::Now(
                proto::succeeded(proto::DataSpec::Note(stored_note(slot))),
            ),
        )
    } else {
        let token = kept.next_token;
        let waiting = control::DaemonSpec {
            next_token: (token + 1) as u64,
            pending: kept.pending.insert(token, pending::fresh(names)),
            ..kept
        };
        let (done, acts) = set_upto(waiting, slot, kept.outputs.len(), token, !req.fade, now);
        (done, saving(req) + acts, ipc::SetDispatchSpec::Deferred(token))
    }
}

/// The configuration after the file and the overrides were read again.
pub open spec fn reread(
    m: control::DaemonSpec,
    disk: config::ConfigSpec,
    overrides: Map<Seq<char>, config::OutputSpec>,
    dim: Seq<u8>,
) -> control::DaemonSpec {
    control::DaemonSpec {
        disk_config: disk,
        overrides,
        dim,
        config: state::effective_model(disk, overrides),
        ..m
    }
}

/// Those of the first `n` outputs whose wallpaper changed, repainted with a
/// crossfade, and how many they are.
pub open spec fn reloaded_upto(m: control::DaemonSpec, n: nat, now: u64) -> (
    control::DaemonSpec,
    Seq<control::ActionSpec>,
    nat,
)
    decreases n,
{
    if n == 0 {
        (m, Seq::empty(), 0)
    } else {
        let (before, acts, changed) = reloaded_upto(m, (n - 1) as nat, now);
        let e = m.outputs[n - 1];
        match m.resolution(e.name) {
            Ok(w) => if config::same_wallpaper(e.resolved, w) {
                (before, acts, changed)
            } else {
                let (after, more) = control::repainted_at(
                    before.with_output(n - 1, retargeted(e, w)),
                    n - 1,
                    0,
                    false,
                    now,
                );
                (after, acts + more, changed + 1)
            },
            Err(_) => (before, acts, changed),
        }
    }
}

// -------------------------------------------------------------------- code

/// Give an output another wallpaper.
fn retarget(e: &mut OutputEntry, w: Resolved)
    ensures
        final(e)@ == retargeted(old(e)@, w@),
{
    let new_image = w.path.is_some() && !same_opt_path(&e.resolved.path, &w.path);
    e.resolved = w;
    if new_image {
        e.status = PaintStatus::Pending;
        e.ready = false;
    }
}

impl DaemonState {
    /// Whether a `set` on `slot` is for the output `name`.
    fn is_target(&self, slot: &str, name: &str) -> (r: bool)
        ensures
            r == targeted(self@.config.output, slot@, name@),
    {
        if str_eq(slot, DEFAULT_SLOT) {
            !self.config.output.contains_key(name)
        } else {
            str_eq(name, slot)
        }
    }

    /// The names of the connected outputs that a `set` on `slot` is for.
    fn slot_targets(&self, slot: &str) -> (r: Vec<String>)
        ensures
            slots::views(r@) == target_names(self@, slot@, self@.outputs.len()),
            slots::views(r@).no_duplicates(),
    {
        let mut names: Vec<String> = Vec::new();
        assert(slots::views(names@) =~= Seq::empty());
        let mut i: usize = 0;
        while i < self.outputs.len()
            invariant
                i <= self.outputs@.len(),
                slots::views(names@) == target_names(self@, slot@, i as nat),
                slots::views(names@).no_duplicates(),
            decreases self.outputs@.len() - i,
        {
            assert(self@.outputs[i as int].name == self.outputs@[i as int].name@);
            if self.is_target(slot, self.outputs[i].name.as_str()) {
                push_once(&mut names, &self.outputs[i].name);
            }
            i += 1;
        }
        names
    }

    /// Rebuild the effective configuration.
    fn rebuild_effective(&mut self)
        ensures
            final(self)@ == (control::DaemonSpec {
                config: state::effective_model(old(self)@.disk_config, old(self)@.overrides),
                ..old(self)@
            }),
    {
        self.config = effective(&self.disk_config, &self.state);
    }

    /// Give output `i` the wallpaper that is configured for it and repaint it.
    fn reresolve_and_repaint(&mut self, i: usize, token: u64, instant: bool, now: u64) -> (r: Vec<
        Action,
    >)
        requires
            old(self)@.wf(),
            i < old(self).outputs@.len(),
            old(self)@.outputs[i as int].generation < u64::MAX,
        ensures
            ({
                let (after, acts) = control::repainted_at(
                    reresolved(old(self)@, i as int),
                    i as int,
                    token,
                    instant,
                    now,
                );
                &&& final(self)@ == after
                &&& control::actions(r@) == acts
            }),
            final(self)@.wf(),
            final(self)@ == (control::DaemonSpec {
                outputs: final(self)@.outputs,
                pending: final(self)@.pending,
                ..old(self)@
            }),
            final(self).outputs@.len() == old(self).outputs@.len(),
            forall|j: int|
                0 <= j < old(self)@.outputs.len() && j != i ==> #[trigger] final(self)@.outputs[j]
                    == old(self)@.outputs[j],
    {
        let ghost before = self@;
        assert(before.outputs[i as int].wf());
        let name = self.outputs[i].name.clone();
        assert(name@ == before.outputs[i as int].name);
        if let Ok((w, _)) = self.config.resolve(name.as_str(), &self.env, &self.base) {
            retarget(&mut self.outputs[i], w);
            assert(self@.outputs =~= before.outputs.update(
                i as int,
                retargeted(before.outputs[i as int], w@),
            ));
        }
        let ghost mid = self@;
        assert(mid == reresolved(before, i as int));
        assert(mid.wf());
        proof {
            control::lemma_repainted_at_keeps(mid, i as int, token, instant, now);
        }
        self.repaint_tagged(i, token, instant, now)
    }

    /// Carry out a `set`: store it, and repaint the outputs it is for.
    pub fn set_wallpaper(&mut self, req: SetRequest, now: u64) -> (r: (SetDispatch, Vec<Action>))
        requires
            old(self)@.wf(),
            old(self)@.has_room(),
        ensures
            final(self)@ == wallpaper_set(old(self)@, req@, now).0,
            control::actions(r.1@) == wallpaper_set(old(self)@, req@, now).1,
            r.0@ == wallpaper_set(old(self)@, req@, now).2,
            final(self)@.wf(),
    {
        let ghost spec_req = req@;
        let ghost start = self@;
        let slot = match req.slot {
            Some(s) => s,
            None => DEFAULT_SLOT.to_string(),
        };
        let instant = !req.fade;
        let patch = OutputConfig { path: req.path, mode: req.mode, color: req.color };
        let mut list: Vec<Action> = Vec::new();
        if req.persist {
            self.state.apply_set(slot.as_str(), patch);
            list.push(Action::Save);
            self.rebuild_effective();
        } else {
            self.config.output.patch(slot.as_str(), patch);
        }
        assert(control::actions(list@) =~= saving(spec_req));
        let ghost kept = self@;
        assert(kept == stored(start, spec_req));
        let names = self.slot_targets(slot.as_str());
        if names.len() == 0 {
            let note = if str_eq(slot.as_str(), DEFAULT_SLOT) {
                "stored; no outputs are currently connected".to_string()
            } else {
                let mut n = "stored; ".to_string();
                n.push_str(slot.as_str());
                n.push_str(" is not currently connected");
                n
            };
            return (SetDispatch::Now(WireReply::ok(ReplyData::Note(note))), list);
        }
        let token = self.next_token;
        self.next_token = token + 1;
        let waiting = PendingSet::new(names);
        let ghost fresh = waiting@;
        self.pending_sets.insert(token, waiting);
        assert(control::pending_view(self.pending_sets@) =~= kept.pending.insert(token, fresh));
        let ghost m = self@;
        let ghost saved = control::actions(list@);
        assert(saved + Seq::<control::ActionSpec>::empty() =~= saved);
        let mut i: usize = 0;
        while i < self.outputs.len()
            invariant
                i <= self.outputs@.len(),
                self.outputs@.len() == m.outputs.len(),
                self@.wf(),
                forall|j: int|
                    0 <= j < m.outputs.len() ==> (#[trigger] m.outputs[j]).generation < u64::MAX,
                self@ == set_upto(m, slot@, i as nat, token, instant, now).0,
                control::actions(list@) == saved + set_upto(
                    m,
                    slot@,
                    i as nat,
                    token,
                    instant,
                    now,
                ).1,
                self@ == (control::DaemonSpec {
                    outputs: self@.outputs,
                    pending: self@.pending,
                    ..m
                }),
                forall|j: int|
                    i <= j < m.outputs.len() ==> #[trigger] self@.outputs[j] == m.outputs[j],
            decreases self.outputs@.len() - i,
        {
            let ghost before = self@;
            assert(before.outputs[i as int] == m.outputs[i as int]);
            assert(m.outputs[i as int].generation < u64::MAX);
            assert(self.outputs@[i as int].name@ == m.outputs[i as int].name);
            if self.is_target(slot.as_str(), self.outputs[i].name.as_str()) {
                let more = self.reresolve_and_repaint(i, token, instant, now);
                let ghost sofar = set_upto(m, slot@, i as nat, token, instant, now).1;
                let ghost added = control::actions(more@);
                extend(&mut list, more);
                assert(control::actions(list@) =~= saved + (sofar + added));
            }
            i += 1;
        }
        (SetDispatch::Deferred(token), list)
    }

    /// Give output `i` the wallpaper that is configured for it, and repaint it
    /// with a crossfade if that is another one. Says whether it is.
    fn reload_output(&mut self, i: usize, now: u64) -> (r: (Vec<Action>, bool))
        requires
            old(self)@.wf(),
            i < old(self).outputs@.len(),
            old(self)@.outputs[i as int].generation < u64::MAX,
        ensures
            ({
                let e = old(self)@.outputs[i as int];
                let (after, acts, changed) = match old(self)@.resolution(e.name) {
                    Ok(w) => if config::same_wallpaper(e.resolved, w) {
                        (old(self)@, Seq::empty(), false)
                    } else {
                        let (a, b) = control::repainted_at(
                            old(self)@.with_output(i as int, retargeted(e, w)),
                            i as int,
                            0,
                            false,
                            now,
                        );
                        (a, b, true)
                    },
                    Err(_) => (old(self)@, Seq::empty(), false),
                };
                &&& final(self)@ == after
                &&& control::actions(r.0@) == acts
                &&& r.1 == changed
            }),
            final(self)@.wf(),
            final(self)@ == (control::DaemonSpec {
                outputs: final(self)@.outputs,
                pending: final(self)@.pending,
                ..old(self)@
            }),
            final(self).outputs@.len() == old(self).outputs@.len(),
            forall|j: int|
                0 <= j < old(self)@.outputs.len() && j != i ==> #[trigger] final(self)@.outputs[j]
                    == old(self)@.outputs[j],
    {
        let ghost before = self@;
        assert(before.outputs[i as int].wf());
        let name = self.outputs[i].name.clone();
        assert(name@ == before.outputs[i as int].name);
        if let Ok((w, _)) = self.config.resolve(name.as_str(), &self.env, &self.base) {
            if !self.outputs[i].resolved.same(&w) {
                retarget(&mut self.outputs[i], w);
                let ghost mid = self@;
                assert(mid.outputs =~= before.outputs.update(
                    i as int,
                    retargeted(before.outputs[i as int], w@),
                ));
                assert(mid.wf());
                proof {
                    control::lemma_repainted_at_keeps(mid, i as int, 0, false, now);
                }
                let list = self.repaint_tagged(i, 0, false, now);
                return (list, true);
            }
        }
        let none: Vec<Action> = Vec::new();
        assert(control::actions(none@) =~= Seq::empty());
        (none, false)
    }

    /// Take over a configuration file and overrides that were read again: give
    /// every output what is configured for it now, and repaint the ones that
    /// changed. Says how many they are.
    pub fn reload_config(&mut self, disk: Config, overrides: State, dim: DimSteps, now: u64) -> (r: (
        u64,
        Vec<Action>,
    ))
        requires
            old(self)@.wf(),
            old(self)@.has_room(),
        ensures
            ({
                let m = reread(old(self)@, disk@, overrides@, dim@);
                let (after, acts, changed) = reloaded_upto(m, m.outputs.len(), now);
                &&& final(self)@ == after
                &&& control::actions(r.1@) == acts
                &&& r.0 == changed
            }),
            final(self)@.wf(),
    {
        self.disk_config = disk;
        self.state = overrides;
        self.dim = dim;
        self.rebuild_effective();
        let ghost m = self@;
        let mut list: Vec<Action> = Vec::new();
        assert(control::actions(list@) =~= Seq::empty());
        let mut changed: u64 = 0;
        let mut i: usize = 0;
        while i < self.outputs.len()
            invariant
                i <= self.outputs@.len(),
                changed <= i,
                self.outputs@.len() == m.outputs.len(),
                self@.wf(),
                forall|j: int|
                    0 <= j < m.outputs.len() ==> (#[trigger] m.outputs[j]).generation < u64::MAX,
                self@ == reloaded_upto(m, i as nat, now).0,
                control::actions(list@) == reloaded_upto(m, i as nat, now).1,
                changed == reloaded_upto(m, i as nat, now).2,
                self@ == (control::DaemonSpec {
                    outputs: self@.outputs,
                    pending: self@.pending,
                    ..m
                }),
                forall|j: int|
                    i <= j < m.outputs.len() ==> #[trigger] self@.outputs[j] == m.outputs[j],
            decreases self.outputs@.len() - i,
        {
            assert(self@.outputs[i as int] == m.outputs[i as int]);
            assert(m.outputs[i as int].generation < u64::MAX);
            let (more, did) = self.reload_output(i, now);
            extend(&mut list, more);
            if did {
                changed += 1;
            } else {
                assert(control::actions(list@) =~= reloaded_upto(m, i as nat, now).1);
            }
            i += 1;
        }
        (changed, list)
    }
}

// -------------------------------------------------------------------- laws

/// What a `set` makes of one of the outputs it is for.
pub open spec fn set_output(
    m: control::DaemonSpec,
    e: output::EntrySpec,
    token: u64,
    instant: bool,
    now: u64,
) -> output::EntrySpec {
    let next = match m.resolution(e.name) {
        Ok(w) => retargeted(e, w),
        Err(_) => e,
    };
    output::repainted(next, m.scene(), m.dim, token, instant, now).0
}

proof fn lemma_set_output_keeps(
    m: control::DaemonSpec,
    e: output::EntrySpec,
    token: u64,
    instant: bool,
    now: u64,
)
    ensures
        set_output(m, e, token, instant, now).id == e.id,
        set_output(m, e, token, instant, now).name == e.name,
{
}

/// A `set` works on its targets one by one, and on nothing else but the pending
/// `set`s.
pub proof fn lemma_set_upto(
    m: control::DaemonSpec,
    slot: Seq<char>,
    n: nat,
    token: u64,
    instant: bool,
    now: u64,
)
    requires
        n <= m.outputs.len(),
    ensures
        ({
            let p = set_upto(m, slot, n, token, instant, now).0;
            &&& p == (control::DaemonSpec { outputs: p.outputs, pending: p.pending, ..m })
            &&& p.outputs.len() == m.outputs.len()
            &&& forall|j: int|
                0 <= j < m.outputs.len() ==> #[trigger] p.outputs[j] == (if j < n && targeted(
                    m.config.output,
                    slot,
                    m.outputs[j].name,
                ) {
                    set_output(m, m.outputs[j], token, instant, now)
                } else {
                    m.outputs[j]
                })
        }),
    decreases n,
{
    if n > 0 {
        lemma_set_upto(m, slot, (n - 1) as nat, token, instant, now);
        let before = set_upto(m, slot, (n - 1) as nat, token, instant, now).0;
        if targeted(m.config.output, slot, m.outputs[n - 1].name) {
            let mid = reresolved(before, n - 1);
            assert(before.outputs[n - 1] == m.outputs[n - 1]);
            control::lemma_repainted_at_keeps(mid, n - 1, token, instant, now);
            assert(mid.scene() == m.scene());
        }
    }
}

/// An output with a table of its own is not touched by a `set` on the default
/// slot: a named override always wins.
pub proof fn law_named_override_wins_over_default_set(
    m: control::DaemonSpec,
    req: ipc::SetSpec,
    now: u64,
    j: int,
)
    requires
        slot_of(req) == DEFAULT_SLOT@,
        0 <= j < m.outputs.len(),
        stored(m, req).config.output.contains_key(m.outputs[j].name),
    ensures
        wallpaper_set(m, req, now).0.outputs[j] == m.outputs[j],
{
    lemma_set_leaves_others(m, req, now, j);
}

/// A `set` on a connector leaves every output of another name alone.
pub proof fn law_named_set_touches_only_its_output(
    m: control::DaemonSpec,
    req: ipc::SetSpec,
    now: u64,
    j: int,
)
    requires
        slot_of(req) != DEFAULT_SLOT@,
        0 <= j < m.outputs.len(),
        m.outputs[j].name != slot_of(req),
    ensures
        wallpaper_set(m, req, now).0.outputs[j] == m.outputs[j],
{
    lemma_set_leaves_others(m, req, now, j);
}

proof fn lemma_set_leaves_others(m: control::DaemonSpec, req: ipc::SetSpec, now: u64, j: int)
    requires
        0 <= j < m.outputs.len(),
        !targeted(stored(m, req).config.output, slot_of(req), m.outputs[j].name),
    ensures
        wallpaper_set(m, req, now).0.outputs[j] == m.outputs[j],
{
    let slot = slot_of(req);
    let kept = stored(m, req);
    let names = target_names(kept, slot, kept.outputs.len());
    if names.len() > 0 {
        let waiting = control::DaemonSpec {
            next_token: (kept.next_token + 1) as u64,
            pending: kept.pending.insert(kept.next_token, pending::fresh(names)),
            ..kept
        };
        lemma_set_upto(waiting, slot, kept.outputs.len(), kept.next_token, !req.fade, now);
    }
}

proof fn lemma_target_is_named(m: control::DaemonSpec, slot: Seq<char>, n: nat, j: int)
    requires
        0 <= j < n <= m.outputs.len(),
        targeted(m.config.output, slot, m.outputs[j].name),
    ensures
        target_names(m, slot, n).contains(m.outputs[j].name),
    decreases n,
{
    let before = target_names(m, slot, (n - 1) as nat);
    let last = m.outputs[n - 1].name;
    if j < n - 1 {
        lemma_target_is_named(m, slot, (n - 1) as nat, j);
        let k = before.index_of(m.outputs[j].name);
        if targeted(m.config.output, slot, last) && !before.contains(last) {
            assert(before.push(last)[k] == m.outputs[j].name);
        }
    } else if !before.contains(last) {
        assert(before.push(last)[before.len() as int] == last);
    }
}

/// A connected output that a `set` is for has the new wallpaper afterwards, and
/// the client waits for it under a token of its own.
pub proof fn law_set_reaches_its_targets(
    m: control::DaemonSpec,
    req: ipc::SetSpec,
    now: u64,
    j: int,
)
    requires
        m.wf(),
        m.has_room(),
        0 <= j < m.outputs.len(),
        targeted(stored(m, req).config.output, slot_of(req), m.outputs[j].name),
        stored(m, req).resolution(m.outputs[j].name) is Ok,
    ensures
        ({
            let (after, acts, how) = wallpaper_set(m, req, now);
            &&& after.outputs[j].resolved == stored(m, req).resolution(m.outputs[j].name)->Ok_0
            &&& how == ipc::SetDispatchSpec::Deferred(m.next_token)
            &&& !m.pending.contains_key(m.next_token)
        }),
{
    let slot = slot_of(req);
    let kept = stored(m, req);
    let names = target_names(kept, slot, kept.outputs.len());
    lemma_target_is_named(kept, slot, kept.outputs.len(), j);
    assert(names.len() > 0);
    let waiting = control::DaemonSpec {
        next_token: (kept.next_token + 1) as u64,
        pending: kept.pending.insert(kept.next_token, pending::fresh(names)),
        ..kept
    };
    lemma_set_upto(waiting, slot, kept.outputs.len(), kept.next_token, !req.fade, now);
}

proof fn lemma_set_saves_nothing(
    m: control::DaemonSpec,
    slot: Seq<char>,
    n: nat,
    token: u64,
    instant: bool,
    now: u64,
)
    requires
        n <= m.outputs.len(),
    ensures
        forall|k: int|
            0 <= k < set_upto(m, slot, n, token, instant, now).1.len() ==> #[trigger] set_upto(
                m,
                slot,
                n,
                token,
                instant,
                now,
            ).1[k] !is Save,
    decreases n,
{
    if n > 0 {
        lemma_set_saves_nothing(m, slot, (n - 1) as nat, token, instant, now);
        lemma_set_upto(m, slot, (n - 1) as nat, token, instant, now);
        let (before, acts) = set_upto(m, slot, (n - 1) as nat, token, instant, now);
        let all = set_upto(m, slot, n, token, instant, now).1;
        assert forall|k: int| 0 <= k < all.len() implies #[trigger] all[k] !is Save by {
            if k < acts.len() {
                assert(all[k] == acts[k]);
            }
        }
    }
}

/// The overrides are written to disk by a `set` that is to be remembered, once
/// and before anything else, and by no other.
pub proof fn law_only_remembered_sets_are_saved(
    m: control::DaemonSpec,
    req: ipc::SetSpec,
    now: u64,
    k: int,
)
    requires
        0 <= k < wallpaper_set(m, req, now).1.len(),
    ensures
        wallpaper_set(m, req, now).1[k] is Save <==> req.persist && k == 0,
{
    let slot = slot_of(req);
    let kept = stored(m, req);
    let names = target_names(kept, slot, kept.outputs.len());
    let waiting = control::DaemonSpec {
        next_token: (kept.next_token + 1) as u64,
        pending: kept.pending.insert(kept.next_token, pending::fresh(names)),
        ..kept
    };
    lemma_set_saves_nothing(waiting, slot, kept.outputs.len(), kept.next_token, !req.fade, now);
    let acts = set_upto(waiting, slot, kept.outputs.len(), kept.next_token, !req.fade, now).1;
    let all = wallpaper_set(m, req, now).1;
    if names.len() > 0 {
        let s = saving(req);
        assert(all == s + acts);
        if k >= s.len() {
            assert(all[k] == acts[k - s.len()]);
        } else {
            assert(all[k] == s[k]);
        }
    }
}

/// No `set` adds, drops or renames an output.
#[verifier::rlimit(30)]
pub proof fn law_set_keeps_the_outputs(
    m: control::DaemonSpec,
    req: ipc::SetSpec,
    now: u64,
    j: int,
)
    requires
        0 <= j < m.outputs.len(),
    ensures
        ({
            let after = wallpaper_set(m, req, now).0;
            &&& after.outputs.len() == m.outputs.len()
            &&& after.outputs[j].id == m.outputs[j].id
            &&& after.outputs[j].name == m.outputs[j].name
            &&& after.overview_open == m.overview_open
        }),
{
    let slot = slot_of(req);
    let kept = stored(m, req);
    let names = target_names(kept, slot, kept.outputs.len());
    let waiting = control::DaemonSpec {
        next_token: (kept.next_token + 1) as u64,
        pending: kept.pending.insert(kept.next_token, pending::fresh(names)),
        ..kept
    };
    lemma_set_upto(waiting, slot, kept.outputs.len(), kept.next_token, !req.fade, now);
    lemma_set_output_keeps(waiting, m.outputs[j], kept.next_token, !req.fade, now);
}

/// Whether an output is to show an image once the configuration `m` is in
/// effect: the one that is configured for it, or the one it has if that cannot
/// be resolved.
pub open spec fn image_to_come(m: control::DaemonSpec, e: output::EntrySpec) -> bool {
    match m.resolution(e.name) {
        Ok(w) => w.path is Some,
        Err(_) => e.resolved.path is Some,
    }
}

/// Whether none of `acts` puts a frame on the output `id`.
pub open spec fn leaves_alone(acts: Seq<control::ActionSpec>, id: u64) -> bool {
    forall|k: int|
        0 <= k < acts.len() ==> (#[trigger] acts[k] matches control::ActionSpec::Show(c) ==> c.id
            != id)
}

proof fn lemma_leaves_alone_both(
    a: Seq<control::ActionSpec>,
    b: Seq<control::ActionSpec>,
    id: u64,
)
    requires
        leaves_alone(a, id),
        leaves_alone(b, id),
    ensures
        leaves_alone(a + b, id),
{
    let all = a + b;
    assert forall|k: int| 0 <= k < all.len() implies (
    #[trigger] all[k] matches control::ActionSpec::Show(c) ==> c.id != id) by {
        if k < a.len() {
            assert(all[k] == a[k]);
        } else {
            assert(all[k] == b[k - a.len()]);
        }
    }
}

/// A repaint draws only on the output that is repainted, and not even there if
/// it shows something and waits for an image.
proof fn lemma_repaint_leaves_alone(
    m: control::DaemonSpec,
    i: int,
    token: u64,
    instant: bool,
    now: u64,
    id: u64,
)
    requires
        0 <= i < m.outputs.len(),
        m.outputs[i].id != id || (m.outputs[i].painted is Some && m.outputs[i].resolved.path
            is Some),
    ensures
        leaves_alone(control::repainted_at(m, i, token, instant, now).1, id),
{
    control::law_repaint_draws_one_frame(m, i, token, instant, now);
    let all = control::repainted_at(m, i, token, instant, now).1;
    if m.outputs[i].id == id {
        output::law_repaint_keeps_the_old_picture(
            m.outputs[i],
            m.scene(),
            m.dim,
            token,
            instant,
            now,
            now,
        );
    }
    assert forall|k: int| 0 <= k < all.len() implies (
    #[trigger] all[k] matches control::ActionSpec::Show(c) ==> c.id != id) by {}
}

proof fn lemma_set_leaves_alone(
    m: control::DaemonSpec,
    slot: Seq<char>,
    n: nat,
    token: u64,
    instant: bool,
    now: u64,
    j: int,
)
    requires
        m.wf(),
        n <= m.outputs.len(),
        0 <= j < m.outputs.len(),
        m.outputs[j].painted is Some,
        image_to_come(m, m.outputs[j]),
    ensures
        leaves_alone(set_upto(m, slot, n, token, instant, now).1, m.outputs[j].id),
    decreases n,
{
    if n > 0 {
        lemma_set_leaves_alone(m, slot, (n - 1) as nat, token, instant, now, j);
        lemma_set_upto(m, slot, (n - 1) as nat, token, instant, now);
        let (before, acts) = set_upto(m, slot, (n - 1) as nat, token, instant, now);
        if targeted(m.config.output, slot, m.outputs[n - 1].name) {
            assert(before.outputs[n - 1] == m.outputs[n - 1]);
            let mid = reresolved(before, n - 1);
            if j < n - 1 {
                assert(m.outputs[j].id != m.outputs[n - 1].id);
            } else if j > n - 1 {
                assert(m.outputs[n - 1].id != m.outputs[j].id);
            }
            lemma_repaint_leaves_alone(mid, n - 1, token, instant, now, m.outputs[j].id);
            lemma_leaves_alone_both(
                acts,
                control::repainted_at(mid, n - 1, token, instant, now).1,
                m.outputs[j].id,
            );
        }
    }
}

/// A `set` of an image leaves what is on screen alone: on an output that shows
/// something no frame is drawn, and what it shows stays, until the image is
/// rendered.
#[verifier::rlimit(30)]
pub proof fn law_set_keeps_the_old_picture(
    m: control::DaemonSpec,
    req: ipc::SetSpec,
    now: u64,
    j: int,
    later: u64,
)
    requires
        m.wf(),
        m.has_room(),
        0 <= j < m.outputs.len(),
        m.outputs[j].painted is Some,
        image_to_come(stored(m, req), m.outputs[j]),
    ensures
        ({
            let (after, acts, how) = wallpaper_set(m, req, now);
            &&& leaves_alone(acts, m.outputs[j].id)
            &&& after.outputs[j].on_screen(later) == m.outputs[j].on_screen(later)
            &&& after.outputs[j].painted == m.outputs[j].painted
        }),
{
    let slot = slot_of(req);
    let kept = stored(m, req);
    let names = target_names(kept, slot, kept.outputs.len());
    let id = m.outputs[j].id;
    assert(leaves_alone(saving(req), id));
    if names.len() > 0 {
        let token = kept.next_token;
        let waiting = control::DaemonSpec {
            next_token: (token + 1) as u64,
            pending: kept.pending.insert(token, pending::fresh(names)),
            ..kept
        };
        lemma_targets_are_distinct(kept, slot, kept.outputs.len());
        lemma_set_upto(waiting, slot, kept.outputs.len(), token, !req.fade, now);
        lemma_set_leaves_alone(waiting, slot, kept.outputs.len(), token, !req.fade, now, j);
        let acts = set_upto(waiting, slot, kept.outputs.len(), token, !req.fade, now).1;
        lemma_leaves_alone_both(saving(req), acts, id);
        let e = match waiting.resolution(m.outputs[j].name) {
            Ok(w) => retargeted(m.outputs[j], w),
            Err(_) => m.outputs[j],
        };
        output::law_repaint_keeps_the_old_picture(
            e,
            waiting.scene(),
            waiting.dim,
            token,
            !req.fade,
            now,
            later,
        );
    }
}

proof fn lemma_targets_are_distinct(m: control::DaemonSpec, slot: Seq<char>, n: nat)
    requires
        n <= m.outputs.len(),
    ensures
        target_names(m, slot, n).no_duplicates(),
    decreases n,
{
    if n > 0 {
        lemma_targets_are_distinct(m, slot, (n - 1) as nat);
    }
}

/// A `set` that fails keeps the previous wallpaper: if the image cannot be
/// rendered, an output that showed something goes on showing exactly that. It is
/// marked with the reason, and no frame is drawn at any point.
pub proof fn law_failed_set_keeps_the_wallpaper(
    m: control::DaemonSpec,
    req: ipc::SetSpec,
    now: u64,
    j: int,
    r: worker::JobResultSpec,
    reported_at: u64,
    later: u64,
)
    requires
        m.wf(),
        m.has_room(),
        control::is_first_named(m.outputs, j, r.output),
        m.outputs[j].painted is Some,
        image_to_come(stored(m, req), m.outputs[j]),
        r.outcome is Err,
        r.generation == wallpaper_set(m, req, now).0.outputs[j].generation,
    ensures
        ({
            let (after, acts, how) = wallpaper_set(m, req, now);
            let (end, more) = control::result_applied(after, r, reported_at);
            &&& leaves_alone(acts, m.outputs[j].id)
            &&& leaves_alone(more, m.outputs[j].id)
            &&& end.outputs[j].on_screen(later) == m.outputs[j].on_screen(later)
            &&& end.outputs[j].painted == m.outputs[j].painted
            &&& end.outputs[j].status == output::StatusSpec::Failed(r.outcome->Err_0)
        }),
{
    let after = wallpaper_set(m, req, now).0;
    law_set_keeps_the_old_picture(m, req, now, j, later);
    assert forall|i: int| 0 <= i < m.outputs.len() implies (#[trigger] after.outputs[i]).name
        == m.outputs[i].name by {
        law_set_keeps_the_outputs(m, req, now, i);
    }
    law_set_keeps_the_outputs(m, req, now, j);
    control::lemma_first_named_is_found(after.outputs, j, r.output);
    control::law_failed_render_keeps_the_wallpaper(after, r, reported_at, j, later);
}

proof fn lemma_images_stay_pending(
    m: control::DaemonSpec,
    slot: Seq<char>,
    n: nat,
    token: u64,
    instant: bool,
    now: u64,
)
    requires
        n <= m.outputs.len(),
        forall|j: int|
            0 <= j < n && targeted(m.config.output, slot, (#[trigger] m.outputs[j]).name)
                ==> image_to_come(m, m.outputs[j]),
    ensures
        set_upto(m, slot, n, token, instant, now).0.pending == m.pending,
    decreases n,
{
    if n > 0 {
        lemma_images_stay_pending(m, slot, (n - 1) as nat, token, instant, now);
        lemma_set_upto(m, slot, (n - 1) as nat, token, instant, now);
        let before = set_upto(m, slot, (n - 1) as nat, token, instant, now).0;
        assert(before.outputs[n - 1] == m.outputs[n - 1]);
    }
}

/// A client whose `set` of an image on one output fails hears of it: once it is
/// attached, the report of the failure brings an error that names the output and
/// the reason, and the `set` is over.
#[verifier::rlimit(30)]
pub proof fn law_failed_set_is_answered_with_the_reason(
    m: control::DaemonSpec,
    req: ipc::SetSpec,
    now: u64,
    name: Seq<char>,
    client: u64,
    r: worker::JobResultSpec,
    reported_at: u64,
)
    requires
        m.wf(),
        m.has_room(),
        target_names(stored(m, req), slot_of(req), m.outputs.len()) == seq![name],
        stored(m, req).resolution(name) matches Ok(w) && w.path is Some,
        r.token == m.next_token,
        r.output == name,
        r.outcome is Err,
    ensures
        ({
            let (after, acts, how) = wallpaper_set(m, req, now);
            let (waiting, none) = control::attached(after, m.next_token, client);
            let (end, told) = control::result_applied(waiting, r, reported_at);
            &&& how == ipc::SetDispatchSpec::Deferred(m.next_token)
            &&& none.len() == 0
            &&& told == seq![
                control::ActionSpec::Answer {
                    client,
                    reply: proto::refused(name + ": "@ + r.outcome->Err_0),
                },
            ]
            &&& !end.pending.contains_key(m.next_token)
        }),
{
    let slot = slot_of(req);
    let kept = stored(m, req);
    let token = kept.next_token;
    let names = target_names(kept, slot, kept.outputs.len());
    let held = control::DaemonSpec {
        next_token: (token + 1) as u64,
        pending: kept.pending.insert(token, pending::fresh(names)),
        ..kept
    };
    assert forall|j: int|
        0 <= j < held.outputs.len() && targeted(
            held.config.output,
            slot,
            (#[trigger] held.outputs[j]).name,
        ) implies image_to_come(held, held.outputs[j]) by {
        lemma_target_is_named(kept, slot, kept.outputs.len(), j);
        assert(held.outputs[j].name == name);
    }
    lemma_images_stay_pending(held, slot, kept.outputs.len(), token, !req.fade, now);
    let after = wallpaper_set(m, req, now).0;
    assert(after.pending == held.pending);
    let asked = pending::PendingSpec { client: Some(client), ..pending::fresh(names) };
    let waiting = control::attached(after, token, client).0;
    assert(waiting.pending == after.pending.insert(token, asked));
    let marked = match control::reported_place(waiting, r) {
        Some(i) => waiting.with_output(
            i,
            control::marked_failed(waiting.outputs[i], r.outcome->Err_0),
        ),
        None => waiting,
    };
    assert(marked.pending == waiting.pending);
    let over = pending::drained(asked, name, Some(r.outcome->Err_0));
    assert(names[0] == name);
    assert(names.contains(name));
    assert(names.index_of(name) == 0);
    assert(over.failures =~= seq![(name, r.outcome->Err_0)]);
    assert(over.outstanding =~= Seq::empty());
    assert(pending::answer(over) == proto::refused(name + ": "@ + r.outcome->Err_0));
}

#[verifier::rlimit(30)]
proof fn lemma_set_renders(
    m: control::DaemonSpec,
    slot: Seq<char>,
    n: nat,
    token: u64,
    instant: bool,
    now: u64,
    j: int,
)
    requires
        0 <= j < n <= m.outputs.len(),
        targeted(m.config.output, slot, m.outputs[j].name),
        image_to_come(m, m.outputs[j]),
        sized(m.outputs[j]),
    ensures
        set_upto(m, slot, n, token, instant, now).1.contains(
            control::ActionSpec::Render(
                output::job_for(
                    set_output(m, m.outputs[j], token, instant, now),
                    m.scene(),
                    token,
                    instant,
                ),
            ),
        ),
    decreases n,
{
    let job = output::job_for(
        set_output(m, m.outputs[j], token, instant, now),
        m.scene(),
        token,
        instant,
    );
    let (before, acts) = set_upto(m, slot, (n - 1) as nat, token, instant, now);
    let all = set_upto(m, slot, n, token, instant, now).1;
    lemma_set_upto(m, slot, (n - 1) as nat, token, instant, now);
    if j < n - 1 {
        lemma_set_renders(m, slot, (n - 1) as nat, token, instant, now, j);
        let k = acts.index_of(control::ActionSpec::Render(job));
        assert(all[k] == acts[k]);
    } else {
        assert(before.outputs[j] == m.outputs[j]);
        let mid = reresolved(before, j);
        assert(mid.scene() == m.scene());
        let (e, rp) = output::repainted(mid.outputs[j], mid.scene(), mid.dim, token, instant, now);
        let drawn = control::showing(rp.commit) + control::rendering(rp.job);
        assert(rp.job == Some(job));
        let k = control::showing(rp.commit).len() as int;
        assert(drawn[k] == control::ActionSpec::Render(job));
        assert(all == acts + drawn);
        assert(all[acts.len() + k] == control::ActionSpec::Render(job));
    }
}

/// Whether an output can be painted: it is configured and has pixels.
pub open spec fn sized(e: output::EntrySpec) -> bool {
    e.configured && e.physical() is Some && !e.physical()->0.no_pixels()
}

/// The tables that a `set` is laid over: those of the file and the overrides if
/// it is to be remembered, else those in effect.
pub open spec fn tables_under(m: control::DaemonSpec, req: ipc::SetSpec) -> Map<
    Seq<char>,
    config::OutputSpec,
> {
    if req.persist {
        state::overlay(m.disk_config.output, m.overrides)
    } else {
        m.config.output
    }
}

/// What a `set` makes of an output whose wallpaper can be resolved.
proof fn lemma_set_output_shows(
    m: control::DaemonSpec,
    e: output::EntrySpec,
    token: u64,
    instant: bool,
    now: u64,
)
    requires
        m.resolution(e.name) is Ok,
    ensures
        ({
            let w = m.resolution(e.name)->Ok_0;
            let after = set_output(m, e, token, instant, now);
            &&& after.resolved == w
            &&& sized(after) == sized(e)
            &&& after.physical() == e.physical()
            &&& sized(e) && w.path is None ==> {
                let shade = if m.scene().blurs() {
                    color::darkened(w.color, m.dim)
                } else {
                    w.color
                };
                &&& after.sharp == Some(render::solid_pixels(w.color, e.physical()->0))
                &&& after.shown == Some(render::solid_pixels(shade, e.physical()->0))
            }
        }),
{
}

/// A `set` of a colour alone leaves the configured image in place. An output it
/// is for that has none shows the colour and nothing else, dimmed while blur is
/// shown; one that has an image is rendered again with the image over that
/// colour.
#[verifier::rlimit(30)]
pub proof fn law_colour_alone_keeps_the_image(
    m: control::DaemonSpec,
    req: ipc::SetSpec,
    now: u64,
    j: int,
    color: Color,
)
    requires
        m.wf(),
        m.has_room(),
        0 <= j < m.outputs.len(),
        targeted(stored(m, req).config.output, slot_of(req), m.outputs[j].name),
        stored(m, req).resolution(m.outputs[j].name) is Ok,
        req.patch.path is None,
        req.patch.color == Some(color),
    ensures
        ({
            let name = m.outputs[j].name;
            let (after, acts, how) = wallpaper_set(m, req, now);
            let e = after.outputs[j];
            &&& e.resolved.color == color
            &&& match config::layered(tables_under(m, req), name).path {
                None => {
                    &&& e.resolved.path is None
                    &&& sized(e) ==> e.sharp == Some(
                        render::solid_pixels(color, e.physical()->0),
                    ) && e.shown == Some(
                        render::solid_pixels(
                            if after.scene().blurs() {
                                color::darkened(color, m.dim)
                            } else {
                                color
                            },
                            e.physical()->0,
                        ),
                    )
                },
                Some(p) => {
                    &&& e.resolved.path == Some(
                        paths::absolute_path(m.base, paths::expanded(p, m.env)->Ok_0),
                    )
                    &&& sized(e) ==> acts.contains(
                        control::ActionSpec::Render(
                            output::job_for(e, after.scene(), m.next_token, !req.fade),
                        ),
                    )
                },
            }
        }),
{
    let name = m.outputs[j].name;
    let kept = stored(m, req);
    lemma_colour_keeps_the_path(m, req, name);
    lemma_set_on_target(m, req, now, j);
    lemma_set_output_shows(kept, m.outputs[j], m.next_token, !req.fade, now);
}

/// What a `set` makes of an output that it is for, and the job that it queues if
/// an image is to come.
#[verifier::rlimit(30)]
proof fn lemma_set_on_target(m: control::DaemonSpec, req: ipc::SetSpec, now: u64, j: int)
    requires
        0 <= j < m.outputs.len(),
        targeted(stored(m, req).config.output, slot_of(req), m.outputs[j].name),
    ensures
        ({
            let kept = stored(m, req);
            let (after, acts, how) = wallpaper_set(m, req, now);
            let e = set_output(kept, m.outputs[j], m.next_token, !req.fade, now);
            &&& after.outputs[j] == e
            &&& after.scene() == kept.scene()
            &&& image_to_come(kept, m.outputs[j]) && sized(m.outputs[j]) ==> acts.contains(
                control::ActionSpec::Render(
                    output::job_for(e, after.scene(), m.next_token, !req.fade),
                ),
            )
        }),
{
    let slot = slot_of(req);
    let kept = stored(m, req);
    let token = kept.next_token;
    lemma_target_is_named(kept, slot, kept.outputs.len(), j);
    let names = target_names(kept, slot, kept.outputs.len());
    assert(names.len() > 0);
    let waiting = control::DaemonSpec {
        next_token: (token + 1) as u64,
        pending: kept.pending.insert(token, pending::fresh(names)),
        ..kept
    };
    lemma_set_upto(waiting, slot, kept.outputs.len(), token, !req.fade, now);
    let e = set_output(waiting, m.outputs[j], token, !req.fade, now);
    assert(waiting.scene() == kept.scene());
    assert(waiting.resolution(m.outputs[j].name) == kept.resolution(m.outputs[j].name));
    assert(e == set_output(kept, m.outputs[j], token, !req.fade, now));
    if image_to_come(kept, m.outputs[j]) && sized(m.outputs[j]) {
        lemma_set_renders(waiting, slot, kept.outputs.len(), token, !req.fade, now, j);
        let acts = set_upto(waiting, slot, kept.outputs.len(), token, !req.fade, now).1;
        let job = control::ActionSpec::Render(
            output::job_for(e, kept.scene(), token, !req.fade),
        );
        let k = acts.index_of(job);
        assert((saving(req) + acts)[saving(req).len() + k] == job);
    }
}

proof fn lemma_colour_keeps_the_path(m: control::DaemonSpec, req: ipc::SetSpec, name: Seq<char>)
    requires
        req.patch.path is None,
        req.patch.color is Some,
        targeted(stored(m, req).config.output, slot_of(req), name),
    ensures
        config::layered(stored(m, req).config.output, name).path == config::layered(
            tables_under(m, req),
            name,
        ).path,
        config::layered(stored(m, req).config.output, name).color == req.patch.color,
{
    let slot = slot_of(req);
    let after = stored(m, req).config.output;
    let under = tables_under(m, req);
    assert(slots::slot_or_unset(after, slot).path == slots::slot_or_unset(under, slot).path);
    assert(slots::slot_or_unset(after, slot).color == req.patch.color);
    assert forall|k: Seq<char>| k != slot implies #[trigger] slots::slot_or_unset(after, k)
        == slots::slot_or_unset(under, k) by {}
    assert(after.contains_key(slot));
    if slot == DEFAULT_SLOT@ {
        assert(name != slot);
        assert(slots::slot_or_unset(after, name) == config::unset());
    } else {
        assert(slots::slot_or_unset(after, DEFAULT_SLOT@) == slots::slot_or_unset(
            under,
            DEFAULT_SLOT@,
        ));
    }
}

/// A remembered `set` survives a restart: reading the same file and the saved
/// overrides again gives the same configuration.
pub proof fn law_remembered_set_survives(m: control::DaemonSpec, req: ipc::SetSpec, dim: Seq<u8>)
    requires
        req.persist,
    ensures
        ({
            let kept = stored(m, req);
            reread(kept, kept.disk_config, kept.overrides, dim).config == kept.config
        }),
{
}

/// The configuration file is never touched: no `set` changes what was read from
/// it, and one that is not to be remembered changes the overrides neither.
pub proof fn law_set_never_rewrites_the_config(m: control::DaemonSpec, req: ipc::SetSpec, now: u64)
    ensures
        wallpaper_set(m, req, now).0.disk_config == m.disk_config,
        !req.persist ==> wallpaper_set(m, req, now).0.overrides == m.overrides,
        req.persist ==> wallpaper_set(m, req, now).0.overrides == slots::patched(
            m.overrides,
            slot_of(req),
            req.patch,
        ),
{
    let slot = slot_of(req);
    let kept = stored(m, req);
    let names = target_names(kept, slot, kept.outputs.len());
    let waiting = control::DaemonSpec {
        next_token: (kept.next_token + 1) as u64,
        pending: kept.pending.insert(kept.next_token, pending::fresh(names)),
        ..kept
    };
    lemma_set_upto(waiting, slot, kept.outputs.len(), kept.next_token, !req.fade, now);
}

/// A `set` that is not to be remembered is gone after a reload.
pub proof fn law_passing_set_is_dropped_by_reload(
    m: control::DaemonSpec,
    req: ipc::SetSpec,
    dim: Seq<u8>,
)
    requires
        !req.persist,
    ensures
        reread(stored(m, req), m.disk_config, m.overrides, dim) == reread(
            m,
            m.disk_config,
            m.overrides,
            dim,
        ),
{
}

/// A `set` for a connector that is not there is kept, and applies when an output
/// of that name appears.
pub proof fn law_stored_set_applies_on_connect(
    m: control::DaemonSpec,
    req: ipc::SetSpec,
    id: u64,
    fractional: bool,
)
    requires
        slot_of(req) != DEFAULT_SLOT@,
        req.patch.path is Some,
        paths::expanded(req.patch.path->0, m.env) is Ok,
    ensures
        ({
            let e = control::fresh_output(stored(m, req), id, slot_of(req), fractional);
            &&& e.resolved.path == Some(
                paths::absolute_path(m.base, paths::expanded(req.patch.path->0, m.env)->Ok_0),
            )
            &&& req.patch.mode matches Some(mode) ==> e.resolved.mode == mode
            &&& req.patch.color matches Some(c) ==> e.resolved.color == c
        }),
{
}

/// After a reset the overrides are gone: the configuration is the file's.
pub proof fn law_reset_reverts_to_the_file(
    m: control::DaemonSpec,
    disk: config::ConfigSpec,
    dim: Seq<u8>,
)
    ensures
        reread(m, disk, Map::empty(), dim).config == disk,
{
    state::law_no_overrides_is_config(disk);
}

/// A reload repaints exactly the outputs whose wallpaper changed: the others,
/// and those whose wallpaper cannot be resolved, stay as they are.
pub proof fn law_reload_touches_only_what_changed(m: control::DaemonSpec, n: nat, now: u64, j: int)
    requires
        n <= m.outputs.len(),
        0 <= j < m.outputs.len(),
    ensures
        ({
            let (p, acts, changed) = reloaded_upto(m, n, now);
            let e = m.outputs[j];
            &&& p == (control::DaemonSpec { outputs: p.outputs, pending: p.pending, ..m })
            &&& p.outputs.len() == m.outputs.len()
            &&& changed <= n
            &&& j >= n || m.resolution(e.name) is Err || config::same_wallpaper(
                e.resolved,
                m.resolution(e.name)->Ok_0,
            ) ==> p.outputs[j] == e
            &&& j < n && m.resolution(e.name) is Ok && !config::same_wallpaper(
                e.resolved,
                m.resolution(e.name)->Ok_0,
            ) ==> p.outputs[j].resolved == m.resolution(e.name)->Ok_0
        }),
    decreases n,
{
    if n > 0 {
        law_reload_touches_only_what_changed(m, (n - 1) as nat, now, j);
        law_reload_touches_only_what_changed(m, (n - 1) as nat, now, n - 1);
        let before = reloaded_upto(m, (n - 1) as nat, now).0;
        let e = m.outputs[n - 1];
        if let Ok(w) = m.resolution(e.name) {
            if !config::same_wallpaper(e.resolved, w) {
                control::lemma_repainted_at_keeps(
                    before.with_output(n - 1, retargeted(e, w)),
                    n - 1,
                    0,
                    false,
                    now,
                );
            }
        }
    }
}

/// A reload that changes no wallpaper draws nothing and counts nothing.
pub proof fn law_reload_without_changes_is_silent(m: control::DaemonSpec, n: nat, now: u64)
    requires
        n <= m.outputs.len(),
        forall|j: int|
            0 <= j < n ==> (m.resolution((#[trigger] m.outputs[j]).name) matches Ok(w)
                ==> config::same_wallpaper(m.outputs[j].resolved, w)),
    ensures
        reloaded_upto(m, n, now) == (m, Seq::<control::ActionSpec>::empty(), 0nat),
    decreases n,
{
    if n > 0 {
        law_reload_without_changes_is_silent(m, (n - 1) as nat, now);
        assert(m.resolution(m.outputs[n - 1].name) matches Ok(w) ==> config::same_wallpaper(
            m.outputs[n - 1].resolved,
            w,
        ));
    }
}

/// A reload that brings another image leaves what is on screen alone: on an
/// output that shows something no frame is drawn, and what it shows stays, until
/// the image is rendered, or for good if it cannot be.
pub proof fn law_reload_keeps_the_old_picture(
    m: control::DaemonSpec,
    n: nat,
    now: u64,
    j: int,
    later: u64,
)
    requires
        m.wf(),
        n <= m.outputs.len(),
        0 <= j < m.outputs.len(),
        m.outputs[j].painted is Some,
        image_to_come(m, m.outputs[j]),
    ensures
        ({
            let (after, acts, changed) = reloaded_upto(m, n, now);
            &&& leaves_alone(acts, m.outputs[j].id)
            &&& after.outputs[j].on_screen(later) == m.outputs[j].on_screen(later)
            &&& after.outputs[j].painted == m.outputs[j].painted
        }),
    decreases n,
{
    if n > 0 {
        law_reload_keeps_the_old_picture(m, (n - 1) as nat, now, j, later);
        law_reload_touches_only_what_changed(m, (n - 1) as nat, now, n - 1);
        law_reload_touches_only_what_changed(m, (n - 1) as nat, now, j);
        let (before, acts, changed) = reloaded_upto(m, (n - 1) as nat, now);
        let e = m.outputs[n - 1];
        if let Ok(w) = m.resolution(e.name) {
            if !config::same_wallpaper(e.resolved, w) {
                let mid = before.with_output(n - 1, retargeted(e, w));
                if j < n - 1 {
                    assert(m.outputs[j].id != e.id);
                } else if j > n - 1 {
                    assert(e.id != m.outputs[j].id);
                } else {
                    output::law_repaint_keeps_the_old_picture(
                        retargeted(e, w),
                        mid.scene(),
                        mid.dim,
                        0,
                        false,
                        now,
                        later,
                    );
                }
                control::lemma_repainted_at_keeps(mid, n - 1, 0, false, now);
                lemma_repaint_leaves_alone(mid, n - 1, 0, false, now, m.outputs[j].id);
                lemma_leaves_alone_both(
                    acts,
                    control::repainted_at(mid, n - 1, 0, false, now).1,
                    m.outputs[j].id,
                );
            }
        }
    }
}

/// Whether a `set` is meant for the output `name`: one on a connector for the
/// output of that name; one on the default slot, by name or because it names
/// none, for every output without a table of its own.
pub open spec fn meant_for(m: control::DaemonSpec, req: ipc::SetSpec, name: Seq<char>) -> bool {
    let own = if req.persist {
        m.disk_config.output.contains_key(name) || m.overrides.contains_key(name)
    } else {
        m.config.output.contains_key(name)
    };
    match req.slot {
        Some(s) => if s == DEFAULT_SLOT@ {
            !own && name != DEFAULT_SLOT@
        } else {
            name == s
        },
        None => !own && name != DEFAULT_SLOT@,
    }
}

proof fn lemma_meant_is_targeted(m: control::DaemonSpec, req: ipc::SetSpec, name: Seq<char>)
    ensures
        targeted(stored(m, req).config.output, slot_of(req), name) == meant_for(m, req, name),
{
}

/// The wallpaper that a `set` leaves to an output that it is meant for: what it
/// sets, and where it sets nothing what was in effect, and else what is built
/// in.
proof fn lemma_set_resolution(m: control::DaemonSpec, req: ipc::SetSpec, name: Seq<char>)
    requires
        meant_for(m, req, name),
    ensures
        ({
            let now_set = config::layered(stored(m, req).config.output, name);
            let under = config::layered(tables_under(m, req), name);
            &&& now_set.path == (if req.patch.path is Some {
                req.patch.path
            } else {
                under.path
            })
            &&& now_set.mode == (if req.patch.mode is Some {
                req.patch.mode
            } else {
                under.mode
            })
            &&& now_set.color == (if req.patch.color is Some {
                req.patch.color
            } else {
                under.color
            })
        }),
{
    let slot = slot_of(req);
    let after = stored(m, req).config.output;
    let under = tables_under(m, req);
    assert forall|k: Seq<char>| k != slot implies #[trigger] slots::slot_or_unset(after, k)
        == slots::slot_or_unset(under, k) by {}
    assert(after.contains_key(slot));
    if slot == DEFAULT_SLOT@ {
        assert(name != slot);
        assert(slots::slot_or_unset(after, name) == config::unset());
        assert(slots::slot_or_unset(under, name) == config::unset());
    } else {
        assert(slots::slot_or_unset(after, DEFAULT_SLOT@) == slots::slot_or_unset(
            under,
            DEFAULT_SLOT@,
        ));
    }
}

/// Whether a job is for the wallpaper that an output has: its image, mode and
/// colour, at its physical size, with these blur settings.
pub open spec fn is_job_of(
    e: output::EntrySpec,
    blur: config::BlurConfig,
    j: worker::JobSpec,
) -> bool {
    &&& j.output == e.name
    &&& Some(j.path) == e.resolved.path
    &&& j.mode == e.resolved.mode
    &&& j.fill == e.resolved.color
    &&& Some(j.target) == e.physical()
    &&& j.generation == e.generation
    &&& j.blur_radius == blur.radius
    &&& j.blur_dim_bits == blur.dim_bits
}

/// A `set` gives every output that it is meant for what it asks for: the image,
/// the mode and the colour that it names, each, and what was in effect of those
/// that it does not name. An output with an image is rendered for that, under
/// the `set`'s own token, faded exactly if that was asked for.
#[verifier::rlimit(30)]
pub proof fn law_set_gives_what_was_asked(
    m: control::DaemonSpec,
    req: ipc::SetSpec,
    now: u64,
    j: int,
)
    requires
        m.wf(),
        m.has_room(),
        0 <= j < m.outputs.len(),
        meant_for(m, req, m.outputs[j].name),
        stored(m, req).resolution(m.outputs[j].name) is Ok,
    ensures
        ({
            let name = m.outputs[j].name;
            let under = config::layered(tables_under(m, req), name);
            let blur = if req.persist {
                m.disk_config.blur
            } else {
                m.config.blur
            };
            let (after, acts, how) = wallpaper_set(m, req, now);
            let e = after.outputs[j];
            &&& how == ipc::SetDispatchSpec::Deferred(m.next_token)
            &&& e.name == name && e.id == m.outputs[j].id
            &&& e.resolved.mode == (match (req.patch.mode, under.mode) {
                (Some(mode), _) => mode,
                (None, Some(mode)) => mode,
                (None, None) => config::Mode::Fill,
            })
            &&& e.resolved.color == (match (req.patch.color, under.color) {
                (Some(c), _) => c,
                (None, Some(c)) => c,
                (None, None) => Color { r: 0, g: 0, b: 0, a: 255 },
            })
            &&& match (req.patch.path, under.path) {
                (Some(p), _) => e.resolved.path == Some(
                    paths::absolute_path(m.base, paths::expanded(p, m.env)->Ok_0),
                ),
                (None, Some(p)) => e.resolved.path == Some(
                    paths::absolute_path(m.base, paths::expanded(p, m.env)->Ok_0),
                ),
                (None, None) => e.resolved.path is None,
            }
            &&& sized(m.outputs[j]) && e.resolved.path is Some ==> exists|k: int|
                0 <= k < acts.len() && (#[trigger] acts[k] matches control::ActionSpec::Render(job)
                    && is_job_of(e, blur, job) && job.token == m.next_token && job.fade
                    == req.fade)
        }),
{
    let name = m.outputs[j].name;
    let kept = stored(m, req);
    lemma_meant_is_targeted(m, req, name);
    lemma_set_resolution(m, req, name);
    lemma_set_on_target(m, req, now, j);
    law_set_reaches_its_targets(m, req, now, j);
    let (after, acts, how) = wallpaper_set(m, req, now);
    let e = after.outputs[j];
    lemma_set_output_shows(kept, m.outputs[j], m.next_token, !req.fade, now);
    lemma_set_output_keeps(kept, m.outputs[j], m.next_token, !req.fade, now);
    if sized(m.outputs[j]) && e.resolved.path is Some {
        let job = output::job_for(e, after.scene(), m.next_token, !req.fade);
        let k = acts.index_of(control::ActionSpec::Render(job));
        assert(acts[k] == control::ActionSpec::Render(job));
    }
}

/// An output that a `set` is not meant for is not touched, by whatever slot it
/// goes.
pub proof fn law_set_spares_the_others(m: control::DaemonSpec, req: ipc::SetSpec, now: u64, j: int)
    requires
        0 <= j < m.outputs.len(),
        !meant_for(m, req, m.outputs[j].name),
    ensures
        wallpaper_set(m, req, now).0.outputs[j] == m.outputs[j],
{
    lemma_meant_is_targeted(m, req, m.outputs[j].name);
    lemma_set_leaves_others(m, req, now, j);
}

proof fn lemma_set_jobs(
    m: control::DaemonSpec,
    slot: Seq<char>,
    n: nat,
    token: u64,
    instant: bool,
    now: u64,
    k: int,
) -> (i: int)
    requires
        n <= m.outputs.len(),
        forall|j: int| 0 <= j < m.outputs.len() ==> (#[trigger] m.outputs[j]).generation < u64::MAX,
        0 <= k < set_upto(m, slot, n, token, instant, now).1.len(),
        set_upto(m, slot, n, token, instant, now).1[k] is Render,
    ensures
        ({
            let job = set_upto(m, slot, n, token, instant, now).1[k]->Render_0;
            &&& 0 <= i < n
            &&& targeted(m.config.output, slot, m.outputs[i].name)
            &&& is_job_of(set_output(m, m.outputs[i], token, instant, now), m.config.blur, job)
            &&& job.token == token
            &&& job.fade == !instant
        }),
    decreases n,
{
    let (before, acts) = set_upto(m, slot, (n - 1) as nat, token, instant, now);
    lemma_set_upto(m, slot, (n - 1) as nat, token, instant, now);
    let all = set_upto(m, slot, n, token, instant, now).1;
    if k < acts.len() {
        assert(all[k] == acts[k]);
        lemma_set_jobs(m, slot, (n - 1) as nat, token, instant, now, k)
    } else {
        assert(before.outputs[n - 1] == m.outputs[n - 1]);
        assert(m.outputs[n - 1].generation < u64::MAX);
        let mid = reresolved(before, n - 1);
        control::law_repaint_queues_the_wallpaper(mid, n - 1, token, instant, now);
        let (after, more) = control::repainted_at(mid, n - 1, token, instant, now);
        assert(all[k] == more[k - acts.len()]);
        assert(more[k - acts.len()] is Render);
        lemma_set_upto(m, slot, n, token, instant, now);
        assert(after.outputs[n - 1] == set_output(m, m.outputs[n - 1], token, instant, now));
        control::lemma_repainted_at_keeps(mid, n - 1, token, instant, now);
        n - 1
    }
}

/// Every job that a `set` queues is for the wallpaper of an output that it is
/// meant for, as that output then has it, and carries the `set`'s token and
/// whether to fade.
#[verifier::rlimit(30)]
pub proof fn law_set_queues_only_its_own_jobs(
    m: control::DaemonSpec,
    req: ipc::SetSpec,
    now: u64,
    k: int,
) -> (i: int)
    requires
        m.wf(),
        m.has_room(),
        0 <= k < wallpaper_set(m, req, now).1.len(),
        wallpaper_set(m, req, now).1[k] is Render,
    ensures
        ({
            let (after, acts, how) = wallpaper_set(m, req, now);
            let job = acts[k]->Render_0;
            let blur = if req.persist {
                m.disk_config.blur
            } else {
                m.config.blur
            };
            &&& 0 <= i < m.outputs.len()
            &&& meant_for(m, req, m.outputs[i].name)
            &&& is_job_of(after.outputs[i], blur, job)
            &&& job.token == m.next_token
            &&& job.fade == req.fade
        }),
{
    let slot = slot_of(req);
    let kept = stored(m, req);
    let names = target_names(kept, slot, kept.outputs.len());
    let token = kept.next_token;
    let waiting = control::DaemonSpec {
        next_token: (token + 1) as u64,
        pending: kept.pending.insert(token, pending::fresh(names)),
        ..kept
    };
    let s = saving(req);
    let acts = set_upto(waiting, slot, kept.outputs.len(), token, !req.fade, now).1;
    let all = wallpaper_set(m, req, now).1;
    if names.len() == 0 {
        assert(all[k] == s[k]);
        assert(false);
    }
    assert(all == s + acts);
    assert(k >= s.len()) by {
        if k < s.len() {
            assert(all[k] == s[k]);
        }
    }
    assert(all[k] == acts[k - s.len()]);
    let i = lemma_set_jobs(
        waiting,
        slot,
        kept.outputs.len(),
        token,
        !req.fade,
        now,
        k - s.len(),
    );
    lemma_set_upto(waiting, slot, kept.outputs.len(), token, !req.fade, now);
    lemma_meant_is_targeted(m, req, m.outputs[i].name);
    i
}

/// A `set` that no connected output is meant to show is stored all the same. The
/// client is told so at once, by the connector's name if it named one, and
/// nothing is drawn.
pub proof fn law_set_without_outputs_is_noted(m: control::DaemonSpec, req: ipc::SetSpec, now: u64)
    requires
        forall|j: int|
            0 <= j < m.outputs.len() ==> !meant_for(m, req, (#[trigger] m.outputs[j]).name),
    ensures
        ({
            let (after, acts, how) = wallpaper_set(m, req, now);
            &&& after.outputs == m.outputs && after.pending == m.pending
            &&& after.next_token == m.next_token
            &&& acts.len() == (if req.persist {
                1nat
            } else {
                0nat
            })
            &&& req.persist ==> acts[0] is Save
            &&& how matches ipc::SetDispatchSpec::Now(reply)
            &&& reply.ok && reply.error is None
            &&& reply.data == Some(
                proto::DataSpec::Note(
                    if req.slot is None || req.slot == Some(DEFAULT_SLOT@) {
                        "stored; no outputs are currently connected"@
                    } else {
                        "stored; "@ + req.slot->0 + " is not currently connected"@
                    },
                ),
            )
        }),
{
    let kept = stored(m, req);
    assert forall|j: int| 0 <= j < kept.outputs.len() implies !targeted(
        kept.config.output,
        slot_of(req),
        (#[trigger] kept.outputs[j]).name,
    ) by {
        lemma_meant_is_targeted(m, req, m.outputs[j].name);
    }
    lemma_no_targets(kept, slot_of(req), kept.outputs.len());
}

proof fn lemma_no_targets(m: control::DaemonSpec, slot: Seq<char>, n: nat)
    requires
        n <= m.outputs.len(),
        forall|j: int|
            0 <= j < n ==> !targeted(m.config.output, slot, (#[trigger] m.outputs[j]).name),
    ensures
        target_names(m, slot, n).len() == 0,
    decreases n,
{
    if n > 0 {
        lemma_no_targets(m, slot, (n - 1) as nat);
        assert(!targeted(m.config.output, slot, m.outputs[n - 1].name));
    }
}

/// A `set` is stored under the slot that it names, or the default one: what it
/// sets is in effect there from then on, and a remembered one also among the
/// overrides. Every other slot keeps its settings, and the file, the transition
/// time and the blur settings are not touched by one that is not remembered.
pub proof fn law_set_is_stored_in_its_slot(
    m: control::DaemonSpec,
    req: ipc::SetSpec,
    now: u64,
    other: Seq<char>,
)
    ensures
        ({
            let after = wallpaper_set(m, req, now).0;
            let slot = match req.slot {
                Some(s) => s,
                None => DEFAULT_SLOT@,
            };
            &&& after.disk_config == m.disk_config && after.env == m.env && after.base == m.base
            &&& after.dim == m.dim && after.pid == m.pid
            &&& after.config.output.contains_key(slot)
            &&& req.patch.path is Some ==> after.config.output[slot].path == req.patch.path
            &&& req.patch.mode is Some ==> after.config.output[slot].mode == req.patch.mode
            &&& req.patch.color is Some ==> after.config.output[slot].color == req.patch.color
            &&& req.persist ==> {
                &&& after.overrides.contains_key(slot)
                &&& req.patch.path is Some ==> after.overrides[slot].path == req.patch.path
                &&& req.patch.mode is Some ==> after.overrides[slot].mode == req.patch.mode
                &&& req.patch.color is Some ==> after.overrides[slot].color == req.patch.color
                &&& other != slot && m.overrides.contains_key(other) ==> after.overrides.contains_key(
                    other,
                ) && after.overrides[other] == m.overrides[other]
                &&& after.config.transition_ms == m.disk_config.transition_ms
                &&& after.config.blur == m.disk_config.blur
            }
            &&& !req.persist ==> {
                &&& after.overrides == m.overrides
                &&& other != slot && m.config.output.contains_key(other)
                    ==> after.config.output.contains_key(other) && after.config.output[other]
                    == m.config.output[other]
                &&& after.config.transition_ms == m.config.transition_ms
                &&& after.config.blur == m.config.blur
            }
        }),
{
    let slot = slot_of(req);
    let kept = stored(m, req);
    let names = target_names(kept, slot, kept.outputs.len());
    let waiting = control::DaemonSpec {
        next_token: (kept.next_token + 1) as u64,
        pending: kept.pending.insert(kept.next_token, pending::fresh(names)),
        ..kept
    };
    lemma_set_upto(waiting, slot, kept.outputs.len(), kept.next_token, !req.fade, now);
}

/// After a reload every connected output whose wallpaper can be resolved has the
/// mode and the colour that are configured for it, and an image exactly if one
/// is, the same file. One whose wallpaper cannot be resolved keeps what it had.
pub proof fn law_reload_gives_every_output_its_wallpaper(m: control::DaemonSpec, now: u64, j: int)
    requires
        0 <= j < m.outputs.len(),
    ensures
        ({
            let e = m.outputs[j];
            let (after, acts, changed) = reloaded_upto(m, m.outputs.len(), now);
            let f = after.outputs[j];
            &&& after.outputs.len() == m.outputs.len()
            &&& f.id == e.id && f.name == e.name
            &&& match config::resolution(m.config.output, e.name, m.env, m.base) {
                Ok(w) => {
                    &&& f.resolved.mode == w.mode
                    &&& f.resolved.color == w.color
                    &&& f.resolved.path is Some <==> w.path is Some
                    &&& w.path matches Some(p) ==> paths::path_key(f.resolved.path->0)
                        == paths::path_key(p)
                },
                Err(_) => f == e,
            }
        }),
{
    law_reload_touches_only_what_changed(m, m.outputs.len(), now, j);
    lemma_reload_keeps_identity(m, m.outputs.len(), now, j);
}

proof fn lemma_reload_keeps_identity(m: control::DaemonSpec, n: nat, now: u64, j: int)
    requires
        n <= m.outputs.len(),
        0 <= j < m.outputs.len(),
    ensures
        reloaded_upto(m, n, now).0.outputs[j].id == m.outputs[j].id,
        reloaded_upto(m, n, now).0.outputs[j].name == m.outputs[j].name,
        n <= j ==> reloaded_upto(m, n, now).0.outputs[j] == m.outputs[j],
    decreases n,
{
    if n > 0 {
        lemma_reload_keeps_identity(m, (n - 1) as nat, now, j);
        law_reload_touches_only_what_changed(m, (n - 1) as nat, now, j);
        let before = reloaded_upto(m, (n - 1) as nat, now).0;
        let e = m.outputs[n - 1];
        if let Ok(w) = m.resolution(e.name) {
            if !config::same_wallpaper(e.resolved, w) {
                control::lemma_repainted_at_keeps(
                    before.with_output(n - 1, retargeted(e, w)),
                    n - 1,
                    0,
                    false,
                    now,
                );
            }
        }
    }
}

/// Whether a wallpaper looks different from another: another mode, another
/// colour, another file, or one of them without an image.
pub open spec fn looks_different(a: config::ResolvedSpec, b: config::ResolvedSpec) -> bool {
    ||| a.mode != b.mode
    ||| a.color != b.color
    ||| (a.path is Some) != (b.path is Some)
    ||| a.path is Some && b.path is Some && paths::path_key(a.path->0) != paths::path_key(
        b.path->0,
    )
}

/// A reload counts the outputs whose wallpaper looks different now, one by one,
/// and no others; the others it leaves exactly as they are.
pub proof fn law_reload_counts_what_changed(m: control::DaemonSpec, n: nat, now: u64)
    requires
        n < m.outputs.len(),
    ensures
        ({
            let e = m.outputs[n as int];
            let differs = match config::resolution(m.config.output, e.name, m.env, m.base) {
                Ok(w) => looks_different(e.resolved, w),
                Err(_) => false,
            };
            let (before, acts, changed) = reloaded_upto(m, n, now);
            let (after, more, total) = reloaded_upto(m, n + 1, now);
            &&& total == changed + (if differs {
                1nat
            } else {
                0nat
            })
            &&& !differs ==> after == before && more == acts
        }),
        reloaded_upto(m, 0, now).2 == 0,
        reloaded_upto(m, 0, now).1.len() == 0,
{
}

proof fn lemma_reload_renders(m: control::DaemonSpec, n: nat, now: u64, j: int) -> (k: int)
    requires
        0 <= j < n <= m.outputs.len(),
        m.outputs[j].generation < u64::MAX,
        m.resolution(m.outputs[j].name) matches Ok(w) && w.path is Some && looks_different(
            m.outputs[j].resolved,
            w,
        ),
        sized(m.outputs[j]),
    ensures
        ({
            let (after, acts, changed) = reloaded_upto(m, n, now);
            &&& 0 <= k < acts.len()
            &&& acts[k] matches control::ActionSpec::Render(job)
            &&& is_job_of(after.outputs[j], m.config.blur, job)
            &&& job.token == 0
            &&& job.fade
        }),
    decreases n,
{
    let (before, acts, changed) = reloaded_upto(m, (n - 1) as nat, now);
    let (after, all, total) = reloaded_upto(m, n, now);
    law_reload_touches_only_what_changed(m, (n - 1) as nat, now, j);
    let e = m.outputs[n - 1];
    if j < n - 1 {
        let k = lemma_reload_renders(m, (n - 1) as nat, now, j);
        if let Ok(w) = m.resolution(e.name) {
            if !config::same_wallpaper(e.resolved, w) {
                control::lemma_repainted_at_keeps(
                    before.with_output(n - 1, retargeted(e, w)),
                    n - 1,
                    0,
                    false,
                    now,
                );
            }
        }
        assert(all[k] == acts[k]);
        k
    } else {
        let w = m.resolution(e.name)->Ok_0;
        let mid = before.with_output(n - 1, retargeted(e, w));
        control::law_repaint_queues_the_wallpaper(mid, n - 1, 0, false, now);
        control::lemma_repainted_at_keeps(mid, n - 1, 0, false, now);
        let more = control::repainted_at(mid, n - 1, 0, false, now).1;
        assert(mid.outputs[n - 1] == retargeted(e, w));
        let x = choose|x: int| 0 <= x < more.len() && #[trigger] more[x] is Render;
        output::law_repainting_keeps_the_rest(
            retargeted(e, w),
            mid.scene(),
            mid.dim,
            0,
            false,
            now,
        );
        assert(all[acts.len() + x] == more[x]);
        acts.len() + x
    }
}

/// An output whose wallpaper looks different after a reload is rendered for what
/// is configured now, with a crossfade, if that is an image; a colour is filled
/// in.
pub proof fn law_reload_paints_what_changed(m: control::DaemonSpec, now: u64, j: int) -> (k: int)
    requires
        m.wf(),
        m.has_room(),
        0 <= j < m.outputs.len(),
        sized(m.outputs[j]),
        config::resolution(m.config.output, m.outputs[j].name, m.env, m.base) matches Ok(w)
            && looks_different(m.outputs[j].resolved, w),
    ensures
        ({
            let w = config::resolution(m.config.output, m.outputs[j].name, m.env, m.base)->Ok_0;
            let (after, acts, changed) = reloaded_upto(m, m.outputs.len(), now);
            let e = after.outputs[j];
            &&& e.resolved == w
            &&& w.path is Some ==> {
                &&& 0 <= k < acts.len()
                &&& acts[k] matches control::ActionSpec::Render(job)
                &&& Some(job.path) == w.path && job.mode == w.mode && job.fill == w.color
                &&& job.output == e.name && Some(job.target) == e.physical()
                &&& job.generation == e.generation
                &&& job.blur_radius == m.config.blur.radius
                &&& job.blur_dim_bits == m.config.blur.dim_bits
                &&& job.token == 0 && job.fade
            }
            &&& w.path is None ==> e.sharp == Some(
                render::solid_pixels(w.color, m.outputs[j].physical()->0),
            )
        }),
{
    let w = m.resolution(m.outputs[j].name)->Ok_0;
    law_reload_touches_only_what_changed(m, m.outputs.len(), now, j);
    assert(m.outputs[j].generation < u64::MAX);
    if w.path is Some {
        lemma_reload_renders(m, m.outputs.len(), now, j)
    } else {
        lemma_reload_fills(m, m.outputs.len(), now, j);
        0
    }
}

proof fn lemma_reload_fills(m: control::DaemonSpec, n: nat, now: u64, j: int)
    requires
        0 <= j < n <= m.outputs.len(),
        m.resolution(m.outputs[j].name) matches Ok(w) && w.path is None && looks_different(
            m.outputs[j].resolved,
            w,
        ),
        sized(m.outputs[j]),
    ensures
        ({
            let w = m.resolution(m.outputs[j].name)->Ok_0;
            reloaded_upto(m, n, now).0.outputs[j].sharp == Some(
                render::solid_pixels(w.color, m.outputs[j].physical()->0),
            )
        }),
    decreases n,
{
    let (before, acts, changed) = reloaded_upto(m, (n - 1) as nat, now);
    law_reload_touches_only_what_changed(m, (n - 1) as nat, now, j);
    let e = m.outputs[n - 1];
    if j < n - 1 {
        lemma_reload_fills(m, (n - 1) as nat, now, j);
        if let Ok(w) = m.resolution(e.name) {
            if !config::same_wallpaper(e.resolved, w) {
                control::lemma_repainted_at_keeps(
                    before.with_output(n - 1, retargeted(e, w)),
                    n - 1,
                    0,
                    false,
                    now,
                );
            }
        }
    } else {
        let w = m.resolution(e.name)->Ok_0;
        let mid = before.with_output(n - 1, retargeted(e, w));
        assert(mid.outputs[n - 1] == retargeted(e, w));
        let (next, rp) = output::repainted(retargeted(e, w), mid.scene(), mid.dim, 0, false, now);
        control::lemma_noted_keeps(mid.with_output(n - 1, next), 0, next.name, None);
    }
}

/// Reading the files again replaces what was read, the overrides and the dim
/// table, and takes the transition time and the blur settings from the file;
/// nothing else changes by it.
pub proof fn law_what_is_read_again(
    m: control::DaemonSpec,
    disk: config::ConfigSpec,
    overrides: Map<Seq<char>, config::OutputSpec>,
    dim: Seq<u8>,
)
    ensures
        ({
            let after = reread(m, disk, overrides, dim);
            &&& after.disk_config == disk
            &&& after.overrides == overrides
            &&& after.dim == dim
            &&& after.config.transition_ms == disk.transition_ms
            &&& after.config.blur == disk.blur
            &&& after.outputs == m.outputs && after.pending == m.pending
            &&& after.overview_open == m.overview_open && after.niri_connected == m.niri_connected
            &&& after.next_token == m.next_token && after.env == m.env && after.base == m.base
            &&& after.pid == m.pid && after.niri_backoff_ms == m.niri_backoff_ms
        }),
{
}

/// A client whose `set` of an image on one output succeeds hears that it did,
/// once it is attached and the render has come through.
#[verifier::rlimit(30)]
pub proof fn law_successful_set_is_acknowledged(
    m: control::DaemonSpec,
    req: ipc::SetSpec,
    now: u64,
    name: Seq<char>,
    client: u64,
    r: worker::JobResultSpec,
    reported_at: u64,
)
    requires
        m.wf(),
        m.has_room(),
        target_names(stored(m, req), slot_of(req), m.outputs.len()) == seq![name],
        stored(m, req).resolution(name) matches Ok(w) && w.path is Some,
        r.token == m.next_token,
        r.output == name,
        r.outcome is Ok,
    ensures
        ({
            let (after, acts, how) = wallpaper_set(m, req, now);
            let (waiting, none) = control::attached(after, m.next_token, client);
            let (end, told) = control::result_applied(waiting, r, reported_at);
            &&& none.len() == 0
            &&& told.len() > 0
            &&& told.last() matches control::ActionSpec::Answer { client: c, reply }
            &&& c == client
            &&& reply.ok && reply.data is None && reply.error is None
            &&& !end.pending.contains_key(m.next_token)
        }),
{
    let slot = slot_of(req);
    let kept = stored(m, req);
    let token = kept.next_token;
    let names = target_names(kept, slot, kept.outputs.len());
    let held = control::DaemonSpec {
        next_token: (token + 1) as u64,
        pending: kept.pending.insert(token, pending::fresh(names)),
        ..kept
    };
    assert forall|j: int|
        0 <= j < held.outputs.len() && targeted(
            held.config.output,
            slot,
            (#[trigger] held.outputs[j]).name,
        ) implies image_to_come(held, held.outputs[j]) by {
        lemma_target_is_named(kept, slot, kept.outputs.len(), j);
        assert(held.outputs[j].name == name);
    }
    lemma_images_stay_pending(held, slot, kept.outputs.len(), token, !req.fade, now);
    let after = wallpaper_set(m, req, now).0;
    let asked = pending::PendingSpec { client: Some(client), ..pending::fresh(names) };
    let waiting = control::attached(after, token, client).0;
    assert(waiting.pending == after.pending.insert(token, asked));
    let over = pending::drained(asked, name, None);
    assert(names[0] == name);
    assert(names.contains(name));
    assert(names.index_of(name) == 0);
    assert(over.outstanding =~= Seq::empty());
    assert(over.failures =~= Seq::empty());
}

/// An output that is given another wallpaper has that, and counts as not painted
/// exactly if it has to wait for an image of another file. Whatever it shows, it
/// goes on showing.
pub proof fn law_another_image_is_waited_for(e: output::EntrySpec, w: config::ResolvedSpec)
    ensures
        ({
            let after = retargeted(e, w);
            let other_file = w.path is Some && (e.resolved.path is None || paths::path_key(
                e.resolved.path->0,
            ) != paths::path_key(w.path->0));
            &&& after.resolved == w
            &&& other_file ==> after.status is Pending && !after.ready
            &&& !other_file ==> after.status == e.status && after.ready == e.ready
            &&& after.id == e.id && after.name == e.name && after.logical == e.logical
            &&& after.scale_120 == e.scale_120 && after.fractional == e.fractional
            &&& after.configured == e.configured && after.generation == e.generation
            &&& after.painted == e.painted && after.shown == e.shown && after.showing == e.showing
            &&& after.sharp == e.sharp && after.blurred == e.blurred
            &&& after.buffers_size == e.buffers_size && after.transition == e.transition
            &&& after.frame_pending == e.frame_pending
        }),
{
}

/// A `set` waits for the outputs that it is meant for, each once, and for no
/// others.
pub proof fn law_set_waits_for_each_target_once(
    m: control::DaemonSpec,
    req: ipc::SetSpec,
    name: Seq<char>,
)
    ensures
        ({
            let names = target_names(stored(m, req), slot_of(req), m.outputs.len());
            &&& names.no_duplicates()
            &&& names.contains(name) <==> meant_for(m, req, name) && exists|j: int|
                0 <= j < m.outputs.len() && (#[trigger] m.outputs[j]).name == name
        }),
{
    let kept = stored(m, req);
    lemma_targets_are_distinct(kept, slot_of(req), m.outputs.len());
    lemma_meant_is_targeted(m, req, name);
    if meant_for(m, req, name) && exists|j: int|
        0 <= j < m.outputs.len() && (#[trigger] m.outputs[j]).name == name {
        let j = choose|j: int| 0 <= j < m.outputs.len() && (#[trigger] m.outputs[j]).name == name;
        lemma_target_is_named(kept, slot_of(req), m.outputs.len(), j);
    }
    if target_names(kept, slot_of(req), m.outputs.len()).contains(name) {
        lemma_named_is_target(kept, slot_of(req), m.outputs.len(), name);
    }
}

proof fn lemma_named_is_target(m: control::DaemonSpec, slot: Seq<char>, n: nat, name: Seq<char>)
    requires
        n <= m.outputs.len(),
        target_names(m, slot, n).contains(name),
    ensures
        targeted(m.config.output, slot, name),
        exists|j: int| 0 <= j < n && (#[trigger] m.outputs[j]).name == name,
    decreases n,
{
    if n > 0 {
        let before = target_names(m, slot, (n - 1) as nat);
        if before.contains(name) {
            lemma_named_is_target(m, slot, (n - 1) as nat, name);
        } else {
            let last = m.outputs[n - 1].name;
            let k = target_names(m, slot, n).index_of(name);
            if k < before.len() {
                assert(before[k] == name);
            }
            assert(name == last);
        }
    }
}

/// After the files were read again the overrides are in effect over what the file
/// sets, and nothing else is: what was set without being remembered is dropped.
pub proof fn law_overrides_apply_after_reading(
    m: control::DaemonSpec,
    disk: config::ConfigSpec,
    overrides: Map<Seq<char>, config::OutputSpec>,
    dim: Seq<u8>,
    slot: Seq<char>,
)
    ensures
        ({
            let after = reread(m, disk, overrides, dim);
            &&& after.config.output.contains_key(slot) <==> disk.output.contains_key(slot)
                || overrides.contains_key(slot)
            &&& after.config.output.contains_key(slot) ==> state::holds_both(
                after.config.output[slot],
                disk.output,
                overrides,
                slot,
            )
        }),
{
}

} // verus!
