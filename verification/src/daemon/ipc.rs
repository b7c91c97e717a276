//! Control-socket commands: what is asked for, and how it is answered when only
//! the configuration is known.
//!
//! The transport (accepting, newline framing) is elsewhere; so is the state of
//! the outputs.

use std::ops::ControlFlow;

use vstd::prelude::*;

use crate::color::Color;
use crate::config;
use crate::config::{Config, Mode, DEFAULT_SLOT};
use crate::daemon::status;
use crate::daemon::status::{blur_status, idle_status};
use crate::paths::{BaseDir, Env};
use crate::proto;
use crate::proto::{OutputStatus, ReplyData, Request, Status, VersionInfo, WireReply};
use crate::slots;
use crate::text;
use crate::text::str_eq;
use crate::VERSION;

verus! {

/// A request to change a wallpaper, with something to change it to.
#[derive(Debug, PartialEq, Eq)]
pub struct SetRequest {
    /// Output connector name, or `None` for the default slot.
    pub slot: Option<String>,
    pub path: Option<String>,
    pub mode: Option<Mode>,
    pub color: Option<Color>,
    pub fade: bool,
    pub persist: bool,
}

/// When a `set` is answered.
#[derive(Debug, PartialEq, Eq)]
pub enum SetDispatch {
    /// At once: it was stored, but nothing shows it.
    Now(WireReply),
    /// When the jobs under this token have reported.
    Deferred(u64),
}

/// How a request is answered.
#[derive(Debug, PartialEq, Eq)]
pub enum Reply {
    Now(WireReply),
    /// When the jobs under this token have reported.
    Deferred(u64),
    /// At once, after which the daemon exits.
    Shutdown(WireReply),
    /// When the configuration has been read again, the remembered overrides
    /// cleared first if `reset` is set.
    Reread { reset: bool },
}

/// Everything a handler without outputs knows.
#[derive(Debug)]
pub struct Handler {
    pub pid: u32,
    pub env: Env,
    /// Where relative paths start.
    pub base: BaseDir,
    pub config: Config,
    /// Live overview state.
    pub overview_open: bool,
    /// Whether the connection to niri is currently up.
    pub niri_connected: bool,
}

// ------------------------------------------------------------------- model

/// [`SetRequest`] over character sequences.
pub ghost struct SetSpec {
    pub slot: Option<Seq<char>>,
    pub patch: config::OutputSpec,
    pub fade: bool,
    pub persist: bool,
}

impl View for SetRequest {
    type V = SetSpec;

    open spec fn view(&self) -> SetSpec {
        SetSpec {
            slot: text::opt_view(self.slot),
            patch: config::OutputSpec {
                path: text::opt_view(self.path),
                mode: self.mode,
                color: self.color,
            },
            fade: self.fade,
            persist: self.persist,
        }
    }
}

/// [`SetDispatch`] over sequences.
pub ghost enum SetDispatchSpec {
    Now(proto::ReplySpec),
    Deferred(u64),
}

impl View for SetDispatch {
    type V = SetDispatchSpec;

    open spec fn view(&self) -> SetDispatchSpec {
        match *self {
            SetDispatch::Now(r) => SetDispatchSpec::Now(r@),
            SetDispatch::Deferred(t) => SetDispatchSpec::Deferred(t),
        }
    }
}

/// [`Reply`] over sequences.
pub ghost enum AnswerSpec {
    Now(proto::ReplySpec),
    Deferred(u64),
    Shutdown(proto::ReplySpec),
    Reread { reset: bool },
}

impl View for Reply {
    type V = AnswerSpec;

    open spec fn view(&self) -> AnswerSpec {
        match *self {
            Reply::Now(r) => AnswerSpec::Now(r@),
            Reply::Deferred(t) => AnswerSpec::Deferred(t),
            Reply::Shutdown(r) => AnswerSpec::Shutdown(r@),
            Reply::Reread { reset } => AnswerSpec::Reread { reset },
        }
    }
}

/// `names` without the default slot.
pub open spec fn connectors(names: Seq<Seq<char>>) -> Seq<Seq<char>>
    decreases names.len(),
{
    if names.len() == 0 {
        names
    } else if names.last() == DEFAULT_SLOT@ {
        connectors(names.drop_last())
    } else {
        connectors(names.drop_last()).push(names.last())
    }
}

/// The slots that a report lists when no output is known: the ones with a table
/// of their own, or the default slot if there is none.
pub open spec fn listed(output: Map<Seq<char>, config::OutputSpec>) -> Seq<Seq<char>> {
    let named = connectors(slots::in_order(output.dom()));
    if named.len() > 0 {
        named
    } else {
        seq![DEFAULT_SLOT@]
    }
}

/// A row for each of `names` whose wallpaper can be resolved. The default slot
/// is never itself an override.
pub open spec fn slot_rows(
    names: Seq<Seq<char>>,
    output: Map<Seq<char>, config::OutputSpec>,
    env: Map<Seq<char>, Seq<char>>,
    base: Seq<char>,
) -> Seq<proto::RowSpec>
    decreases names.len(),
{
    if names.len() == 0 {
        Seq::empty()
    } else {
        let before = slot_rows(names.drop_last(), output, env, base);
        let name = names.last();
        match config::resolution(output, name, env, base) {
            Ok(w) => before.push(
                status::idle_row(name, w, output.contains_key(name) && name != DEFAULT_SLOT@),
            ),
            Err(_) => before,
        }
    }
}

impl Handler {
    /// The report on what is configured.
    pub open spec fn report(self) -> proto::StatusSpec {
        proto::StatusSpec {
            pid: self.pid,
            niri_connected: self.niri_connected,
            blur: status::blur_report(self.config.blur, self.overview_open),
            transition_ms: self.config.transition_ms,
            outputs: slot_rows(
                listed(self.config@.output),
                self.config@.output,
                self.env@,
                self.base@,
            ),
        }
    }
}

// -------------------------------------------------------------------- code

impl Handler {
    /// A handler for `config`, the overview closed and niri not connected.
    #[must_use]
    pub fn new(pid: u32, env: Env, base: BaseDir, config: Config) -> (r: Handler)
        ensures
            r == (Handler { pid, env, base, config, overview_open: false, niri_connected: false }),
    {
        Handler { pid, env, base, config, overview_open: false, niri_connected: false }
    }

    /// Handle one request. `Break` means that the daemon is to reply and then
    /// shut down.
    pub fn handle(&mut self, req: Request) -> (r: (WireReply, ControlFlow<()>))
        ensures
            *final(self) == *old(self),
            match req {
                Request::Version => {
                    &&& r.0@ == proto::succeeded(proto::DataSpec::Version(VERSION@))
                    &&& r.1 is Continue
                },
                Request::Get => {
                    &&& r.0@ == proto::succeeded(proto::DataSpec::Status(old(self).report()))
                    &&& r.1 is Continue
                },
                Request::Quit => r.0@ == proto::acknowledged() && r.1 is Break,
                _ => {
                    &&& r.0@ == proto::refused("not implemented yet (arrives in M1)"@)
                    &&& r.1 is Continue
                },
            },
    {
        match req {
            Request::Version => (version_reply(), ControlFlow::Continue(())),
            Request::Get => (
                WireReply::ok(ReplyData::Status(self.status())),
                ControlFlow::Continue(()),
            ),
            Request::Quit => (WireReply::ok_empty(), ControlFlow::Break(())),
            Request::SetWallpaper { .. } | Request::Reload | Request::Reset => (
                WireReply::err("not implemented yet (arrives in M1)".to_string()),
                ControlFlow::Continue(()),
            ),
        }
    }

    /// The names that a report lists.
    fn names(&self) -> (r: Vec<String>)
        ensures
            slots::views(r@) == listed(self.config@.output),
    {
        let all = self.config.output.names();
        let ghost order = slots::views(all@);
        let mut names: Vec<String> = Vec::new();
        let mut i: usize = 0;
        assert(order.take(0) =~= Seq::empty());
        assert(slots::views(names@) =~= Seq::empty());
        while i < all.len()
            invariant
                i <= all@.len(),
                order == slots::views(all@),
                slots::views(names@) == connectors(order.take(i as int)),
            decreases all@.len() - i,
        {
            proof {
                assert(order.take(i + 1).drop_last() =~= order.take(i as int));
                assert(order.take(i + 1).last() == all@[i as int]@);
            }
            if !str_eq(all[i].as_str(), DEFAULT_SLOT) {
                let ghost before = slots::views(names@);
                names.push(all[i].clone());
                assert(slots::views(names@) =~= before.push(all@[i as int]@));
            }
            i += 1;
        }
        assert(order.take(i as int) =~= order);
        if names.len() == 0 {
            names.push(DEFAULT_SLOT.to_string());
            assert(slots::views(names@) =~= seq![DEFAULT_SLOT@]);
        }
        names
    }

    /// The report on what is configured: there is no live output list, so it
    /// has the named slots, or else the default one, with nothing on screen.
    pub fn status(&self) -> (r: Status)
        ensures
            r@ == self.report(),
    {
        let names = self.names();
        let ghost order = slots::views(names@);
        let mut outputs: Vec<OutputStatus> = Vec::new();
        let mut i: usize = 0;
        assert(order.take(0) =~= Seq::empty());
        assert(proto::rows(outputs@) =~= Seq::empty());
        while i < names.len()
            invariant
                i <= names@.len(),
                order == slots::views(names@),
                proto::rows(outputs@) == slot_rows(
                    order.take(i as int),
                    self.config@.output,
                    self.env@,
                    self.base@,
                ),
            decreases names@.len() - i,
        {
            proof {
                assert(order.take(i + 1).drop_last() =~= order.take(i as int));
                assert(order.take(i + 1).last() == names@[i as int]@);
            }
            let name = names[i].as_str();
            if let Ok((resolved, has_table)) = self.config.resolve(name, &self.env, &self.base) {
                let ghost before = proto::rows(outputs@);
                let row = idle_status(name, &resolved, has_table && !str_eq(name, DEFAULT_SLOT));
                outputs.push(row);
                assert(proto::rows(outputs@) =~= before.push(row@));
            }
            i += 1;
        }
        assert(order.take(i as int) =~= order);
        Status {
            pid: self.pid,
            niri_connected: self.niri_connected,
            blur: blur_status(&self.config.blur, self.overview_open),
            transition_ms: self.config.transition_ms,
            outputs,
        }
    }
}

/// The reply to a line that is no request; why it is none.
pub fn malformed_reply(cause: &str) -> (r: WireReply)
    ensures
        r@ == proto::refused("malformed request: "@ + cause@),
{
    let mut message = "malformed request: ".to_string();
    message.push_str(cause);
    WireReply::err(message)
}

/// The reply to a version request.
pub fn version_reply() -> (r: WireReply)
    ensures
        r@ == proto::succeeded(proto::DataSpec::Version(VERSION@)),
{
    WireReply::ok(ReplyData::Version(VersionInfo { version: VERSION.to_string() }))
}

// -------------------------------------------------------------------- laws

/// Whatever is configured, blur is reported as active exactly while the overview
/// is open and blur is enabled.
pub proof fn law_blur_active_iff_open_and_enabled(h: Handler)
    ensures
        h.report().blur.active <==> h.overview_open && h.config.blur.enable,
{
}

proof fn lemma_connectors(names: Seq<Seq<char>>, name: Seq<char>)
    ensures
        connectors(names).contains(name) <==> names.contains(name) && name != DEFAULT_SLOT@,
    decreases names.len(),
{
    if names.len() > 0 {
        let head = names.drop_last();
        let last = names.last();
        lemma_connectors(head, name);
        assert(names =~= head.push(last));
        if head.contains(name) {
            assert(names[head.index_of(name)] == name);
        }
        if names.contains(name) && name != last {
            assert(head[names.index_of(name)] == name);
        }
        assert(names[names.len() - 1] == last);
        if last != DEFAULT_SLOT@ {
            let c = connectors(head);
            assert(connectors(names) == c.push(last));
            assert(c.push(last)[c.len() as int] == last);
            if c.contains(name) {
                assert(c.push(last)[c.index_of(name)] == name);
            }
            if c.push(last).contains(name) && name != last {
                assert(c[c.push(last).index_of(name)] == name);
            }
        }
    }
}

/// A report lists every slot that has a table of its own, and the default slot
/// only if there is none.
pub proof fn law_report_lists_named_slots(
    output: Map<Seq<char>, config::OutputSpec>,
    name: Seq<char>,
)
    requires
        output.dom().finite(),
        name != DEFAULT_SLOT@,
    ensures
        listed(output).contains(name) <==> output.contains_key(name),
        output.contains_key(name) ==> !listed(output).contains(DEFAULT_SLOT@),
{
    let order = slots::in_order(output.dom());
    let named = connectors(order);
    slots::lemma_listing_exists(output.dom());
    lemma_connectors(order, name);
    lemma_connectors(order, DEFAULT_SLOT@);
    if named.len() > 0 {
        assert(listed(output) == named);
    } else {
        assert(listed(output) =~= seq![DEFAULT_SLOT@]);
    }
}

/// The report repeats what the handler knows of the daemon itself.
pub proof fn law_report_repeats_the_settings(h: Handler)
    ensures
        h.report().pid == h.pid,
        h.report().niri_connected == h.niri_connected,
        h.report().transition_ms == h.config.transition_ms,
        h.report().blur.enable == h.config.blur.enable,
        h.report().blur.radius == h.config.blur.radius,
        h.report().blur.dim_bits == h.config.blur.dim_bits,
{
}

proof fn lemma_slot_row(
    names: Seq<Seq<char>>,
    output: Map<Seq<char>, config::OutputSpec>,
    env: Map<Seq<char>, Seq<char>>,
    base: Seq<char>,
    i: int,
) -> (k: int)
    requires
        0 <= i < names.len(),
        config::resolution(output, names[i], env, base) is Ok,
    ensures
        0 <= k < slot_rows(names, output, env, base).len(),
        slot_rows(names, output, env, base)[k] == status::idle_row(
            names[i],
            config::resolution(output, names[i], env, base)->Ok_0,
            output.contains_key(names[i]) && names[i] != DEFAULT_SLOT@,
        ),
    decreases names.len(),
{
    let before = slot_rows(names.drop_last(), output, env, base);
    if i == names.len() - 1 {
        before.len() as int
    } else {
        assert(names.drop_last()[i] == names[i]);
        let k = lemma_slot_row(names.drop_last(), output, env, base, i);
        assert(slot_rows(names, output, env, base)[k] == before[k]);
        k
    }
}

proof fn lemma_slot_rows_come_from(
    names: Seq<Seq<char>>,
    output: Map<Seq<char>, config::OutputSpec>,
    env: Map<Seq<char>, Seq<char>>,
    base: Seq<char>,
    k: int,
)
    requires
        0 <= k < slot_rows(names, output, env, base).len(),
    ensures
        slot_rows(names, output, env, base).len() <= names.len(),
        names.contains(slot_rows(names, output, env, base)[k].name),
        config::resolution(output, slot_rows(names, output, env, base)[k].name, env, base) is Ok,
    decreases names.len(),
{
    let before = slot_rows(names.drop_last(), output, env, base);
    let rows = slot_rows(names, output, env, base);
    assert(names[names.len() - 1] == names.last());
    if before.len() > 0 {
        lemma_slot_rows_come_from(names.drop_last(), output, env, base, 0);
    }
    if k < before.len() {
        lemma_slot_rows_come_from(names.drop_last(), output, env, base, k);
        assert(rows[k] == before[k]);
        let at = names.drop_last().index_of(rows[k].name);
        assert(names[at] == rows[k].name);
    }
}

/// Every configured connector whose wallpaper can be resolved has a row in the
/// report of a handler without outputs, which tells that wallpaper; and without
/// a configured connector the default slot has one.
pub proof fn law_report_tells_each_configured_slot(h: Handler, name: Seq<char>) -> (k: int)
    requires
        h.config@.output.dom().finite(),
        config::resolution(h.config@.output, name, h.env@, h.base@) is Ok,
        if name == DEFAULT_SLOT@ {
            forall|n: Seq<char>| #[trigger]
                h.config@.output.contains_key(n) ==> n == DEFAULT_SLOT@
        } else {
            h.config@.output.contains_key(name)
        },
    ensures
        0 <= k < h.report().outputs.len(),
        ({
            let w = config::resolution(h.config@.output, name, h.env@, h.base@)->Ok_0;
            let row = h.report().outputs[k];
            &&& row.name == name
            &&& row.mode == w.mode
            &&& row.color == w.color
            &&& match w.path {
                Some(p) => row.source == (proto::SourceSpec::Image { path: p }),
                None => row.source is Color,
            }
            &&& row.overridden <==> name != DEFAULT_SLOT@
            &&& row.logical is None && !row.loaded && row.error is None
        }),
{
    let output = h.config@.output;
    let names = listed(output);
    let order = slots::in_order(output.dom());
    slots::lemma_listing_exists(output.dom());
    if name == DEFAULT_SLOT@ {
        assert(connectors(order).len() == 0) by {
            if connectors(order).len() > 0 {
                let n = connectors(order)[0];
                assert(connectors(order).contains(n));
                lemma_connectors(order, n);
                assert(output.contains_key(n));
            }
        }
        assert(names[0] == name);
    } else {
        law_report_lists_named_slots(output, name);
    }
    assert(names.contains(name));
    let i = names.index_of(name);
    lemma_slot_row(names, output, h.env@, h.base@, i)
}

/// That report has rows for nothing else.
pub proof fn law_report_tells_only_configured_slots(h: Handler, k: int)
    requires
        h.config@.output.dom().finite(),
        0 <= k < h.report().outputs.len(),
    ensures
        ({
            let name = h.report().outputs[k].name;
            &&& name == DEFAULT_SLOT@ || h.config@.output.contains_key(name)
            &&& name == DEFAULT_SLOT@ ==> h.report().outputs.len() == 1
        }),
{
    let output = h.config@.output;
    let names = listed(output);
    let order = slots::in_order(output.dom());
    slots::lemma_listing_exists(output.dom());
    lemma_slot_rows_come_from(names, output, h.env@, h.base@, k);
    let name = h.report().outputs[k].name;
    lemma_connectors(order, name);
    if connectors(order).len() == 0 {
        assert(names =~= seq![DEFAULT_SLOT@]);
        assert(names[names.index_of(name)] == name);
    } else {
        assert(order.contains(name));
    }
}

} // verus!
