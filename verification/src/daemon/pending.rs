//! A `set` that waits for its render jobs before it is answered.

use vstd::prelude::*;

use crate::proto;
use crate::proto::{ReplyData, WireReply};
use crate::slots;
use crate::text;
use crate::text::str_eq;

verus! {

/// One in-flight `set` whose jobs have not all reported.
#[derive(Debug)]
pub struct PendingSet {
    /// Who is to be answered; not known in the brief time between the token's
    /// creation and the connection being attached to it.
    pub client: Option<u64>,
    /// Names of the outputs that still owe a result, none twice.
    pub outstanding: Vec<String>,
    /// Output and reason of each job that failed.
    pub failures: Vec<(String, String)>,
    /// Something to tell the client on success.
    pub note: Option<String>,
}

// ------------------------------------------------------------------- model

/// [`PendingSet`] over sequences.
pub ghost struct PendingSpec {
    pub client: Option<u64>,
    pub outstanding: Seq<Seq<char>>,
    pub failures: Seq<(Seq<char>, Seq<char>)>,
    pub note: Option<Seq<char>>,
}

/// The failures over character sequences.
pub open spec fn failures_view(f: Seq<(String, String)>) -> Seq<(Seq<char>, Seq<char>)> {
    f.map_values(|p: (String, String)| (p.0@, p.1@))
}

impl View for PendingSet {
    type V = PendingSpec;

    open spec fn view(&self) -> PendingSpec {
        PendingSpec {
            client: self.client,
            outstanding: slots::views(self.outstanding@),
            failures: failures_view(self.failures@),
            note: text::opt_view(self.note),
        }
    }
}

/// A `set` of which nothing has reported yet.
pub open spec fn fresh(names: Seq<Seq<char>>) -> PendingSpec {
    PendingSpec { client: None, outstanding: names, failures: Seq::empty(), note: None }
}

/// Which outstanding output a result for `output` settles: that one, or, if the
/// output vanished in the meantime, the first one, so that the `set` can still
/// complete.
pub open spec fn settled_by(outstanding: Seq<Seq<char>>, output: Seq<char>) -> int {
    if outstanding.contains(output) {
        outstanding.index_of(output)
    } else {
        0
    }
}

/// The `set` after a result for `output`.
pub open spec fn drained(p: PendingSpec, output: Seq<char>, error: Option<Seq<char>>) -> PendingSpec {
    if p.outstanding.len() == 0 {
        p
    } else {
        let i = settled_by(p.outstanding, output);
        PendingSpec {
            outstanding: p.outstanding.remove(i),
            failures: match error {
                Some(reason) => p.failures.push((p.outstanding[i], reason)),
                None => p.failures,
            },
            ..p
        }
    }
}

/// Whether the client can be answered.
pub open spec fn ready(p: PendingSpec) -> bool {
    p.client is Some && p.outstanding.len() == 0
}

/// Each failure as `output: reason`, separated by semicolons.
pub open spec fn failures_text(f: Seq<(Seq<char>, Seq<char>)>) -> Seq<char>
    decreases f.len(),
{
    if f.len() == 0 {
        Seq::empty()
    } else {
        let last = f.last().0 + ": "@ + f.last().1;
        if f.len() == 1 {
            last
        } else {
            failures_text(f.drop_last()) + "; "@ + last
        }
    }
}

/// What the client is told: every failure, or that all went well.
pub open spec fn answer(p: PendingSpec) -> proto::ReplySpec {
    if p.failures.len() > 0 {
        proto::refused(failures_text(p.failures))
    } else {
        match p.note {
            Some(n) => proto::succeeded(proto::DataSpec::Note(n)),
            None => proto::acknowledged(),
        }
    }
}

// -------------------------------------------------------------------- code

/// Where `name` stands in `names`.
fn position(names: &Vec<String>, name: &str) -> (r: Option<usize>)
    ensures
        match r {
            Some(i) => i < names@.len() && slots::views(names@)[i as int] == name@,
            None => !slots::views(names@).contains(name@),
        },
{
    let mut i: usize = 0;
    while i < names.len()
        invariant
            i <= names@.len(),
            forall|j: int| 0 <= j < i ==> slots::views(names@)[j] != name@,
        decreases names@.len() - i,
    {
        if str_eq(names[i].as_str(), name) {
            return Some(i);
        }
        i += 1;
    }
    None
}

/// Add `name` unless it is there already.
pub fn push_once(names: &mut Vec<String>, name: &String)
    requires
        slots::views(old(names)@).no_duplicates(),
    ensures
        slots::views(final(names)@) == pushed_once(slots::views(old(names)@), name@),
        slots::views(final(names)@).no_duplicates(),
{
    if position(names, name.as_str()).is_none() {
        let ghost before = slots::views(names@);
        names.push(name.clone());
        assert(slots::views(names@) =~= before.push(name@));
    } else {
        assert(slots::views(names@).contains(name@));
    }
}

/// `names` with `name`, which is added at the end if it is not there.
pub open spec fn pushed_once(names: Seq<Seq<char>>, name: Seq<char>) -> Seq<Seq<char>> {
    if names.contains(name) {
        names
    } else {
        names.push(name)
    }
}

impl PendingSet {
    /// A `set` of which nothing has reported yet.
    pub fn new(names: Vec<String>) -> (r: PendingSet)
        ensures
            r@ == fresh(slots::views(names@)),
    {
        let failures: Vec<(String, String)> = Vec::new();
        assert(failures_view(failures@) =~= Seq::empty());
        PendingSet { client: None, outstanding: names, failures, note: None }
    }

    /// Take in a result for `output`.
    pub fn drain(&mut self, output: &str, error: Option<String>)
        requires
            old(self)@.outstanding.no_duplicates(),
        ensures
            final(self)@ == drained(old(self)@, output@, text::opt_view(error)),
            final(self)@.outstanding.no_duplicates(),
    {
        if self.outstanding.len() == 0 {
            return;
        }
        let i = match position(&self.outstanding, output) {
            Some(i) => i,
            None => 0,
        };
        let ghost before = slots::views(self.outstanding@);
        let ghost failed = failures_view(self.failures@);
        assert(i == settled_by(before, output@)) by {
            if before.contains(output@) {
                assert(before[before.index_of(output@)] == output@);
            }
        }
        let name = self.outstanding.remove(i);
        assert(slots::views(self.outstanding@) =~= before.remove(i as int));
        if let Some(reason) = error {
            self.failures.push((name, reason));
            assert(failures_view(self.failures@) =~= failed.push((name@, reason@)));
        }
    }

    /// Whether the client can be answered.
    pub fn is_ready(&self) -> (r: bool)
        ensures
            r == ready(self@),
    {
        self.client.is_some() && self.outstanding.len() == 0
    }

    /// What the client is told.
    pub fn reply(self) -> (r: WireReply)
        ensures
            r@ == answer(self@),
    {
        if self.failures.len() > 0 {
            return WireReply::err(join_failures(&self.failures));
        }
        match self.note {
            Some(note) => WireReply::ok(ReplyData::Note(note)),
            None => WireReply::ok_empty(),
        }
    }
}

fn join_failures(f: &Vec<(String, String)>) -> (r: String)
    ensures
        r@ == failures_text(failures_view(f@)),
{
    let ghost all = failures_view(f@);
    let mut out = String::new();
    let mut i: usize = 0;
    assert(all.take(0) =~= Seq::empty());
    while i < f.len()
        invariant
            i <= f@.len(),
            all == failures_view(f@),
            out@ == failures_text(all.take(i as int)),
        decreases f@.len() - i,
    {
        proof {
            let next = all.take(i + 1);
            assert(next.drop_last() =~= all.take(i as int));
            assert(next.last() == (f@[i as int].0@, f@[i as int].1@));
        }
        let ghost before = out@;
        if i > 0 {
            out.push_str("; ");
        }
        out.push_str(f[i].0.as_str());
        out.push_str(": ");
        out.push_str(f[i].1.as_str());
        proof {
            let last = all[i as int].0 + ": "@ + all[i as int].1;
            if i > 0 {
                assert(out@ =~= before + "; "@ + last);
            } else {
                assert(out@ =~= last);
            }
        }
        i += 1;
    }
    assert(all.take(i as int) =~= all);
    out
}

// -------------------------------------------------------------------- laws

/// Every result settles exactly one outstanding output until none is left, and
/// a failure is never lost: its reason is on the list afterwards.
pub proof fn law_each_result_settles_one(
    p: PendingSpec,
    output: Seq<char>,
    error: Option<Seq<char>>,
)
    requires
        p.outstanding.len() > 0,
        p.outstanding.no_duplicates(),
    ensures
        drained(p, output, error).outstanding.len() == p.outstanding.len() - 1,
        drained(p, output, error).outstanding.no_duplicates(),
        !drained(p, output, error).outstanding.contains(output),
        error is Some ==> drained(p, output, error).failures.len() == p.failures.len() + 1
            && drained(p, output, error).failures.last().1 == error->0,
        error is Some && p.outstanding.contains(output) ==> drained(
            p,
            output,
            error,
        ).failures.last().0 == output,
        error is None ==> drained(p, output, error).failures == p.failures,
        drained(p, output, error).client == p.client,
{
    let i = settled_by(p.outstanding, output);
    let rest = p.outstanding.remove(i);
    if p.outstanding.contains(output) {
        assert(p.outstanding[p.outstanding.index_of(output)] == output);
    }
    assert forall|a: int, b: int| 0 <= a < b < rest.len() implies rest[a] != rest[b] by {
        let x = if a < i { a } else { a + 1 };
        let y = if b < i { b } else { b + 1 };
        assert(p.outstanding[x] != p.outstanding[y]);
    }
    if rest.contains(output) {
        let k = rest.index_of(output);
        let x = if k < i { k } else { k + 1 };
        assert(p.outstanding[x] == output);
        assert(p.outstanding.contains(output));
        assert(false);
    }
}

/// The client hears of success only if no job failed, and every failure is
/// named in what it hears otherwise.
pub proof fn law_answer_reports_failures(p: PendingSpec)
    ensures
        answer(p).ok <==> p.failures.len() == 0,
        !answer(p).ok ==> answer(p).error == Some(failures_text(p.failures)),
{
}

/// The text of the failures names each output and its reason, in the order in
/// which they came: the first alone, and every other after a semicolon.
pub proof fn law_failures_are_listed_in_order(
    f: Seq<(Seq<char>, Seq<char>)>,
    output: Seq<char>,
    reason: Seq<char>,
)
    ensures
        f.len() == 0 ==> failures_text(f.push((output, reason))) == output + ": "@ + reason,
        f.len() > 0 ==> failures_text(f.push((output, reason))) == failures_text(f) + "; "@
            + output + ": "@ + reason,
{
    let all = f.push((output, reason));
    assert(all.drop_last() =~= f);
    assert(all.last() == (output, reason));
    if f.len() > 0 {
        assert(failures_text(f) + "; "@ + (output + ": "@ + reason) =~= failures_text(f) + "; "@
            + output + ": "@ + reason);
    }
}

/// A result leaves what the other outputs owe, and everything else about the
/// `set`, as it was; one that comes too late changes nothing.
pub proof fn law_results_leave_the_others_owed(
    p: PendingSpec,
    output: Seq<char>,
    error: Option<Seq<char>>,
    other: Seq<char>,
)
    requires
        p.outstanding.no_duplicates(),
        p.outstanding.contains(output) || p.outstanding.len() == 0,
    ensures
        drained(p, output, error).outstanding.contains(other) <==> p.outstanding.contains(other)
            && other != output,
        p.outstanding.len() == 0 ==> drained(p, output, error) == p,
        drained(p, output, error).note == p.note,
        drained(p, output, error).client == p.client,
        p.failures.is_prefix_of(drained(p, output, error).failures),
{
    if p.outstanding.len() > 0 {
        law_each_result_settles_one(p, output, error);
        let i = p.outstanding.index_of(output);
        let rest = p.outstanding.remove(i);
        if p.outstanding.contains(other) && other != output {
            let k = p.outstanding.index_of(other);
            assert(rest[if k < i {
                k
            } else {
                k - 1
            }] == other);
        }
        if rest.contains(other) {
            let k = rest.index_of(other);
            assert(p.outstanding[if k < i {
                k
            } else {
                k + 1
            }] == other);
        }
    }
}

/// The client is answered once it is known and nothing is owed: with every
/// failure if there was one, else with success, and with the note if there is
/// one.
pub proof fn law_what_the_client_is_told(p: PendingSpec)
    ensures
        ready(p) <==> p.client is Some && p.outstanding.len() == 0,
        p.failures.len() > 0 ==> !answer(p).ok && answer(p).data is None && answer(p).error == Some(
            failures_text(p.failures),
        ),
        p.failures.len() == 0 ==> answer(p).ok && answer(p).error is None,
        p.failures.len() == 0 && p.note is None ==> answer(p).data is None,
        p.failures.len() == 0 && p.note is Some ==> answer(p).data == Some(
            proto::DataSpec::Note(p.note->0),
        ),
{
}

/// A `set` of which nothing has reported waits for each of its outputs, for a
/// client that is not known yet.
pub proof fn law_fresh_set_owes_everything(names: Seq<Seq<char>>)
    ensures
        fresh(names).outstanding == names,
        fresh(names).failures.len() == 0,
        fresh(names).client is None,
        fresh(names).note is None,
{
}

/// Adding a name once adds that name, and keeps the others where they were.
pub proof fn law_adding_once(names: Seq<Seq<char>>, name: Seq<char>)
    ensures
        pushed_once(names, name).contains(name),
        names.is_prefix_of(pushed_once(names, name)),
        pushed_once(names, name).len() == names.len() + (if names.contains(name) {
            0int
        } else {
            1int
        }),
{
    if !names.contains(name) {
        assert(names.push(name)[names.len() as int] == name);
    }
}

/// A result for an output that is not waited for stands in for the one that is
/// waited for longest, under whose name a failure is told.
pub proof fn law_stray_results_settle_the_first(
    p: PendingSpec,
    output: Seq<char>,
    error: Option<Seq<char>>,
)
    requires
        p.outstanding.len() > 0,
        !p.outstanding.contains(output),
    ensures
        drained(p, output, error).outstanding == p.outstanding.skip(1),
        error matches Some(e) ==> drained(p, output, error).failures == p.failures + seq![
            (p.outstanding[0], e),
        ],
{
    assert(p.outstanding.remove(0) =~= p.outstanding.skip(1));
    if let Some(e) = error {
        assert(p.failures.push((p.outstanding[0], e)) =~= p.failures + seq![
            (p.outstanding[0], e),
        ]);
    }
}

} // verus!
