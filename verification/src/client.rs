//! The client's side of the control protocol: what to make of a reply.

use vstd::prelude::*;

use crate::proto;
use crate::proto::{ReplyData, WireReply};

verus! {

/// How long the client waits for the daemon to answer, in milliseconds.
pub const TIMEOUT_MS: u64 = 5000;

/// Why a version probe failed although something answered.
#[derive(Debug, Clone, Copy, PartialEq, Eq, Structural)]
pub enum ProbeError {
    /// The daemon reported failure, or sent nothing.
    Rejected,
    /// The daemon sent something that is no version.
    Undecodable,
}

// ------------------------------------------------------------------- model

/// What a reply amounts to: its payload, or why there is none.
pub open spec fn outcome(r: proto::ReplySpec) -> Result<Option<proto::DataSpec>, Seq<char>> {
    if r.ok {
        Ok(r.data)
    } else {
        match r.error {
            Some(e) => Err(e),
            None => Err("daemon reported failure"@),
        }
    }
}

/// The version in the reply to a version probe.
pub open spec fn probed(r: proto::ReplySpec) -> Result<Seq<char>, ProbeError> {
    if !r.ok || r.data is None {
        Err(ProbeError::Rejected)
    } else {
        match r.data->0 {
            proto::DataSpec::Version(v) => Ok(v),
            _ => Err(ProbeError::Undecodable),
        }
    }
}

/// The payload of a finished exchange, over sequences.
pub open spec fn finished_view(r: Result<Option<ReplyData>, String>) -> Result<
    Option<proto::DataSpec>,
    Seq<char>,
> {
    match r {
        Ok(Some(d)) => Ok(Some(d@)),
        Ok(None) => Ok(None),
        Err(e) => Err(e@),
    }
}

// -------------------------------------------------------------------- code

/// What a reply amounts to: its payload, or why there is none.
pub fn finish(reply: WireReply) -> (r: Result<Option<ReplyData>, String>)
    ensures
        finished_view(r) == outcome(reply@),
{
    if reply.ok {
        Ok(reply.data)
    } else {
        match reply.error {
            Some(e) => Err(e),
            None => Err("daemon reported failure".to_string()),
        }
    }
}

/// The version of the daemon that sent `reply` to a version probe.
pub fn probe(reply: WireReply) -> (r: Result<String, ProbeError>)
    ensures
        match r {
            Ok(v) => probed(reply@) == Ok::<Seq<char>, ProbeError>(v@),
            Err(e) => probed(reply@) == Err::<Seq<char>, ProbeError>(e),
        },
{
    if !reply.ok {
        return Err(ProbeError::Rejected);
    }
    match reply.data {
        None => Err(ProbeError::Rejected),
        Some(ReplyData::Version(info)) => Ok(info.version),
        Some(_) => Err(ProbeError::Undecodable),
    }
}

/// What to tell a user whose command found no daemon.
pub fn not_running(socket: &str) -> (r: String)
    ensures
        r@ == "niribg daemon is not running (no socket at "@ + socket@
            + "); start it with `niribg daemon`"@,
{
    let mut out = "niribg daemon is not running (no socket at ".to_string();
    out.push_str(socket);
    out.push_str("); start it with `niribg daemon`");
    out
}

// -------------------------------------------------------------------- laws

/// Success and failure travel unchanged: a payload that the daemon sends is what
/// the client gets, and so is an error message.
pub proof fn law_replies_arrive_as_sent(data: proto::DataSpec, message: Seq<char>)
    ensures
        outcome(proto::succeeded(data)) == Ok::<Option<proto::DataSpec>, Seq<char>>(Some(data)),
        outcome(proto::acknowledged()) == Ok::<Option<proto::DataSpec>, Seq<char>>(None),
        outcome(proto::refused(message)) == Err::<Option<proto::DataSpec>, Seq<char>>(message),
{
}

/// A version probe sees the version that the daemon reports, and takes nothing
/// else for one.
pub proof fn law_probe_sees_the_version(version: Seq<char>, message: Seq<char>)
    ensures
        probed(proto::succeeded(proto::DataSpec::Version(version))) == Ok::<Seq<char>, ProbeError>(
            version,
        ),
        probed(proto::acknowledged()) is Err,
        probed(proto::refused(message)) is Err,
{
}

/// The client succeeds exactly if the daemon says so, with the payload that it
/// sent; a failure carries the daemon's reason, or one of the client's own if
/// the daemon gave none.
pub proof fn law_success_is_the_daemons_to_say(r: proto::ReplySpec)
    ensures
        outcome(r) is Ok <==> r.ok,
        r.ok ==> outcome(r)->Ok_0 == r.data,
        !r.ok && r.error is Some ==> outcome(r)->Err_0 == r.error->0,
        !r.ok && r.error is None ==> outcome(r)->Err_0 == "daemon reported failure"@,
{
}

/// A probe finds a version exactly if the daemon answered with one. A refusal and
/// an empty answer are told apart from an answer to something else.
pub proof fn law_which_probes_succeed(r: proto::ReplySpec)
    ensures
        probed(r) is Ok <==> r.ok && r.data is Some && r.data->0 is Version,
        probed(r) matches Ok(v) ==> r.data == Some(proto::DataSpec::Version(v)),
        probed(r) == Err::<Seq<char>, ProbeError>(ProbeError::Rejected) <==> !r.ok || r.data is None,
{
}

} // verus!
