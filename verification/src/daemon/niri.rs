//! niri's event stream: the handshake that opens it, the one event of interest,
//! and how long to wait before trying again.
//!
//! niri replays its full state on every connect, so the first overview event
//! after connecting brings the daemon up to date; there is no separate query.

use vstd::prelude::*;

use crate::text;
use crate::text::{quote, trim};

verus! {

/// The first wait before reconnecting, in milliseconds.
pub const BACKOFF_MIN_MS: u32 = 250;

/// The longest wait before reconnecting, in milliseconds.
pub const BACKOFF_MAX_MS: u32 = 5000;

/// A reply line to the request for the event stream.
#[derive(Debug, PartialEq, Eq)]
pub enum StreamReply {
    /// The stream follows.
    Handled,
    /// Some other successful response, as text.
    Other(String),
    /// niri's error message.
    Rejected(String),
    /// Not a reply at all; why.
    Malformed(String),
}

/// Why the event stream did not open.
#[derive(Debug, PartialEq, Eq)]
pub enum HandshakeError {
    /// A response of another kind, as text.
    Unexpected(String),
    /// niri's error message.
    Rejected(String),
    /// A line that is not a reply, and why it is not.
    Malformed { line: String, cause: String },
}

// ------------------------------------------------------------------- model

/// The kinds of reply to a request for the event stream.
pub ghost enum ReplyKind {
    Handled,
    Other,
    Rejected(Seq<char>),
    Malformed(Seq<char>),
}

impl StreamReply {
    /// The reply without the text that describes another response.
    pub open spec fn kind(self) -> ReplyKind {
        match self {
            StreamReply::Handled => ReplyKind::Handled,
            StreamReply::Other(_) => ReplyKind::Other,
            StreamReply::Rejected(m) => ReplyKind::Rejected(m@),
            StreamReply::Malformed(cause) => ReplyKind::Malformed(cause@),
        }
    }
}

/// A handshake error as a message.
pub open spec fn error_text(e: HandshakeError) -> Seq<char> {
    match e {
        HandshakeError::Unexpected(t) => "unexpected EventStream response: "@ + t@,
        HandshakeError::Rejected(m) => "niri rejected EventStream: "@ + m@,
        HandshakeError::Malformed { line, cause } => "bad EventStream reply "@ + text::quoted(line@)
            + ": "@ + cause@,
    }
}

/// What `serde_json::from_str` reads from a line as a `niri_ipc::Reply`; for a
/// line that is none, with the text of the parse error.
pub uninterp spec fn reply_of_line(line: Seq<char>) -> ReplyKind;

/// The overview state in what `serde_json::from_slice` reads from a line as a
/// `niri_ipc::Event`; none if it is another event, or none at all.
pub uninterp spec fn overview_of_line(line: Seq<u8>) -> Option<bool>;

/// The overview state that a parsed event announces.
pub open spec fn announced(event: Option<Option<bool>>) -> Option<bool> {
    match event {
        Some(open) => open,
        None => None,
    }
}

/// The wait after a wait of `ms`.
pub open spec fn backed_off(ms: nat) -> nat {
    if ms * 2 <= BACKOFF_MAX_MS {
        ms * 2
    } else {
        BACKOFF_MAX_MS as nat
    }
}

/// The wait after `failures` failed attempts in a row.
pub open spec fn backoff_after(failures: nat) -> nat
    decreases failures,
{
    if failures == 0 {
        BACKOFF_MIN_MS as nat
    } else {
        backed_off(backoff_after((failures - 1) as nat))
    }
}

// -------------------------------------------------------------------- code

/// `serde_json::from_str` into a `niri_ipc::Reply`: the one response that opens
/// the stream, another response, niri's refusal, or a parse error with its text.
/// The text of another response is not stated: it only describes the response,
/// and lists what is in its hash maps in no fixed order.
#[verifier::external_body]
fn parse_reply(line: &str) -> (r: StreamReply)
    ensures
        r.kind() == reply_of_line(line@),
{
    match serde_json::from_str::<niri_ipc::Reply>(line) {
        Ok(Ok(niri_ipc::Response::Handled)) => StreamReply::Handled,
        Ok(Ok(other)) => StreamReply::Other(format!("{other:?}")),
        Ok(Err(message)) => StreamReply::Rejected(message),
        Err(e) => StreamReply::Malformed(e.to_string()),
    }
}

/// `serde_json::from_slice` into a `niri_ipc::Event`: the overview state if the
/// event is about that, nothing if it is about something else, and no event at
/// all on a parse error. Only the overview state is stated.
#[verifier::external_body]
fn parse_event(line: &[u8]) -> (r: Option<Option<bool>>)
    ensures
        announced(r) == overview_of_line(line@),
{
    match serde_json::from_slice::<niri_ipc::Event>(line) {
        Ok(niri_ipc::Event::OverviewOpenedOrClosed { is_open }) => Some(Some(is_open)),
        Ok(_) => Some(None),
        Err(_) => None,
    }
}

/// `serde_json::to_string` of `niri_ipc::Request::EventStream`: a unit variant
/// is written as its name in double quotes.
#[verifier::external_body]
fn encode_event_stream() -> (r: String)
    ensures
        r@ == "\"EventStream\""@,
{
    serde_json::to_string(&niri_ipc::Request::EventStream).expect("a unit variant serializes")
}

/// The line that asks niri for its event stream.
pub fn event_stream_request() -> (r: String)
    ensures
        r@ == "\"EventStream\""@ + "\n"@,
{
    let mut line = encode_event_stream();
    line.push_str("\n");
    line
}

impl HandshakeError {
    /// The error as a message.
    pub fn to_string(&self) -> (r: String)
        ensures
            r@ == error_text(*self),
    {
        match self {
            HandshakeError::Unexpected(t) => {
                let mut m = "unexpected EventStream response: ".to_string();
                m.push_str(t.as_str());
                m
            },
            HandshakeError::Rejected(message) => {
                let mut m = "niri rejected EventStream: ".to_string();
                m.push_str(message.as_str());
                m
            },
            HandshakeError::Malformed { line, cause } => {
                let mut m = "bad EventStream reply ".to_string();
                m.push_str(quote(line.as_str()).as_str());
                m.push_str(": ");
                m.push_str(cause.as_str());
                m
            },
        }
    }
}

/// Whether `reply`, read from `line`, opens the event stream.
pub fn judge_handshake(line: &str, reply: StreamReply) -> (r: Result<(), HandshakeError>)
    ensures
        match r {
            Ok(()) => reply is Handled,
            Err(HandshakeError::Unexpected(t)) => reply == StreamReply::Other(t),
            Err(HandshakeError::Rejected(m)) => reply == StreamReply::Rejected(m),
            Err(HandshakeError::Malformed { line: l, cause }) => {
                &&& reply == StreamReply::Malformed(cause)
                &&& l@ == line@
            },
        },
{
    match reply {
        StreamReply::Handled => Ok(()),
        StreamReply::Other(t) => Err(HandshakeError::Unexpected(t)),
        StreamReply::Rejected(m) => Err(HandshakeError::Rejected(m)),
        StreamReply::Malformed(cause) => Err(
            HandshakeError::Malformed { line: line.to_string(), cause },
        ),
    }
}

/// Validate the reply line to the request for the event stream. White space
/// around it is ignored.
pub fn check_handshake(line: &str) -> (r: Result<(), HandshakeError>)
    ensures
        match r {
            Ok(()) => reply_of_line(text::trimmed(line@)) == ReplyKind::Handled,
            Err(HandshakeError::Unexpected(_)) => reply_of_line(text::trimmed(line@))
                == ReplyKind::Other,
            Err(HandshakeError::Rejected(m)) => reply_of_line(text::trimmed(line@))
                == ReplyKind::Rejected(m@),
            Err(HandshakeError::Malformed { line: l, cause }) => {
                &&& reply_of_line(text::trimmed(line@)) == ReplyKind::Malformed(cause@)
                &&& l@ == line@
            },
        },
{
    let reply = parse_reply(trim(line).as_str());
    judge_handshake(line, reply)
}

/// The overview state that a parsed event announces, if it does.
pub fn overview_from_event(event: Option<Option<bool>>) -> (r: Option<bool>)
    ensures
        r == announced(event),
{
    match event {
        Some(open) => open,
        None => None,
    }
}

/// `Some(is_open)` when `line` is an overview event; `None` for any other event
/// or for something that is none.
pub fn overview_from_line(line: &[u8]) -> (r: Option<bool>)
    ensures
        r == overview_of_line(line@),
{
    overview_from_event(parse_event(line))
}

/// The wait after a wait of `ms`: twice as long, up to a cap.
pub fn next_backoff(ms: u32) -> (r: u32)
    ensures
        r == backed_off(ms as nat),
        r <= BACKOFF_MAX_MS,
        ms >= BACKOFF_MIN_MS ==> r >= BACKOFF_MIN_MS,
{
    if ms <= BACKOFF_MAX_MS / 2 {
        ms * 2
    } else {
        BACKOFF_MAX_MS
    }
}

// -------------------------------------------------------------------- laws

/// The waits start at the floor, never shrink while attempts fail, and never
/// exceed the cap.
pub proof fn law_backoff_grows_to_the_cap(failures: nat)
    ensures
        BACKOFF_MIN_MS <= backoff_after(failures) <= BACKOFF_MAX_MS,
        backoff_after(failures) <= backoff_after(failures + 1),
    decreases failures,
{
    if failures > 0 {
        law_backoff_grows_to_the_cap((failures - 1) as nat);
    }
}

/// Until the cap is reached each wait is twice the one before, and once it is
/// reached the wait stays there.
pub proof fn law_backoff_doubles(failures: nat)
    ensures
        backoff_after(failures + 1) < BACKOFF_MAX_MS ==> backoff_after(failures + 1) == 2
            * backoff_after(failures),
        backoff_after(failures) == BACKOFF_MAX_MS ==> backoff_after(failures + 1)
            == BACKOFF_MAX_MS,
        failures >= 5 ==> backoff_after(failures) == BACKOFF_MAX_MS,
    decreases failures,
{
    law_backoff_grows_to_the_cap(failures);
    if failures > 5 {
        law_backoff_doubles((failures - 1) as nat);
    } else {
        reveal_with_fuel(backoff_after, 7);
    }
}

/// The wait after so many failures is a quarter of a second doubled as often, and
/// five seconds at most.
pub proof fn law_waits_are_powers_of_two(failures: nat)
    ensures
        backoff_after(failures) == (if 250 * vstd::arithmetic::power2::pow2(failures) <= 5_000 {
            250 * vstd::arithmetic::power2::pow2(failures)
        } else {
            5_000
        }),
    decreases failures,
{
    if failures == 0 {
        vstd::arithmetic::power2::lemma2_to64();
    } else {
        law_waits_are_powers_of_two((failures - 1) as nat);
        vstd::arithmetic::power2::lemma_pow2_unfold(failures);
    }
}

/// Only an event about the overview announces a state, and it announces its own.
pub proof fn law_only_overview_events_announce(open: bool)
    ensures
        announced(Some(Some(open))) == Some(open),
        announced(Some(None)) is None,
        announced(None) is None,
{
}

/// A failed handshake is told by what niri said: the other response, its reason
/// for refusing, or the line it sent, quoted, and why that is no reply.
pub proof fn law_handshake_errors_tell_the_reason(e: HandshakeError)
    ensures
        match e {
            HandshakeError::Unexpected(t) => t@.is_suffix_of(error_text(e)),
            HandshakeError::Rejected(m) => m@.is_suffix_of(error_text(e)),
            HandshakeError::Malformed { line, cause } => (text::quoted(line@) + ": "@
                + cause@).is_suffix_of(error_text(e)),
        },
{
    let all = error_text(e);
    match e {
        HandshakeError::Unexpected(t) => {
            assert(all.skip(all.len() - t@.len()) =~= t@);
        },
        HandshakeError::Rejected(m) => {
            assert(all.skip(all.len() - m@.len()) =~= m@);
        },
        HandshakeError::Malformed { line, cause } => {
            let tail = text::quoted(line@) + ": "@ + cause@;
            assert(all.skip(all.len() - tail.len()) =~= tail);
        },
    }
}

} // verus!
