//! Taking over the control socket when the daemon starts.

use vstd::prelude::*;

verus! {

/// How long a replaced daemon may take to let go, in milliseconds.
pub const RELEASE_TIMEOUT_MS: u64 = 3000;

/// How long to wait before looking again, in milliseconds.
pub const RELEASE_POLL_MS: u64 = 25;

/// What to do about what is at the socket path.
#[derive(Debug, Clone, Copy, PartialEq, Eq, Structural)]
pub enum Takeover {
    /// A daemon answers there: leave it alone.
    Refuse,
    /// A daemon answers there: ask it to quit and wait for it to let go.
    Replace,
    /// Nothing answers: remove what is there.
    Clear,
}

/// What to do while waiting for a daemon to let go.
#[derive(Debug, Clone, Copy, PartialEq, Eq, Structural)]
pub enum Wait {
    /// It has let go.
    Over,
    /// It has not, and the time is up.
    TimedOut,
    /// Look again a little later.
    Again,
}

// ------------------------------------------------------------------- model

/// What to do about what is at the socket path.
pub open spec fn decision(answered: bool, replace: bool) -> Takeover {
    if !answered {
        Takeover::Clear
    } else if replace {
        Takeover::Replace
    } else {
        Takeover::Refuse
    }
}

/// What to do while waiting for a daemon to let go.
pub open spec fn waiting(bound: bool, waited_ms: u64) -> Wait {
    if !bound {
        Wait::Over
    } else if waited_ms >= RELEASE_TIMEOUT_MS {
        Wait::TimedOut
    } else {
        Wait::Again
    }
}

// -------------------------------------------------------------------- code

/// What to do about what is at the socket path, given whether a daemon answered
/// there.
pub fn takeover(answered: bool, replace: bool) -> (r: Takeover)
    ensures
        r == if !answered {
            Takeover::Clear
        } else if replace {
            Takeover::Replace
        } else {
            Takeover::Refuse
        },
        r == decision(answered, replace),
{
    if !answered {
        Takeover::Clear
    } else if replace {
        Takeover::Replace
    } else {
        Takeover::Refuse
    }
}

/// What to do while waiting for a daemon to let go, given whether the socket is
/// still bound `waited_ms` after it was asked to.
pub fn release_step(bound: bool, waited_ms: u64) -> (r: Wait)
    ensures
        r == if !bound {
            Wait::Over
        } else if waited_ms >= RELEASE_TIMEOUT_MS {
            Wait::TimedOut
        } else {
            Wait::Again
        },
        r == waiting(bound, waited_ms),
{
    if !bound {
        Wait::Over
    } else if waited_ms >= RELEASE_TIMEOUT_MS {
        Wait::TimedOut
    } else {
        Wait::Again
    }
}

/// What to tell a user who starts a second daemon.
pub fn already_listening(version: &str, socket: &str) -> (r: String)
    ensures
        r@ == "a niribg daemon (version "@ + version@ + ") is already listening on "@ + socket@
            + "; pass --replace to take over"@,
{
    let mut out = "a niribg daemon (version ".to_string();
    out.push_str(version);
    out.push_str(") is already listening on ");
    out.push_str(socket);
    out.push_str("; pass --replace to take over");
    out
}

/// What to tell a user whose old daemon does not let go.
pub fn release_timed_out(socket: &str) -> (r: String)
    ensures
        r@ == "timed out waiting for the previous daemon to release "@ + socket@,
{
    let mut out = "timed out waiting for the previous daemon to release ".to_string();
    out.push_str(socket);
    out
}

// -------------------------------------------------------------------- laws

/// A daemon that answers is never cleared away and gives way only to one that
/// was told to take over; what does not answer is cleared away.
pub proof fn law_only_told_daemons_take_over(answered: bool, replace: bool)
    ensures
        decision(answered, replace) is Clear <==> !answered,
        decision(answered, replace) is Replace <==> answered && replace,
        decision(answered, replace) is Refuse <==> answered && !replace,
{
}

/// Waiting is over as soon as the socket is free, however late, and is given up
/// after three seconds exactly.
pub proof fn law_waiting_ends(bound: bool, waited_ms: u64)
    ensures
        waiting(bound, waited_ms) is Over <==> !bound,
        waiting(bound, waited_ms) is TimedOut <==> bound && waited_ms >= 3_000,
        waiting(bound, waited_ms) is Again <==> bound && waited_ms < 3_000,
{
}

} // verus!
