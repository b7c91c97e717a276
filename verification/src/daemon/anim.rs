//! Timed easing for the crossfade. Timing only: interruption is the caller
//! replacing the whole transition.
//!
//! Progress is a fixed-point number, in units of `1 / ONE`. Times are
//! nanoseconds on a monotonic clock that the caller reads.

use vstd::prelude::*;

verus! {

/// Complete progress: fixed-point 1.0.
pub const ONE: u32 = 0x100_0000;

/// Which cubic curve [`Anim::eased`] applies to its linear progress.
#[derive(Debug, Clone, Copy, PartialEq, Eq, Structural)]
pub enum Ease {
    /// `1 - (1 - p)^3`: fast start, gentle settle.
    Out,
    /// `p^3`: gentle start, fast finish, the mirror of [`Ease::Out`].
    In,
}

/// A cubic ramp from 0 to 1 over `duration`, starting at `start`.
#[derive(Debug, Clone, Copy, PartialEq, Eq, Structural)]
pub struct Anim {
    pub start: u64,
    pub duration: u64,
    pub ease: Ease,
}

// ------------------------------------------------------------------- model

/// Linear progress after `elapsed` of `duration`.
pub open spec fn linear(elapsed: nat, duration: nat) -> nat {
    if duration == 0 || elapsed >= duration {
        ONE as nat
    } else {
        elapsed * (ONE as nat) / duration
    }
}

/// The cube of a fixed-point number, rounded down.
pub open spec fn cubed(p: nat) -> nat {
    p * p * p / ((ONE as nat) * (ONE as nat))
}

/// The curve `ease` at linear progress `p`.
pub open spec fn curve(ease: Ease, p: nat) -> nat {
    match ease {
        Ease::Out => (ONE - cubed((ONE - p) as nat)) as nat,
        Ease::In => cubed(p),
    }
}

impl Anim {
    /// Time since the start; none before it.
    pub open spec fn elapsed(self, now: u64) -> nat {
        if now >= self.start {
            (now - self.start) as nat
        } else {
            0
        }
    }

    /// Linear progress at `now`.
    pub open spec fn progress_at(self, now: u64) -> nat {
        linear(self.elapsed(now), self.duration as nat)
    }

    /// Eased progress at `now`.
    pub open spec fn eased_at(self, now: u64) -> nat {
        curve(self.ease, self.progress_at(now))
    }
}

// -------------------------------------------------------------------- code

proof fn lemma_linear_bound(elapsed: nat, duration: nat)
    ensures
        linear(elapsed, duration) <= ONE,
        linear(elapsed, duration) == ONE <==> duration == 0 || elapsed >= duration,
        duration > 0 ==> (linear(0, duration) == 0),
{
    if duration > 0 && elapsed < duration {
        assert(elapsed * (ONE as nat) / duration < ONE as nat) by (nonlinear_arith)
            requires
                elapsed < duration,
                ONE > 0,
        ;
    }
    if duration > 0 {
        assert(0nat * (ONE as nat) / duration == 0) by (nonlinear_arith)
            requires
                duration > 0,
        ;
    }
}

proof fn lemma_cubed_bound(p: nat)
    requires
        p <= ONE,
    ensures
        cubed(p) <= p,
        p * p * p <= (ONE as nat) * (ONE as nat) * p,
{
    assert(p * p <= (ONE as nat) * (ONE as nat)) by (nonlinear_arith)
        requires
            p <= ONE,
    ;
    assert(p * p * p <= (ONE as nat) * (ONE as nat) * p) by (nonlinear_arith)
        requires
            p * p <= (ONE as nat) * (ONE as nat),
    ;
    assert(p * p * p / ((ONE as nat) * (ONE as nat)) <= p) by (nonlinear_arith)
        requires
            p * p * p <= (ONE as nat) * (ONE as nat) * p,
            ONE == 0x100_0000,
    ;
}

proof fn lemma_cubed_ends()
    ensures
        cubed(0) == 0,
        cubed(ONE as nat) == ONE,
{
    assert(0nat * 0nat * 0nat == 0);
    assert(0x100_0000 * 0x100_0000 * 0x100_0000 / (0x100_0000 * 0x100_0000) == 0x100_0000)
        by (nonlinear_arith);
}

/// [`cubed`] on machine integers.
fn cube(p: u32) -> (r: u32)
    requires
        p <= ONE,
    ensures
        r == cubed(p as nat),
        r <= p,
{
    proof {
        lemma_cubed_bound(p as nat);
    }
    let q: u128 = p as u128;
    assert(q * q <= 0x100_0000 * 0x100_0000) by (nonlinear_arith)
        requires
            q <= 0x100_0000,
    ;
    assert(q * q * q <= 0x100_0000 * 0x100_0000 * 0x100_0000) by (nonlinear_arith)
        requires
            q * q <= 0x100_0000 * 0x100_0000,
            q <= 0x100_0000,
    ;
    let c: u128 = q * q * q / 0x1_0000_0000_0000;
    c as u32
}

impl Anim {
    /// A ramp of `duration` that starts at `now`.
    #[must_use]
    pub fn new(now: u64, duration: u64, ease: Ease) -> (r: Anim)
        ensures
            r == (Anim { start: now, duration, ease }),
    {
        Anim { start: now, duration, ease }
    }

    /// Linear progress at `now`, from 0 to [`ONE`]. A zero-length animation is
    /// already complete.
    #[must_use]
    pub fn progress(&self, now: u64) -> (r: u32)
        ensures
            r == self.progress_at(now),
            r <= ONE,
    {
        let elapsed: u64 = if now >= self.start {
            now - self.start
        } else {
            0
        };
        proof {
            lemma_linear_bound(elapsed as nat, self.duration as nat);
        }
        if self.duration == 0 || elapsed >= self.duration {
            return ONE;
        }
        let p: u128 = elapsed as u128 * ONE as u128 / self.duration as u128;
        p as u32
    }

    /// Eased progress at `now`: the cubic named by [`Ease`], exact at both ends.
    #[must_use]
    pub fn eased(&self, now: u64) -> (r: u32)
        ensures
            r == self.eased_at(now),
            r <= ONE,
    {
        let p = self.progress(now);
        match self.ease {
            Ease::Out => ONE - cube(ONE - p),
            Ease::In => cube(p),
        }
    }

    /// Whether the animation has run its length.
    #[must_use]
    pub fn done(&self, now: u64) -> (r: bool)
        ensures
            r == (self.progress_at(now) == ONE),
            r == (self.duration == 0 || self.elapsed(now) >= self.duration),
    {
        proof {
            lemma_linear_bound(self.elapsed(now), self.duration as nat);
        }
        self.progress(now) >= ONE
    }
}

// -------------------------------------------------------------------- laws

/// A fresh animation of some length is at zero, linear and eased.
pub proof fn law_starts_at_zero(a: Anim)
    requires
        a.duration > 0,
    ensures
        a.progress_at(a.start) == 0,
        a.eased_at(a.start) == 0,
{
    lemma_linear_bound(0, a.duration as nat);
    lemma_cubed_ends();
}

/// From its end on, and at once if it has no length, an animation is at one.
pub proof fn law_ends_at_one(a: Anim, now: u64)
    requires
        a.elapsed(now) >= a.duration,
    ensures
        a.progress_at(now) == ONE,
        a.eased_at(now) == ONE,
{
    lemma_cubed_ends();
}

/// The two curves mirror each other: one played forward is the other played
/// backward.
pub proof fn law_curves_mirror(p: nat)
    requires
        p <= ONE,
    ensures
        curve(Ease::In, p) == ONE - curve(Ease::Out, (ONE - p) as nat),
        curve(Ease::Out, p) == ONE - curve(Ease::In, (ONE - p) as nat),
{
    lemma_cubed_bound(p);
    lemma_cubed_bound((ONE - p) as nat);
}

/// Both curves stay between 0 and 1; easing out runs ahead of linear progress
/// and easing in behind it.
pub proof fn law_out_leads_in_trails(p: nat)
    requires
        p <= ONE,
    ensures
        curve(Ease::In, p) <= p <= curve(Ease::Out, p) <= ONE,
{
    lemma_cubed_bound(p);
    lemma_cubed_bound((ONE - p) as nat);
}

proof fn lemma_cubed_monotonic(p: nat, q: nat)
    requires
        p <= q,
    ensures
        cubed(p) <= cubed(q),
{
    assert(p * p <= q * q) by (nonlinear_arith)
        requires
            p <= q,
    ;
    assert(p * p * p <= q * q * q) by (nonlinear_arith)
        requires
            p * p <= q * q,
            p <= q,
    ;
    vstd::arithmetic::div_mod::lemma_div_is_ordered(
        (p * p * p) as int,
        (q * q * q) as int,
        ((ONE as nat) * (ONE as nat)) as int,
    );
}

/// Progress never goes back, whichever the curve.
pub proof fn law_eased_is_monotonic(a: Anim, t1: u64, t2: u64)
    requires
        t1 <= t2,
    ensures
        a.progress_at(t1) <= a.progress_at(t2) <= ONE,
        a.eased_at(t1) <= a.eased_at(t2) <= ONE,
{
    let e1 = a.elapsed(t1);
    let e2 = a.elapsed(t2);
    let d = a.duration as nat;
    lemma_linear_bound(e1, d);
    lemma_linear_bound(e2, d);
    if d > 0 && e2 < d {
        assert(e1 * (ONE as nat) <= e2 * (ONE as nat)) by (nonlinear_arith)
            requires
                e1 <= e2,
        ;
        vstd::arithmetic::div_mod::lemma_div_is_ordered(
            (e1 * (ONE as nat)) as int,
            (e2 * (ONE as nat)) as int,
            d as int,
        );
    }
    let p1 = a.progress_at(t1);
    let p2 = a.progress_at(t2);
    lemma_cubed_monotonic(p1, p2);
    lemma_cubed_monotonic((ONE - p2) as nat, (ONE - p1) as nat);
    lemma_cubed_bound(p2);
    lemma_cubed_bound((ONE - p1) as nat);
}

/// Progress is in proportion to the time that has run, rounded down, and nothing
/// before the start; it is complete exactly once the whole duration has run.
pub proof fn law_progress_is_linear(a: Anim, now: u64)
    requires
        a.duration > 0,
    ensures
        ({
            let p = a.progress_at(now);
            let run: int = if now >= a.start {
                now - a.start
            } else {
                0
            };
            &&& run < a.duration ==> p * a.duration <= run * 0x100_0000 < (p + 1) * a.duration
            &&& p == 0x100_0000 <==> run >= a.duration
            &&& now <= a.start ==> p == 0
        }),
{
    let run = a.elapsed(now);
    let d = a.duration as nat;
    lemma_linear_bound(run, d);
    if run < d {
        let n = run * (ONE as nat);
        vstd::arithmetic::div_mod::lemma_fundamental_div_mod(n as int, d as int);
        let q = n / d;
        assert(d * q == q * d && (q + 1) * d == q * d + d) by (nonlinear_arith);
    }
}

/// Easing in is the cube of the progress, rounded down; easing out is one minus
/// the cube of what is left.
pub proof fn law_curves_are_cubic(a: Anim, now: u64)
    ensures
        ({
            let p = a.progress_at(now);
            let left = 0x100_0000 - p;
            let e = a.eased_at(now);
            let f = 0x100_0000 - e;
            let unit = 0x1_0000_0000_0000int;
            &&& p <= 0x100_0000
            &&& a.ease == Ease::In ==> e * unit <= p * p * p < (e + 1) * unit
            &&& a.ease == Ease::Out ==> f * unit <= left * left * left < (f + 1) * unit
        }),
{
    let p = a.progress_at(now);
    lemma_linear_bound(a.elapsed(now), a.duration as nat);
    let left = (ONE - p) as nat;
    lemma_cubed_bound(p);
    lemma_cubed_bound(left);
    assert((ONE as nat) * (ONE as nat) == 0x1_0000_0000_0000nat);
    assert(p * p * p >= 0 && left * left * left >= 0);
}

/// An animation of no length is complete from the start.
pub proof fn law_no_length_is_complete(a: Anim, now: u64)
    requires
        a.duration == 0,
    ensures
        a.progress_at(now) == 0x100_0000,
        a.eased_at(now) == 0x100_0000,
{
    lemma_cubed_ends();
}

} // verus!
