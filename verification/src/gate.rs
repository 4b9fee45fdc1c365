//! The rate limiter: a gate that holds one stored instant per client, checked
//! and set in a single step, so that two admitted draws of one client are
//! always more than a draw period apart.

use vstd::prelude::*;

verus! {

/// Minimum time between two admitted draws of one client, in milliseconds.
pub const DRAW_PERIOD_MS: u64 = 60000;

/// What the limiter answers to a draw.
#[derive(Debug, PartialEq, Eq, Copy, Clone, Structural)]
pub enum GateOutcome {
    /// The draw may proceed, and its instant is now the stored one.
    Admitted,
    /// The draw is refused; the stored instant is returned unchanged.
    Denied(u64),
}

/// Latest instant before which a stored placement no longer blocks a draw
/// made at `now_ms`.
pub open spec fn threshold_at(now_ms: u64) -> u64 {
    if now_ms >= DRAW_PERIOD_MS {
        (now_ms - DRAW_PERIOD_MS) as u64
    } else {
        0
    }
}

/// Whether a client whose stored instant is `last` passes the limiter at
/// `threshold_ms`: it does when nothing is stored, or when what is stored
/// lies strictly before the threshold.
pub open spec fn admits(last: Option<u64>, threshold_ms: u64) -> bool {
    last matches Some(placed) ==> placed < threshold_ms
}

/// The instant stored for a client after it asked the limiter at `now_ms`.
pub open spec fn after_check(last: Option<u64>, now_ms: u64, threshold_ms: u64) -> Option<u64> {
    if admits(last, threshold_ms) {
        Some(now_ms)
    } else {
        last
    }
}

/// The instants, among `times` taken in order, at which a client whose
/// stored instant is `last` is admitted.
pub open spec fn admitted_times(last: Option<u64>, times: Seq<u64>) -> Seq<u64>
    decreases times.len(),
{
    if times.len() == 0 {
        Seq::empty()
    } else {
        let now = times[0];
        let rest = admitted_times(after_check(last, now, threshold_at(now)), times.drop_first());
        if admits(last, threshold_at(now)) {
            seq![now] + rest
        } else {
            rest
        }
    }
}

/// The limiter's state for one client.
#[derive(Debug, PartialEq, Eq, Copy, Clone)]
pub struct GateState {
    /// Instant of the last admitted draw, if there was one.
    pub last_placed: Option<u64>,
}

impl GateState {
    /// The state of a client that never drew.
    pub fn new() -> (state: GateState)
        ensures
            state.last_placed is None,
    {
        GateState { last_placed: None }
    }

    /// Admits the client if its stored instant lies before `threshold_ms` and
    /// then stores `now_ms`; refuses it otherwise and leaves the state alone.
    pub fn check_and_update(&mut self, now_ms: u64, threshold_ms: u64) -> (outcome: GateOutcome)
        ensures
            final(self).last_placed == after_check(old(self).last_placed, now_ms, threshold_ms),
            admits(old(self).last_placed, threshold_ms) ==> outcome == GateOutcome::Admitted,
            !admits(old(self).last_placed, threshold_ms) ==> outcome == GateOutcome::Denied(
                old(self).last_placed.unwrap(),
            ),
    {
        match self.last_placed {
            Some(placed) if placed >= threshold_ms => GateOutcome::Denied(placed),
            _ => {
                self.last_placed = Some(now_ms);
                GateOutcome::Admitted
            },
        }
    }
}

/// The threshold that a draw made at `now_ms` hands to the limiter.
pub fn draw_threshold(now_ms: u64) -> (threshold_ms: u64)
    ensures
        threshold_ms == threshold_at(now_ms),
{
    if now_ms >= DRAW_PERIOD_MS {
        now_ms - DRAW_PERIOD_MS
    } else {
        0
    }
}

/// The number by which the limiter reports `outcome` over the wire: a negative
/// one for an admitted draw, the stored instant for a refused one.
pub open spec fn reply_of(outcome: GateOutcome) -> int {
    match outcome {
        GateOutcome::Admitted => -1,
        GateOutcome::Denied(placed) => placed as int,
    }
}

/// The outcome that the number `reply` reports: any negative number admits,
/// any instant denies, and a number too large to be an instant reports
/// nothing.
pub open spec fn outcome_of(reply: int) -> Option<GateOutcome> {
    if reply < 0 {
        Some(GateOutcome::Admitted)
    } else if reply <= u64::MAX {
        Some(GateOutcome::Denied(reply as u64))
    } else {
        None
    }
}

impl GateOutcome {
    /// The number that reports this outcome over the wire.
    pub fn to_reply(self) -> (reply: i128)
        ensures
            reply == reply_of(self),
    {
        match self {
            GateOutcome::Admitted => -1,
            GateOutcome::Denied(placed) => placed as i128,
        }
    }

    /// Reads an outcome from the number that came over the wire.
    pub fn from_reply(reply: i128) -> (outcome: Option<GateOutcome>)
        ensures
            outcome == outcome_of(reply as int),
    {
        if reply < 0 {
            Some(GateOutcome::Admitted)
        } else if reply <= u64::MAX as i128 {
            Some(GateOutcome::Denied(reply as u64))
        } else {
            None
        }
    }
}

/// An outcome survives the trip over the wire: the number that never
/// collides with an instant stands for admission, and an instant for itself.
pub proof fn lemma_reply_round_trip(outcome: GateOutcome)
    ensures
        outcome_of(reply_of(outcome)) == Some(outcome),
        outcome is Admitted <==> reply_of(outcome) < 0,
{
}

/// An admitted draw never moves the stored instant backwards.
pub proof fn lemma_last_placed_never_decreases(last: Option<u64>, now_ms: u64)
    ensures
        last matches Some(before) ==> (after_check(last, now_ms, threshold_at(now_ms)) matches Some(
            after,
        ) && before <= after),
{
}

/// Every admitted instant lies more than a draw period after the instant
/// that was stored when the run began.
proof fn lemma_admitted_after_last(last: Option<u64>, times: Seq<u64>, i: int)
    requires
        0 <= i < admitted_times(last, times).len(),
    ensures
        last matches Some(placed) ==> placed + DRAW_PERIOD_MS < admitted_times(last, times)[i],
    decreases times.len(),
{
    let now = times[0];
    let next = after_check(last, now, threshold_at(now));
    let rest = admitted_times(next, times.drop_first());
    if admits(last, threshold_at(now)) {
        if i > 0 {
            lemma_admitted_after_last(next, times.drop_first(), i - 1);
        }
    } else {
        lemma_admitted_after_last(next, times.drop_first(), i);
    }
}

/// Two draws of one client that the limiter admitted one after the other are
/// at least a draw period apart, whatever was asked in between.
pub proof fn lemma_admitted_draws_are_spaced(last: Option<u64>, times: Seq<u64>, i: int)
    requires
        0 <= i,
        i + 1 < admitted_times(last, times).len(),
    ensures
        admitted_times(last, times)[i + 1] - admitted_times(last, times)[i] >= DRAW_PERIOD_MS,
    decreases times.len(),
{
    let now = times[0];
    let next = after_check(last, now, threshold_at(now));
    let rest = admitted_times(next, times.drop_first());
    if admits(last, threshold_at(now)) {
        if i == 0 {
            lemma_admitted_after_last(next, times.drop_first(), 0);
        } else {
            lemma_admitted_draws_are_spaced(next, times.drop_first(), i - 1);
        }
    } else {
        lemma_admitted_draws_are_spaced(next, times.drop_first(), i);
    }
}

} // verus!
