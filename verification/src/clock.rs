//! When to show a frame, and what to do when it is late.
//!
//! Playback is a question of timing rather than of decoding: the decoder
//! produces pictures with presentation stamps, and something has to decide
//! which one belongs on screen right now. That decision is here, separated from
//! anything that draws or reads a clock, so it can be checked for every input
//! rather than against a clock that has to be real time.
//!
//! # Audio is the master, always
//!
//! When vtome runs next to an audio engine, the audio clock leads and video
//! follows. A dropped frame is invisible at 24 fps; a resampled or stuttered
//! audio buffer is immediately audible. So pacing takes "now" from any
//! [`MasterClock`] — implement it over the audio engine's play position and
//! video will chase it.

use vstd::prelude::*;

use crate::time::Duration;

verus! {

/// Something that knows what time it is in a stream.
///
/// The audio engine implements this over its own play position, which is the
/// only clock in the system that is not allowed to drift.
pub trait MasterClock: Send + Sync {
    /// How far into the stream playback currently is.
    fn position(&self) -> Duration;

    /// Whether it is running. A paused master freezes video too.
    fn is_running(&self) -> (running: bool)
        default_ensures
            running,
    {
        true
    }
}

/// What to do with a frame that is due at a given time.
#[derive(Clone, Copy, Debug, PartialEq, Eq, Structural)]
pub enum Action {
    /// Draw it now.
    Present,
    /// Too early: wait this long and ask again. Not a sleep — a caller with a
    /// vsync to wait on has better things to block on.
    Wait(Duration),
    /// Too late to be worth drawing: throw it away and take the next one.
    ///
    /// The alternative is drawing every frame however late it is, which turns a
    /// brief stall into permanent lag.
    Drop,
}

/// A pacer as the contracts see it.
pub struct PacingView {
    /// How late, or how early, a frame may be and still count as due, in
    /// nanoseconds.
    pub tolerance: nat,
    /// Frames drawn.
    pub presented: nat,
    /// Frames thrown away as too late.
    pub dropped: nat,
    /// Frames shown again because no new one was ready.
    pub repeated: nat,
}

/// Whether `action` is the decision for a frame due at `pts` when the master
/// says `now`, all in nanoseconds: within tolerance either side of due is due;
/// later than that is dropped; earlier than that waits until it is within
/// tolerance.
pub open spec fn is_decision(action: Action, tolerance: nat, pts: nat, now: nat) -> bool {
    if pts > now {
        if pts - now <= tolerance {
            action == Action::Present
        } else {
            action matches Action::Wait(d) && d@ == pts - now - tolerance
        }
    } else if now - pts > tolerance {
        action == Action::Drop
    } else {
        action == Action::Present
    }
}

/// The counters after one decision: the one the decision names goes up by one,
/// and waiting counts nothing.
pub open spec fn spec_after_decision(p: PacingView, action: Action) -> PacingView {
    match action {
        Action::Present => PacingView { presented: p.presented + 1, ..p },
        Action::Drop => PacingView { dropped: p.dropped + 1, ..p },
        Action::Wait(_) => p,
    }
}

/// The counters after a repeat is noted: one more repeat, and nothing else
/// changed.
pub open spec fn spec_after_repeat(p: PacingView) -> PacingView {
    PacingView { repeated: p.repeated + 1, ..p }
}

/// The decision, and the count of how often it has gone each way.
///
/// Kept as a struct rather than a free function because the counters are what
/// makes a stuttering player diagnosable: dropped frames mean the decoder is
/// behind, repeats mean the display is faster than the content.
#[derive(Clone, Copy, Debug, Default)]
pub struct Pacing {
    /// How late a frame may be and still be worth drawing.
    tolerance: Duration,
    presented: u64,
    dropped: u64,
    repeated: u64,
}

impl View for Pacing {
    type V = PacingView;

    closed spec fn view(&self) -> PacingView {
        PacingView {
            tolerance: self.tolerance@,
            presented: self.presented as nat,
            dropped: self.dropped as nat,
            repeated: self.repeated as nat,
        }
    }
}

impl Pacing {
    /// A pacer with an explicit tolerance and nothing counted yet.
    pub fn with_tolerance(tolerance: Duration) -> (p: Pacing)
        ensures
            p@ == (PacingView { tolerance: tolerance@, presented: 0, dropped: 0, repeated: 0 }),
    {
        Pacing { tolerance, presented: 0, dropped: 0, repeated: 0 }
    }

    /// How late, or early, a frame may be and still count as due.
    pub fn tolerance(&self) -> (t: Duration)
        ensures
            t@ == self@.tolerance,
    {
        self.tolerance
    }

    /// What to do with a frame due at `frame_pts` when the master says `now`.
    pub fn decide(&mut self, frame_pts: Duration, now: Duration) -> (action: Action)
        requires
            old(self)@.presented < u64::MAX,
            old(self)@.dropped < u64::MAX,
        ensures
            is_decision(action, old(self)@.tolerance, frame_pts@, now@),
            final(self)@ == spec_after_decision(old(self)@, action),
    {
        let pts = frame_pts.as_nanos();
        let at = now.as_nanos();
        let tolerance = self.tolerance.as_nanos();
        if pts > at {
            let wait = pts - at;
            // Within tolerance of due counts as due: waiting a millisecond to
            // be exactly on time misses the vsync it was aiming for.
            if wait <= tolerance {
                self.presented = self.presented + 1;
                return Action::Present;
            }
            return Action::Wait(Duration::from_nanos_u128(wait - tolerance));
        }
        let late = at - pts;
        if late > tolerance {
            self.dropped = self.dropped + 1;
            return Action::Drop;
        }
        self.presented = self.presented + 1;
        Action::Present
    }

    /// Records that the previous frame was shown again because no new one was
    /// ready.
    pub fn note_repeat(&mut self)
        requires
            old(self)@.repeated < u64::MAX,
        ensures
            final(self)@ == spec_after_repeat(old(self)@),
    {
        self.repeated = self.repeated + 1;
    }

    /// Presented, dropped, repeated.
    pub fn counts(&self) -> (c: (u64, u64, u64))
        ensures
            c.0 == self@.presented,
            c.1 == self@.dropped,
            c.2 == self@.repeated,
    {
        (self.presented, self.dropped, self.repeated)
    }

    /// Forgets the counters, without changing the tolerance.
    pub fn reset(&mut self)
        ensures
            final(self)@ == (PacingView {
                tolerance: old(self)@.tolerance,
                presented: 0,
                dropped: 0,
                repeated: 0,
            }),
    {
        self.presented = 0;
        self.dropped = 0;
        self.repeated = 0;
    }
}

/// Every decision is exactly one of the three outcomes, and it moves at most
/// one counter, by one: presenting counts a presentation, dropping counts a
/// drop, waiting counts nothing, and repeats are never counted by a decision.
pub proof fn lemma_one_decision_one_count(p: PacingView, action: Action, pts: nat, now: nat)
    requires
        is_decision(action, p.tolerance, pts, now),
    ensures
        ({
            let after = spec_after_decision(p, action);
            &&& after.tolerance == p.tolerance
            &&& after.repeated == p.repeated
            &&& after.presented + after.dropped == p.presented + p.dropped + (if action is Wait {
                0int
            } else {
                1int
            })
        }),
{
}

/// A frame due within the tolerance of now, early or late, is presented; one
/// later than that is dropped; one earlier than that is waited for until it is
/// exactly the tolerance away.
pub proof fn lemma_tolerance_is_symmetric(action: Action, tolerance: nat, pts: nat, now: nat)
    requires
        is_decision(action, tolerance, pts, now),
    ensures
        (if pts >= now {
            pts - now
        } else {
            now - pts
        }) <= tolerance ==> action == Action::Present,
        now > pts + tolerance ==> action == Action::Drop,
        pts > now + tolerance ==> (action matches Action::Wait(d) && now + d@ + tolerance == pts),
{
}

/// Noting a repeat changes no later decision: with the repeat counted, a
/// frame gets exactly the decisions it would have got without it, and the
/// decision then counts what it would have counted, the repeat aside.
pub proof fn lemma_repeat_changes_no_decision(p: PacingView, action: Action, pts: nat, now: nat)
    ensures
        spec_after_repeat(p).tolerance == p.tolerance,
        is_decision(action, spec_after_repeat(p).tolerance, pts, now) <==> is_decision(
            action,
            p.tolerance,
            pts,
            now,
        ),
        spec_after_decision(spec_after_repeat(p), action) == spec_after_repeat(
            spec_after_decision(p, action),
        ),
{
}

} // verus!
