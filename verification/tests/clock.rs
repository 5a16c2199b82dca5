use vtome::clock::{Action, MasterClock, Pacing};
use vtome::Duration;

/// The tolerance a 24 fps stream gets: half its frame interval.
fn pacing_for_24_fps() -> Pacing {
    Pacing::with_tolerance(Duration::from_nanos(20_833_333))
}

/// A clock that says whatever the test wants, so pacing can be checked
/// without waiting in real time.
#[derive(Debug, Default)]
struct FixedClock(Duration);

impl MasterClock for FixedClock {
    fn position(&self) -> Duration {
        self.0
    }
}

#[test]
fn a_frame_due_now_is_presented() {
    let mut pacing = pacing_for_24_fps();

    let action = pacing.decide(Duration::from_millis(100), Duration::from_millis(100));

    assert_eq!(action, Action::Present);
    assert_eq!(pacing.counts(), (1, 0, 0));
}

#[test]
fn a_frame_from_the_future_asks_the_caller_to_wait() {
    let mut pacing = Pacing::with_tolerance(Duration::from_millis(5));

    let action = pacing.decide(Duration::from_millis(200), Duration::from_millis(100));

    assert_eq!(action, Action::Wait(Duration::from_millis(95)));
    assert_eq!(pacing.counts(), (0, 0, 0), "waiting is not presenting");
}

/// Lag that never recovers is the failure mode: a player that draws every
/// frame however late falls further behind for the rest of the file.
#[test]
fn a_frame_too_late_to_matter_is_dropped() {
    let mut pacing = pacing_for_24_fps();

    let action = pacing.decide(Duration::from_millis(100), Duration::from_millis(500));

    assert_eq!(action, Action::Drop);
    assert_eq!(pacing.counts(), (0, 1, 0));
}

#[test]
fn a_frame_barely_early_is_presented_rather_than_waited_for() {
    let mut pacing = pacing_for_24_fps();

    // A millisecond early, against a ~20 ms tolerance.
    let action = pacing.decide(Duration::from_millis(101), Duration::from_millis(100));

    assert_eq!(action, Action::Present);
}

#[test]
fn counters_survive_until_they_are_reset() {
    let mut pacing = pacing_for_24_fps();

    pacing.decide(Duration::zero(), Duration::zero());
    pacing.decide(Duration::zero(), Duration::from_secs(1));
    pacing.note_repeat();

    assert_eq!(pacing.counts(), (1, 1, 1));

    pacing.reset();
    assert_eq!(pacing.counts(), (0, 0, 0));
    assert_eq!(pacing.tolerance(), Duration::from_nanos(20_833_333));
}

/// Video chases audio, which is the whole point of the trait.
#[test]
fn pacing_follows_whatever_master_it_is_given() {
    let master = FixedClock(Duration::from_millis(500));
    let mut pacing = pacing_for_24_fps();

    assert_eq!(
        pacing.decide(Duration::from_millis(500), master.position()),
        Action::Present
    );
    assert_eq!(
        pacing.decide(Duration::from_millis(100), master.position()),
        Action::Drop
    );
    assert!(master.is_running());
}

#[test]
fn the_tolerance_is_the_same_either_side_of_due() {
    let mut pacing = Pacing::with_tolerance(Duration::from_millis(10));

    assert_eq!(pacing.decide(Duration::from_millis(110), Duration::from_millis(100)), Action::Present);
    assert_eq!(pacing.decide(Duration::from_millis(90), Duration::from_millis(100)), Action::Present);
    assert_eq!(pacing.decide(Duration::from_millis(89), Duration::from_millis(100)), Action::Drop);
    assert_eq!(
        pacing.decide(Duration::from_millis(111), Duration::from_millis(100)),
        Action::Wait(Duration::from_millis(1))
    );
    assert_eq!(pacing.counts(), (2, 1, 0));
}

#[test]
fn a_repeat_changes_no_later_decision() {
    let mut plain = pacing_for_24_fps();
    let mut repeated = pacing_for_24_fps();
    repeated.note_repeat();

    for (pts, now) in [(100, 100), (200, 100), (100, 300), (110, 100)] {
        let a = plain.decide(Duration::from_millis(pts), Duration::from_millis(now));
        let b = repeated.decide(Duration::from_millis(pts), Duration::from_millis(now));
        assert_eq!(a, b);
    }
    let (p, d, r) = plain.counts();
    assert_eq!(repeated.counts(), (p, d, r + 1));
    assert_eq!(repeated.tolerance(), plain.tolerance());
}
