use wineshm::liveness::{beat, due_to_beat, pulse, stale};
use wineshm::{Duration, Pulse};

fn s(secs: u64) -> Duration {
    Duration::from_secs(secs)
}

#[test]
fn a_note_touched_a_moment_ago_is_a_running_bridge() {
    assert_eq!(pulse(Duration::zero(), false, stale()), Pulse::Beating);
    assert_eq!(pulse(s(1), false, stale()), Pulse::Beating);
    assert_eq!(pulse(s(6), false, stale()), Pulse::Beating, "exactly at the edge");
}

#[test]
fn a_note_nobody_has_touched_is_an_abandoned_bridge() {
    assert_eq!(pulse(s(7), false, stale()), Pulse::Abandoned);
    assert_eq!(pulse(s(3600), false, stale()), Pulse::Abandoned);
}

#[test]
fn a_note_dated_ahead_is_not_a_dead_bridge() {
    assert_eq!(pulse(s(3600), true, stale()), Pulse::Ahead);
    assert!(Pulse::Ahead.is_worth_reading());
}

#[test]
fn only_an_abandoned_bridge_is_not_worth_reading() {
    assert!(Pulse::Beating.is_worth_reading());
    assert!(!Pulse::Abandoned.is_worth_reading());
}

#[test]
fn every_pulse_says_something_a_person_can_act_on() {
    for pulse in [Pulse::Beating, Pulse::Abandoned, Pulse::Ahead] {
        let said = pulse.describe();
        assert!(said.len() > 12, "{pulse:?} said {said:?}");
        assert!(!said.contains("error"), "{said:?}");
    }
}

#[test]
fn the_beat_is_due_when_a_beat_has_passed_and_not_before() {
    assert!(!due_to_beat(Duration::zero(), beat()));
    assert!(!due_to_beat(Duration::from_millis(1999), beat()));
    assert!(due_to_beat(s(2), beat()));
    assert!(due_to_beat(s(30), beat()));
}

#[test]
fn the_stale_window_is_wider_than_one_beat() {
    assert!(
        stale() >= beat().saturating_mul(3),
        "a single missed beat must not condemn it: {:?} against {:?}",
        beat(),
        stale()
    );
}

#[test]
fn the_window_can_be_narrowed_by_a_caller_that_wants_to_know_sooner() {
    assert_eq!(pulse(s(3), false, s(2)), Pulse::Abandoned);
    assert_eq!(pulse(s(3), false, s(10)), Pulse::Beating);
}

#[test]
fn every_pulse_has_its_word() {
    assert_eq!(Pulse::Beating.word(), "beating");
    assert_eq!(Pulse::Abandoned.word(), "abandoned");
    assert_eq!(Pulse::Ahead.word(), "ahead");
    assert_eq!(beat(), Duration::from_secs(2));
    assert_eq!(stale(), Duration::from_secs(6));
}
