use wineshm::watchdog::{blank_after, Verdict};
use wineshm::{Duration, Watchdog};

fn ms(n: u64) -> Duration {
    Duration::from_millis(n)
}

#[test]
fn a_writer_that_keeps_writing_is_left_alone() {
    let mut dog = Watchdog::new(blank_after());
    for _ in 0..1000 {
        assert_eq!(dog.saw(true, ms(4)), Verdict::Nothing);
    }
    assert!(!dog.is_blanked());
}

#[test]
fn silence_past_the_limit_asks_for_a_blanking() {
    let mut dog = Watchdog::new(Duration::from_secs(5));
    assert_eq!(dog.saw(false, Duration::from_secs(4)), Verdict::Nothing);
    assert_eq!(dog.saw(false, Duration::from_secs(1)), Verdict::Blank);
    assert!(dog.is_blanked());
}

#[test]
fn it_asks_to_blank_once_and_then_stops_asking() {
    let mut dog = Watchdog::new(Duration::from_secs(1));
    assert_eq!(dog.saw(false, Duration::from_secs(2)), Verdict::Blank);
    for _ in 0..100 {
        assert_eq!(dog.saw(false, Duration::from_secs(1)), Verdict::Nothing);
    }
}

#[test]
fn a_writer_that_comes_back_is_noticed_once() {
    let mut dog = Watchdog::new(Duration::from_secs(1));
    assert_eq!(dog.saw(false, Duration::from_secs(2)), Verdict::Blank);
    assert_eq!(dog.saw(true, ms(4)), Verdict::Writing);
    assert!(!dog.is_blanked());
    assert_eq!(dog.saw(true, ms(4)), Verdict::Nothing);
}

#[test]
fn it_can_blank_again_after_the_writer_comes_and_goes_twice() {
    let mut dog = Watchdog::new(Duration::from_secs(1));
    for _ in 0..3 {
        assert_eq!(dog.saw(false, Duration::from_secs(2)), Verdict::Blank);
        assert_eq!(dog.saw(true, ms(4)), Verdict::Writing);
    }
}

#[test]
fn a_pause_shorter_than_the_limit_changes_nothing() {
    let mut dog = Watchdog::new(Duration::from_secs(5));
    for _ in 0..4 {
        assert_eq!(dog.saw(false, Duration::from_secs(1)), Verdict::Nothing);
    }
    assert_eq!(
        dog.saw(true, ms(4)),
        Verdict::Nothing,
        "not a Writing: it never blanked"
    );
    assert_eq!(dog.quiet_for(), Duration::zero());
}

#[test]
fn the_quiet_is_measured_and_can_be_read_back() {
    let mut dog = Watchdog::new(Duration::from_secs(10));
    dog.saw(false, Duration::from_secs(3));
    assert_eq!(dog.quiet_for(), Duration::from_secs(3));
    dog.saw(false, Duration::from_secs(2));
    assert_eq!(dog.quiet_for(), Duration::from_secs(5));
    dog.saw(true, ms(1));
    assert_eq!(dog.quiet_for(), Duration::zero());
}

#[test]
fn the_limit_is_inclusive() {
    let mut dog = Watchdog::new(Duration::from_secs(5));
    assert_eq!(dog.saw(false, Duration::from_secs(5)), Verdict::Blank);
}

#[test]
fn a_long_silence_does_not_overflow() {
    let mut dog = Watchdog::new(Duration::from_secs(5));
    let mut last = Duration::zero();
    for _ in 0..100 {
        dog.saw(false, Duration::max_value());
        assert!(
            dog.quiet_for() >= last,
            "{:?} went backwards from {last:?}",
            dog.quiet_for()
        );
        last = dog.quiet_for();
    }
    assert_eq!(
        dog.quiet_for(),
        Duration::max_value(),
        "saturated rather than wrapped"
    );
}

#[test]
fn a_limit_of_nothing_blanks_at_once() {
    let mut dog = Watchdog::new(Duration::zero());
    assert_eq!(dog.saw(false, Duration::zero()), Verdict::Blank);
}

#[test]
fn the_default_patience_is_five_seconds() {
    assert_eq!(blank_after(), Duration::from_secs(5));
}

#[test]
fn silence_blanks_once_and_never_reads_as_writing() {
    let mut dog = Watchdog::new(Duration::from_secs(1));
    assert_eq!(dog.saw(false, Duration::from_secs(2)), Verdict::Blank);
    for _ in 0..100 {
        assert_eq!(dog.saw(false, Duration::from_secs(1)), Verdict::Nothing);
    }
    let mut edge = Watchdog::new(Duration::from_secs(5));
    assert_eq!(edge.saw(false, Duration::from_secs(5)), Verdict::Blank);
}
