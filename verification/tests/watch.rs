use wineshm::watch::{still_after, Activity, Doing};
use wineshm::Duration;

fn ms(n: u64) -> Duration {
    Duration::from_millis(n)
}

#[test]
fn a_block_nobody_has_written_to_is_never_rather_than_still() {
    let mut seen = Activity::default();
    for _ in 0..100 {
        seen.saw(false, ms(20));
    }
    assert_eq!(seen.doing(still_after()), Doing::Never);
    assert_eq!(seen.percent(), 0);
    assert_eq!(seen.since_change(), None);
}

#[test]
fn a_block_that_has_stopped_is_still_rather_than_never() {
    let mut seen = Activity::default();
    seen.saw(true, ms(20));
    for _ in 0..100 {
        seen.saw(false, ms(20));
    }
    assert_eq!(seen.doing(still_after()), Doing::Still);
    assert!(seen
        .since_change()
        .is_some_and(|d| d >= Duration::from_secs(1)));
}

#[test]
fn a_block_being_written_constantly_is_moving_at_a_hundred_percent() {
    let mut seen = Activity::default();
    for _ in 0..50 {
        seen.saw(true, ms(20));
    }
    assert_eq!(seen.doing(still_after()), Doing::Moving);
    assert_eq!(seen.percent(), 100);
}

#[test]
fn a_rarely_written_block_does_not_round_down_to_nothing() {
    let mut seen = Activity::default();
    for at in 0..200 {
        seen.saw(at % 200 == 0, ms(20));
    }
    assert_eq!(seen.percent(), 1, "one change in two hundred looks");
}

#[test]
fn a_block_written_half_the_time_reads_as_half() {
    let mut seen = Activity::default();
    for at in 0..100 {
        seen.saw(at % 2 == 0, ms(20));
    }
    assert_eq!(seen.percent(), 50);
}

#[test]
fn a_gap_shorter_than_the_limit_is_still_moving() {
    let mut seen = Activity::default();
    seen.saw(true, ms(20));
    seen.saw(false, ms(500));
    assert_eq!(seen.doing(still_after()), Doing::Moving);
}

#[test]
fn a_new_period_forgets_the_counts_and_keeps_the_silence() {
    let mut seen = Activity::default();
    for _ in 0..50 {
        seen.saw(true, ms(20));
    }
    seen.new_period();
    assert_eq!(seen.percent(), 0);
    assert_eq!(seen.looks(), 0);

    for _ in 0..100 {
        seen.saw(false, ms(20));
    }
    assert_eq!(
        seen.doing(still_after()),
        Doing::Still,
        "the silence survived the period"
    );
}

#[test]
fn nothing_looked_at_is_not_a_division_by_zero() {
    let seen = Activity::default();
    assert_eq!(seen.percent(), 0);
    assert_eq!(seen.looks(), 0);
    assert_eq!(seen.doing(still_after()), Doing::Never);
}

#[test]
fn a_very_long_watch_does_not_overflow() {
    let mut seen = Activity {
        looks: u64::MAX,
        changes: u64::MAX,
        ..Default::default()
    };
    seen.saw(true, Duration::max_value());
    assert_eq!(seen.looks(), u64::MAX);
    assert!(seen.percent() <= 100);
}

#[test]
fn every_verdict_has_a_word() {
    for doing in [Doing::Moving, Doing::Still, Doing::Never] {
        assert!(!doing.word().is_empty());
    }
}

#[test]
fn two_changes_in_three_looks_round_to_sixty_seven() {
    let mut seen = Activity::default();
    seen.saw(true, ms(20));
    seen.saw(false, ms(20));
    seen.saw(true, ms(20));
    assert_eq!(seen.percent(), 67);
    assert_eq!(seen.since_change(), Some(Duration::zero()));
}

#[test]
fn the_percentage_is_the_share_of_looks_rounded_half_up() {
    for (changes, looks, expected) in [(1u64, 200u64, 1u8), (50, 100, 50), (50, 50, 100), (1, 3, 33), (2, 3, 67), (0, 10, 0)] {
        let mut seen = Activity::default();
        for i in 0..looks {
            seen.saw(i < changes, ms(20));
        }
        assert_eq!(seen.looks(), looks);
        assert_eq!(seen.percent(), expected, "{changes} in {looks}");
    }
}

#[test]
fn the_silence_is_the_time_since_the_last_change_across_periods() {
    let mut seen = Activity::default();
    seen.saw(false, ms(500));
    assert_eq!(seen.since_change(), None);
    seen.saw(true, ms(500));
    seen.saw(false, ms(300));
    seen.new_period();
    seen.saw(false, ms(400));
    assert_eq!(seen.since_change(), Some(ms(700)));
    assert_eq!(seen.doing(still_after()), Doing::Moving);
    seen.saw(false, ms(300));
    assert_eq!(seen.since_change(), Some(ms(1000)));
    assert_eq!(seen.doing(still_after()), Doing::Still);
    assert_eq!(seen.percent(), 0);
}
