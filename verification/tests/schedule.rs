use wineshm::schedule::{grace, is_exit, nap_ceiling, nobody_was_there};
use wineshm::{Duration, Schedule};

fn ms(n: u64) -> Duration {
    Duration::from_millis(n)
}

#[test]
fn everything_is_due_at_the_start() {
    let schedule = Schedule::new(3);
    assert_eq!(schedule.len(), 3);
    assert!(!schedule.is_empty());
    for index in 0..3 {
        assert!(schedule.is_due(index, Duration::zero()));
    }
}

#[test]
fn a_page_looked_at_is_not_due_again_until_its_wait_is_up() {
    let mut schedule = Schedule::new(2);
    schedule.looked_at(0, ms(100), ms(64));

    assert!(!schedule.is_due(0, ms(163)));
    assert!(schedule.is_due(0, ms(164)));
    assert!(schedule.is_due(0, ms(500)));
    assert!(schedule.is_due(1, ms(100)));
}

#[test]
fn the_nap_is_until_the_soonest_page_wants_looking_at() {
    let mut schedule = Schedule::new(3);
    schedule.looked_at(0, ms(0), ms(64));
    schedule.looked_at(1, ms(0), ms(4));
    schedule.looked_at(2, ms(0), ms(32));

    assert_eq!(schedule.nap(ms(0), ms(1000)), ms(4));
    schedule.looked_at(1, ms(4), ms(64));
    assert_eq!(schedule.nap(ms(4), ms(1000)), ms(28));
}

#[test]
fn something_overdue_means_do_not_sleep_at_all() {
    let mut schedule = Schedule::new(2);
    schedule.looked_at(0, ms(0), ms(4));
    assert_eq!(schedule.nap(ms(100), ms(1000)), Duration::zero());
}

#[test]
fn the_ceiling_caps_the_nap() {
    let mut schedule = Schedule::new(1);
    schedule.looked_at(0, ms(0), Duration::from_secs(60));
    assert_eq!(schedule.nap(ms(0), ms(100)), ms(100));
}

#[test]
fn a_schedule_with_no_pages_sleeps_the_ceiling() {
    let schedule = Schedule::new(0);
    assert!(schedule.is_empty());
    assert_eq!(schedule.nap(ms(50), ms(100)), ms(100));
    assert!(!schedule.is_due(7, ms(50)));
}

#[test]
fn marking_a_page_that_is_not_there_is_ignored_rather_than_fatal() {
    let mut schedule = Schedule::new(1);
    schedule.looked_at(9, ms(0), ms(10));
    assert_eq!(schedule.len(), 1);
}

#[test]
fn a_long_running_schedule_does_not_overflow() {
    let mut schedule = Schedule::new(1);
    schedule.looked_at(0, Duration::max_value(), ms(64));
    assert_eq!(schedule.nap(Duration::zero(), ms(100)), ms(100));
}

#[test]
fn input_that_ends_at_once_with_no_console_is_nobody_there() {
    assert!(nobody_was_there(false, ms(10), grace()));
    assert!(nobody_was_there(false, ms(1999), grace()));
}

#[test]
fn input_that_lasted_is_somebody_asking_it_to_stop() {
    assert!(!nobody_was_there(false, ms(2000), grace()));
    assert!(!nobody_was_there(false, Duration::from_secs(3600), grace()));
}

#[test]
fn a_console_is_always_somebody() {
    assert!(!nobody_was_there(true, ms(1), grace()));
    assert!(!nobody_was_there(true, Duration::zero(), grace()));
}

#[test]
fn the_grace_is_the_two_seconds_it_is_documented_as() {
    assert_eq!(grace(), Duration::from_secs(2));
}

#[test]
fn exit_is_understood_in_any_case_and_with_space_around_it() {
    assert!(is_exit("exit"));
    assert!(is_exit("EXIT\n"));
    assert!(is_exit("  Exit \r\n"));
    assert!(!is_exit("exit now"));
    assert!(!is_exit("quit"));
    assert!(!is_exit(""));
    assert!(!is_exit("exi"));
}

#[test]
fn the_nap_is_never_shorter_than_a_tenth_of_a_second() {
    assert_eq!(nap_ceiling(ms(10)), ms(100));
    assert_eq!(nap_ceiling(ms(100)), ms(100));
    assert_eq!(nap_ceiling(ms(500)), ms(500));
}
