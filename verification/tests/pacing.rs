use wineshm::pacing::quick;
use wineshm::{Duration, Pacing};

fn ms(n: u64) -> Duration {
    Duration::from_millis(n)
}

#[test]
fn it_starts_quick() {
    let pacing = Pacing::default();
    assert_eq!(pacing.interval(), quick());
}

#[test]
fn nothing_changing_backs_off_by_doubling() {
    let mut pacing = Pacing::new(ms(4), ms(64));
    assert_eq!(pacing.after(false), ms(8));
    assert_eq!(pacing.after(false), ms(16));
    assert_eq!(pacing.after(false), ms(32));
    assert_eq!(pacing.after(false), ms(64));
}

#[test]
fn it_never_backs_off_past_the_ceiling() {
    let mut pacing = Pacing::new(ms(4), ms(64));
    for _ in 0..50 {
        pacing.after(false);
    }
    assert_eq!(pacing.interval(), ms(64));
}

#[test]
fn one_change_comes_all_the_way_back() {
    let mut pacing = Pacing::new(ms(4), ms(64));
    for _ in 0..10 {
        pacing.after(false);
    }
    assert_eq!(pacing.interval(), ms(64));
    assert_eq!(pacing.after(true), ms(4));
}

#[test]
fn staying_busy_stays_quick() {
    let mut pacing = Pacing::default();
    for _ in 0..100 {
        assert_eq!(pacing.after(true), quick());
    }
}

#[test]
fn a_ceiling_below_the_floor_becomes_the_floor() {
    let mut pacing = Pacing::new(ms(10), ms(1));
    assert_eq!(pacing.interval(), ms(10));
    assert_eq!(pacing.after(false), ms(10));
    assert_eq!(pacing.after(false), ms(10));
}

#[test]
fn a_huge_ceiling_does_not_overflow() {
    let mut pacing = Pacing::new(Duration::from_secs(1), Duration::max_value());
    let mut last = Duration::zero();
    for _ in 0..200 {
        let now = pacing.after(false);
        assert!(now >= last, "{now:?} went backwards from {last:?}");
        last = now;
    }
    assert!(last > Duration::from_secs(1));
    assert_eq!(last, Duration::max_value());
}
