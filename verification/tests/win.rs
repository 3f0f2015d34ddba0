use wineshm::win::{split_size, tick};
use wineshm::{Duration, Pacing, Shadow};

#[test]
fn a_size_is_split_into_the_two_halves_win32_wants() {
    assert_eq!(split_size(0), (0, 0));
    assert_eq!(split_size(2048), (0, 2048));
    assert_eq!(split_size(0xFFFF_FFFF), (0, 0xFFFF_FFFF));
    assert_eq!(split_size(0x1_0000_0000), (1, 0));
    assert_eq!(split_size(0x1_2345_6789), (1, 0x2345_6789));
}

#[test]
fn a_look_that_finds_a_change_goes_back_to_the_quick_pace() {
    let mut shadow = Shadow::new(2);
    let mut pacing = Pacing::new(Duration::from_millis(4), Duration::from_millis(64));
    assert_eq!(tick(&mut shadow, &mut pacing, &[0, 0]), (false, Duration::from_millis(8)));
    assert_eq!(tick(&mut shadow, &mut pacing, &[0, 0]), (false, Duration::from_millis(16)));
    assert_eq!(tick(&mut shadow, &mut pacing, &[1, 0]), (true, Duration::from_millis(4)));
    assert_eq!(shadow.seen(), &[1, 0]);
}
