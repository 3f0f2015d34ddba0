use wineshm::handoff::{may_hand_over, HANDED_OVER};

#[test]
fn a_game_that_is_writing_to_owned_pages_may_have_them() {
    assert!(may_hand_over(true, true, true));
}

#[test]
fn a_mirrored_page_is_never_handed_over() {
    assert!(!may_hand_over(false, true, true));
}

#[test]
fn without_a_heartbeat_there_is_nobody_to_hand_over_to() {
    assert!(!may_hand_over(true, false, true));
}

#[test]
fn nothing_is_handed_over_before_the_game_has_written() {
    assert!(!may_hand_over(true, true, false));
}

#[test]
fn every_condition_is_required() {
    for (owned, beat, stirred) in [
        (false, false, false),
        (false, false, true),
        (false, true, false),
        (true, false, false),
    ] {
        assert!(!may_hand_over(owned, beat, stirred));
    }
}

#[test]
fn the_exit_code_cannot_be_confused_with_the_ordinary_ones() {
    assert_ne!(HANDED_OVER, 0);
    assert_ne!(HANDED_OVER, 1);
    assert_ne!(HANDED_OVER, 2);
}
