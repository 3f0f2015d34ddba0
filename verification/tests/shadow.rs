use wineshm::Shadow;

#[test]
fn a_fresh_shadow_is_the_zeroes_a_fresh_page_holds() {
    let shadow = Shadow::new(8);
    assert_eq!(shadow.seen(), &[0u8; 8]);
    assert_eq!(shadow.looks(), 0);
    assert_eq!(shadow.copies(), 0);
}

#[test]
fn a_page_still_full_of_zeroes_is_not_a_change() {
    let mut shadow = Shadow::new(8);
    assert!(!shadow.changed(&[0u8; 8]));
    assert_eq!(shadow.copies(), 0);
    assert_eq!(shadow.looks(), 1);
}

#[test]
fn a_byte_moving_is_a_change_and_is_taken() {
    let mut shadow = Shadow::new(4);
    assert!(shadow.changed(&[0, 0, 1, 0]));
    assert_eq!(shadow.seen(), &[0, 0, 1, 0]);
    assert_eq!(shadow.copies(), 1);
    assert_eq!(shadow.bytes_copied(), 4);
}

#[test]
fn the_same_bytes_twice_is_one_copy() {
    let mut shadow = Shadow::new(4);
    assert!(shadow.changed(&[1, 2, 3, 4]));
    assert!(!shadow.changed(&[1, 2, 3, 4]));
    assert!(!shadow.changed(&[1, 2, 3, 4]));
    assert_eq!(shadow.copies(), 1);
    assert_eq!(shadow.looks(), 3);
}

#[test]
fn a_change_in_the_last_byte_is_still_a_change() {
    let mut shadow = Shadow::new(4);
    shadow.changed(&[1, 2, 3, 4]);
    assert!(shadow.changed(&[1, 2, 3, 5]));
    assert_eq!(shadow.seen(), &[1, 2, 3, 5]);
}

#[test]
fn a_change_in_the_first_byte_is_still_a_change() {
    let mut shadow = Shadow::new(4);
    shadow.changed(&[1, 2, 3, 4]);
    assert!(shadow.changed(&[9, 2, 3, 4]));
}

#[test]
fn a_page_that_changes_size_is_followed() {
    let mut shadow = Shadow::new(4);
    assert!(shadow.changed(&[1, 2, 3, 4, 5, 6]));
    assert_eq!(shadow.seen(), &[1, 2, 3, 4, 5, 6]);
    assert!(!shadow.changed(&[1, 2, 3, 4, 5, 6]));

    assert!(shadow.changed(&[1, 2]));
    assert_eq!(shadow.seen(), &[1, 2]);
}

#[test]
fn a_shorter_page_with_the_same_start_is_a_change() {
    let mut shadow = Shadow::new(0);
    shadow.changed(&[1, 2, 3, 4]);
    assert!(shadow.changed(&[1, 2, 3]));
}

#[test]
fn an_empty_page_is_handled_rather_than_special_cased() {
    let mut shadow = Shadow::new(0);
    assert!(!shadow.changed(&[]));
    assert_eq!(shadow.bytes_copied(), 0);
}

#[test]
fn the_comparison_against_always_copying_counts_every_look() {
    let mut shadow = Shadow::new(10);
    for _ in 0..5 {
        shadow.changed(&[0u8; 10]);
    }
    assert_eq!(shadow.bytes_copied(), 0);
    assert_eq!(shadow.bytes_if_always_copied(), 50);
}

#[test]
fn the_copies_are_counted_against_the_looks() {
    let mut shadow = Shadow::new(2);
    shadow.changed(&[1, 1]);
    shadow.changed(&[1, 1]);
    shadow.changed(&[1, 1]);
    shadow.changed(&[1, 1]);
    assert_eq!(shadow.looks(), 4);
    assert_eq!(shadow.copies(), 1);
}

#[test]
fn a_page_that_never_settles_copies_on_every_look() {
    let mut shadow = Shadow::new(2);
    for i in 1..=10u8 {
        assert!(shadow.changed(&[i, i]), "look {i} found no change");
    }
    assert_eq!(shadow.copies(), 10);
    assert_eq!(shadow.looks(), 10);
    assert_eq!(shadow.bytes_copied(), 20);
}

#[test]
fn always_copying_adds_up_every_look_even_when_the_length_changes() {
    let mut shadow = Shadow::new(1);
    assert!(shadow.changed(&[1]));
    assert!(shadow.changed(&[]));
    assert_eq!(shadow.bytes_copied(), 1);
    assert_eq!(shadow.bytes_if_always_copied(), 1);
    assert!(shadow.changed(&[2, 3, 4]));
    assert_eq!(shadow.bytes_copied(), 4);
    assert_eq!(shadow.bytes_if_always_copied(), 4);
    assert!(!shadow.changed(&[2, 3, 4]));
    assert_eq!(shadow.bytes_if_always_copied(), 7);
    assert!(shadow.bytes_copied() <= shadow.bytes_if_always_copied());
}
