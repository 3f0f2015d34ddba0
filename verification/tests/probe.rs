use wineshm::probe::{fits, size_range, Found, PAGE_GRANULARITY};

const G: usize = PAGE_GRANULARITY;

#[test]
fn one_page_of_address_space_means_anything_up_to_a_page() {
    assert_eq!(size_range(4096, G), (0, 4096));
}

#[test]
fn four_pages_narrows_it_to_the_last_page() {
    assert_eq!(size_range(16384, G), (12288, 16384));
}

#[test]
fn the_sizes_this_was_written_for_are_consistent_with_their_regions() {
    assert!(fits(2048, 4096, G), "a 2048-byte block reads as one page");
    assert!(fits(15660, 16384, G), "a 15660-byte block reads as four pages");
}

#[test]
fn a_size_far_from_the_measurement_does_not_fit() {
    assert!(!fits(2048, 65536, G), "2048 asked of a 64 KiB section");
    assert!(!fits(65536, 4096, G), "64 KiB asked of a one-page section");
    assert!(!fits(12288, 16384, G), "exactly the exclusive lower bound");
}

#[test]
fn a_size_of_exactly_the_region_fits() {
    assert!(fits(4096, 4096, G));
    assert!(fits(16384, 16384, G));
}

#[test]
fn a_region_of_nothing_admits_nothing() {
    assert_eq!(size_range(0, G), (0, 0));
    assert!(!fits(0, 0, G), "a size of zero is not a size");
    assert!(!fits(1, 0, G));
}

#[test]
fn a_granularity_of_zero_does_not_panic() {
    assert_eq!(size_range(4096, 0), (4095, 4096));
}

#[test]
fn what_it_says_names_both_ends_except_at_the_bottom() {
    let one = Found {
        name: "x".into(),
        region: 4096,
    };
    assert_eq!(one.described(), "at most 4096 bytes");

    let four = Found {
        name: "x".into(),
        region: 16384,
    };
    assert!(four.described().contains("12288"), "{}", four.described());
    assert!(four.described().contains("16384"), "{}", four.described());
}

#[test]
fn both_ends_are_said_in_full() {
    let four = Found {
        name: "x".into(),
        region: 16384,
    };
    assert_eq!(four.described(), "more than 12288 and at most 16384 bytes");
    assert_eq!(four.size_range(), (12288, 16384));
}
