use wineshm::page::{preset, preset_heartbeat, BadPage, MAX_BYTES, MAX_NAME, PRESETS};
use wineshm::Page;

#[test]
fn a_page_is_a_name_and_a_size() {
    assert_eq!(
        Page::parse("acpmf_physics:2048"),
        Ok(Page {
            name: "acpmf_physics".to_string(),
            bytes: 2048
        })
    );
}

#[test]
fn sizes_may_be_written_in_kilobytes_or_megabytes() {
    assert_eq!(Page::parse("a:16K").map(|p| p.bytes), Ok(16 * 1024));
    assert_eq!(Page::parse("a:16k").map(|p| p.bytes), Ok(16 * 1024));
    assert_eq!(Page::parse("a:1M").map(|p| p.bytes), Ok(1024 * 1024));
    assert_eq!(Page::parse("a:1m").map(|p| p.bytes), Ok(1024 * 1024));
    assert_eq!(Page::parse("a:2048").map(|p| p.bytes), Ok(2048));
}

#[test]
fn whitespace_around_a_size_is_forgiven() {
    assert_eq!(Page::parse("a: 2048 ").map(|p| p.bytes), Ok(2048));
}

#[test]
fn the_size_is_after_the_last_colon() {
    assert_eq!(
        Page::parse("Session:12:2048"),
        Ok(Page {
            name: "Session:12".to_string(),
            bytes: 2048
        })
    );
}

#[test]
fn a_page_without_a_size_is_refused() {
    assert_eq!(Page::parse("acpmf_physics"), Err(BadPage::NoSize));
}

#[test]
fn an_empty_name_is_refused() {
    assert_eq!(Page::parse(":2048"), Err(BadPage::EmptyName));
}

#[test]
fn a_name_longer_than_win32_allows_is_refused() {
    let long = "x".repeat(MAX_NAME + 1);
    assert_eq!(
        Page::parse(&format!("{long}:2048")),
        Err(BadPage::NameTooLong(MAX_NAME + 1))
    );
    let edge = "x".repeat(MAX_NAME);
    assert_eq!(
        Page::parse(&format!("{edge}:2048")).map(|p| p.name.chars().count()),
        Ok(MAX_NAME)
    );
}

#[test]
fn a_name_with_a_backslash_or_a_nul_is_refused() {
    assert_eq!(
        Page::parse("Global\\thing:2048"),
        Err(BadPage::NameHasSeparator('\\'))
    );
    assert_eq!(
        Page::parse("thing\0:2048"),
        Err(BadPage::NameHasSeparator('\0'))
    );
}

#[test]
fn a_size_that_is_not_a_number_is_refused() {
    assert_eq!(
        Page::parse("a:lots"),
        Err(BadPage::SizeNotANumber("lots".to_string()))
    );
    assert_eq!(
        Page::parse("a:-1"),
        Err(BadPage::SizeNotANumber("-1".to_string()))
    );
    assert_eq!(
        Page::parse("a:K"),
        Err(BadPage::SizeNotANumber("K".to_string()))
    );
}

#[test]
fn a_size_of_zero_is_refused() {
    assert_eq!(Page::parse("a:0"), Err(BadPage::SizeIsZero));
    assert_eq!(Page::parse("a:0K"), Err(BadPage::SizeIsZero));
}

#[test]
fn a_size_past_the_ceiling_is_refused() {
    assert_eq!(
        Page::parse(&format!("a:{}", MAX_BYTES + 1)),
        Err(BadPage::SizeTooBig(MAX_BYTES + 1))
    );
    assert_eq!(
        Page::parse(&format!("a:{MAX_BYTES}")).map(|p| p.bytes),
        Ok(MAX_BYTES)
    );
    assert!(matches!(
        Page::parse(&format!("a:{}M", usize::MAX)),
        Err(BadPage::SizeTooBig(_))
    ));
}

#[test]
fn every_preset_in_the_list_can_actually_be_asked_for() {
    for name in PRESETS {
        let pages = preset(name).unwrap_or_default();
        assert!(!pages.is_empty(), "{name} is listed and answers nothing");
        for page in pages {
            assert!(page.bytes > 0 && page.bytes <= MAX_BYTES, "{page:?}");
            assert!(!page.name.is_empty(), "{page:?}");
        }
    }
}

#[test]
fn the_sizes_are_the_numbers_they_are_meant_to_be() {
    assert_eq!(MAX_BYTES, 67_108_864, "64 MiB");
    assert_eq!(MAX_NAME, 255);

    let ac = preset("assetto-corsa").unwrap_or_default();
    let sizes: Vec<usize> = ac.iter().map(|page| page.bytes).collect();
    assert_eq!(sizes, vec![2048, 2048, 2048, 15660]);

    let rf2 = preset("rfactor2").unwrap_or_default();
    assert_eq!(rf2.first().map(|page| page.bytes), Some(1_048_576), "1 MiB");
}

#[test]
fn every_preset_names_a_heartbeat_among_its_own_blocks() {
    for name in PRESETS {
        let pages = preset(name).unwrap_or_default();
        let beat = preset_heartbeat(name).unwrap_or_else(|| panic!("{name} has no heartbeat"));
        assert!(
            pages.iter().any(|page| page.name == beat),
            "{name}: heartbeat {beat} is not one of its pages"
        );
        assert_ne!(
            beat, "acpmf_static",
            "the static block is written once a session and is the one trap here"
        );
    }
}

#[test]
fn the_short_names_answer_the_same_heartbeat() {
    assert_eq!(preset_heartbeat("ac"), preset_heartbeat("assetto-corsa"));
    assert_eq!(preset_heartbeat("rf2"), preset_heartbeat("rfactor2"));
    assert_eq!(preset_heartbeat("gran-turismo"), None);
}

#[test]
fn a_preset_nobody_has_written_is_not_invented() {
    assert_eq!(preset("gran-turismo"), None);
}

#[test]
fn the_short_names_reach_the_same_lists() {
    assert_eq!(preset("ac"), preset("assetto-corsa"));
    assert_eq!(preset("rf2"), preset("rfactor2"));
}

#[test]
fn each_refusal_explains_itself() {
    for bad in [
        BadPage::NoSize,
        BadPage::EmptyName,
        BadPage::NameTooLong(300),
        BadPage::NameHasSeparator('\\'),
        BadPage::SizeNotANumber("x".to_string()),
        BadPage::SizeIsZero,
        BadPage::SizeTooBig(99),
    ] {
        let said = bad.message();
        assert!(said.len() > 10, "{bad:?} said {said:?}");
        assert!(!said.contains("invalid"), "{said:?}");
    }
}

#[test]
fn each_refusal_says_exactly_what_it_was() {
    assert_eq!(
        BadPage::NameTooLong(300).message(),
        "the name is 300 characters; Win32 allows 255"
    );
    assert_eq!(
        BadPage::NameHasSeparator('\\').message(),
        "a shared memory name cannot contain '\\\\'"
    );
    assert_eq!(
        BadPage::SizeNotANumber("x".to_string()).message(),
        "\"x\" is not a size — try 2048, 16K or 1M"
    );
    assert_eq!(
        BadPage::SizeTooBig(99).message(),
        "99 bytes is past the 67108864 this will map"
    );
}
