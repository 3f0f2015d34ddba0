use wineshm::announce::FORMAT;
use wineshm::reader::{
    check_buffer, check_file_size, check_part, live_publishing, published_size, publishing_in,
    pulse, pulse_after, ReadRefusal,
};
use wineshm::Duration;
use wineshm::{Mode, Note, Page, Pulse};

fn page(name: &str, bytes: usize) -> Page {
    Page {
        name: name.to_string(),
        bytes,
    }
}

fn note(pages: &[Page]) -> Note {
    Note {
        version: "0.1.0".to_string(),
        format: FORMAT,
        pid: 1,
        pages: pages.iter().map(|p| (p.clone(), Mode::Owned)).collect(),
    }
}

#[test]
fn what_is_publishing_can_be_asked_without_opening_anything() {
    let text = note(&[page("one", 16), page("two", 32)]).render();
    let found = publishing_in(&text).expect("a note");
    assert_eq!(found.pages.len(), 2);
    assert_eq!(published_size(Some(found.clone()), "two"), Some(32));
    assert_eq!(published_size(Some(found), "three"), None);
    assert_eq!(published_size(None, "anything"), None);
}

#[test]
fn nothing_publishing_is_not_an_error() {
    assert!(publishing_in("").is_none());
    assert_eq!(published_size(None, "anything"), None);
}

#[test]
fn a_note_from_another_format_is_not_believed() {
    let text = format!("format={}\nversion=9.9.9\npid=1\n", FORMAT + 1);
    assert!(publishing_in(&text).is_none());
}

#[test]
fn only_a_live_bridge_has_its_note_believed() {
    let n = note(&[page("one", 16)]);
    assert_eq!(live_publishing(Some(n.clone()), Some(Pulse::Beating)), Some(n.clone()));
    assert_eq!(live_publishing(Some(n.clone()), Some(Pulse::Ahead)), Some(n.clone()));
    assert_eq!(live_publishing(Some(n.clone()), Some(Pulse::Abandoned)), None);
    assert_eq!(live_publishing(Some(n), None), None);
    assert_eq!(live_publishing(None, Some(Pulse::Beating)), None);
}

#[test]
fn the_first_page_of_a_name_gives_the_size() {
    let n = note(&[page("a", 16), page("a", 32)]);
    assert_eq!(published_size(Some(n), "a"), Some(16));
}

#[test]
fn a_file_of_the_wrong_size_is_refused_with_both_sizes() {
    let why = check_file_size("/dev/shm/thing", 712, &page("thing", 2048)).expect_err("refused");
    assert!(why.message().contains("712"), "{}", why.message());
    assert!(why.message().contains("2048"), "{}", why.message());
    assert_eq!(
        why.message(),
        "/dev/shm/thing is 712 bytes and 2048 was expected — the two sides are different versions"
    );
    assert!(check_file_size("/dev/shm/thing", 2048, &page("thing", 2048)).is_ok());
}

#[test]
fn a_buffer_must_be_exactly_the_page() {
    assert!(check_buffer(16, &page("t", 16)).is_ok());
    assert_eq!(
        check_buffer(8, &page("t", 16)),
        Err(ReadRefusal::WrongBuffer { len: 8, page: 16 })
    );
    assert_eq!(
        check_buffer(32, &page("t", 16)).map_err(|e| e.message()),
        Err("a buffer of 32 bytes for a 16-byte page".to_string())
    );
}

#[test]
fn a_part_may_reach_the_end_of_a_page_and_not_past_it() {
    let p = page("t", 16);
    assert!(check_part(4, 4, &p).is_ok());
    assert!(check_part(12, 4, &p).is_ok());
    assert_eq!(
        check_part(13, 4, &p),
        Err(ReadRefusal::PastEnd { end: 17, page: 16 })
    );
    assert_eq!(
        check_part(u64::MAX, 4, &p).map_err(|e| e.message()),
        Err(format!("{} bytes asked for from a 16-byte page", u64::MAX))
    );
}

#[test]
fn a_note_is_judged_by_its_age_against_the_stale_window() {
    assert_eq!(pulse(None, false), None);
    assert_eq!(pulse(Some(Duration::from_secs(6)), false), Some(Pulse::Beating));
    assert_eq!(pulse(Some(Duration::from_secs(7)), false), Some(Pulse::Abandoned));
    assert_eq!(pulse(Some(Duration::zero()), true), Some(Pulse::Ahead));
    assert_eq!(
        pulse_after(Some(Duration::from_secs(3)), false, Duration::from_secs(2)),
        Some(Pulse::Abandoned)
    );
}
