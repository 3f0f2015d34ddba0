use wineshm::announce::FORMAT;
use wineshm::{Mode, Note, Page};

fn note() -> Note {
    Note {
        version: "0.1.0".to_string(),
        format: FORMAT,
        pid: 4321,
        pages: vec![
            (
                Page {
                    name: "acpmf_physics".to_string(),
                    bytes: 2048,
                },
                Mode::Owned,
            ),
            (
                Page {
                    name: "acpmf_static".to_string(),
                    bytes: 2048,
                },
                Mode::Mirrored,
            ),
        ],
    }
}

#[test]
fn a_note_survives_being_written_and_read_back() {
    let written = note();
    let read = Note::parse(&written.render()).expect("parses");
    assert_eq!(read, written);
}

#[test]
fn the_note_is_readable_by_a_person() {
    let text = note().render();
    assert!(text.contains("version=0.1.0"), "{text}");
    assert!(text.contains("page=acpmf_physics:2048:owned"), "{text}");
    assert!(text.contains("page=acpmf_static:2048:mirrored"), "{text}");
    for line in text.lines() {
        assert!(line.contains('='), "{line:?}");
    }
}

#[test]
fn a_later_version_adding_a_line_does_not_break_this_one() {
    let mut text = note().render();
    text.push_str("something-new=7\n");
    assert_eq!(Note::parse(&text), Some(note()));
}

#[test]
fn a_note_missing_what_it_must_have_is_refused() {
    assert_eq!(Note::parse(""), None);
    assert_eq!(Note::parse("format=1\nversion=0.1.0\n"), None, "no pid");
    assert_eq!(Note::parse("version=0.1.0\npid=1\n"), None, "no format");
    assert_eq!(Note::parse("format=1\npid=1\n"), None, "no version");
}

#[test]
fn a_page_line_that_makes_no_sense_is_refused_rather_than_skipped() {
    let text = "format=1\nversion=0.1.0\npid=1\npage=nonsense\n";
    assert_eq!(Note::parse(text), None);
    let text = "format=1\nversion=0.1.0\npid=1\npage=a:2048:sideways\n";
    assert_eq!(Note::parse(text), None);
    let text = "format=1\nversion=0.1.0\npid=1\npage=a:0:owned\n";
    assert_eq!(Note::parse(text), None);
}

#[test]
fn a_note_with_no_pages_is_still_a_note() {
    let text = "format=1\nversion=0.1.0\npid=9\n";
    let read = Note::parse(text).expect("parses");
    assert!(read.pages.is_empty());
    assert_eq!(read.pid, 9);
}

#[test]
fn a_format_from_another_release_is_read_but_not_trusted() {
    let text = format!("format={}\nversion=0.1.0\npid=1\n", FORMAT + 1);
    let read = Note::parse(&text).expect("parses");
    assert!(!read.is_understood());
    assert!(note().is_understood());
}

/// A mode is shown by its word, and the word obeys the width it is given.
#[test]
fn a_mode_obeys_the_width_it_is_given() {
    assert_eq!(format!("[{:<9}]", Mode::Owned.word()), "[owned    ]");
    assert_eq!(format!("[{:>9}]", Mode::Mirrored.word()), "[ mirrored]");
}

#[test]
fn both_modes_survive_the_round_trip_as_words() {
    for mode in [Mode::Owned, Mode::Mirrored] {
        assert_eq!(Mode::from_word(mode.word()), Some(mode));
        assert_eq!(mode.word().to_string(), mode.word());
    }
    assert_eq!(Mode::from_word("halfway"), None);
}

#[test]
fn a_page_name_containing_a_colon_still_reads_back() {
    let odd = Note {
        pages: vec![(
            Page {
                name: "Session:12".to_string(),
                bytes: 64,
            },
            Mode::Owned,
        )],
        ..note()
    };
    assert_eq!(Note::parse(&odd.render()), Some(odd));
}

#[test]
fn junk_between_the_lines_is_ignored() {
    let text = "format=1\n\n   \nversion=0.1.0\nnot a key value line\npid=3\n";
    assert!(Note::parse(text).is_some());
}

#[test]
fn the_exact_text_of_a_note_is_its_lines_in_order() {
    let text = note().render();
    assert_eq!(
        text,
        "format=1\nversion=0.1.0\npid=4321\npage=acpmf_physics:2048:owned\npage=acpmf_static:2048:mirrored\n"
    );
}

#[test]
fn a_line_nobody_knows_is_passed_over_wherever_it_stands() {
    let text = note().render();
    let (head, tail) = text.split_at(text.find("pid=").expect("a pid line"));
    let with = format!("{head}colour=blue\n{tail}");
    assert_eq!(Note::parse(&with), Some(note()));
}
