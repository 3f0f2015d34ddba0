use wineshm::announce::FORMAT;
use wineshm::inspect::{healthy, on_disk, report, HEADER};
use wineshm::{Mode, Note, Page, Pulse};

fn note() -> Note {
    Note {
        version: "0.1.0".to_string(),
        format: FORMAT,
        pid: 4321,
        pages: vec![
            (
                Page {
                    name: "acpmf_physics".to_string(),
                    bytes: 2048,
                },
                Mode::Owned,
            ),
            (
                Page {
                    name: "acpmf_static".to_string(),
                    bytes: 2048,
                },
                Mode::Mirrored,
            ),
        ],
    }
}

#[test]
fn a_note_renders_as_one_line_of_json() {
    let json = note().to_json(Some(Pulse::Beating));
    assert_eq!(
        json,
        "{\"version\":\"0.1.0\",\"format\":1,\"pid\":4321,\"understood\":true,\"pulse\":\"beating\",\"pages\":[{\"name\":\"acpmf_physics\",\"bytes\":2048,\"mode\":\"owned\"},{\"name\":\"acpmf_static\",\"bytes\":2048,\"mode\":\"mirrored\"}]}\n"
    );
}

#[test]
fn json_without_a_pulse_says_null_and_an_unknown_format_is_not_understood() {
    let mut n = note();
    n.format = 7;
    n.pages.clear();
    assert_eq!(
        n.to_json(None),
        "{\"version\":\"0.1.0\",\"format\":7,\"pid\":4321,\"understood\":false,\"pulse\":null,\"pages\":[]}\n"
    );
}

#[test]
fn json_strings_escape_quotes_backslashes_and_control_characters() {
    let mut n = note();
    n.version = "a\"b\\c\nd\u{1}é".to_string();
    n.pages.truncate(1);
    let json = n.to_json(Some(Pulse::Abandoned));
    assert_eq!(
        json,
        "{\"version\":\"a\\\"b\\\\c\\u000ad\\u0001é\",\"format\":1,\"pid\":4321,\"understood\":true,\"pulse\":\"abandoned\",\"pages\":[{\"name\":\"acpmf_physics\",\"bytes\":2048,\"mode\":\"owned\"}]}\n"
    );
}

#[test]
fn what_is_on_disk_is_missing_right_or_wrong() {
    let page = Page {
        name: "acpmf_physics".to_string(),
        bytes: 2048,
    };
    assert_eq!(on_disk(None, &page), "MISSING");
    assert_eq!(on_disk(Some(2048), &page), "2048 bytes");
    assert_eq!(on_disk(Some(0), &page), "0 bytes — SHOULD BE 2048");
}

#[test]
fn only_an_abandoned_pulse_is_unhealthy() {
    assert!(healthy(None));
    assert!(healthy(Some(Pulse::Beating)));
    assert!(healthy(Some(Pulse::Ahead)));
    assert!(!healthy(Some(Pulse::Abandoned)));
}

#[test]
fn the_header_lines_up_with_the_columns() {
    assert_eq!(
        HEADER,
        format!("  {:<32} {:>10}  {:<9} ON DISK\n", "PAGE", "BYTES", "MODE")
    );
}

#[test]
fn a_healthy_report_has_a_row_per_page() {
    let text = report(&note(), Some(Pulse::Beating), &vec![Some(2048), None]);
    let expected = format!(
        "wineshm 0.1.0 is publishing, pid 4321\n{}  {:<32} {:>10}  {:<9} {}\n  {:<32} {:>10}  {:<9} {}\n",
        HEADER,
        "acpmf_physics",
        2048,
        "owned",
        "2048 bytes",
        "acpmf_static",
        2048,
        "mirrored",
        "MISSING"
    );
    assert_eq!(text, expected);
}

#[test]
fn a_report_says_when_the_bridge_is_gone_and_the_format_is_foreign() {
    let mut n = note();
    n.format = 2;
    n.pages.truncate(1);
    let text = report(&n, Some(Pulse::Abandoned), &vec![Some(10)]);
    let expected = format!(
        "wineshm 0.1.0 is publishing, pid 4321\n  {}\n  note format 2 — this build reads 1\n{}  {:<32} {:>10}  {:<9} {}\n",
        Pulse::Abandoned.describe(),
        HEADER,
        "acpmf_physics",
        2048,
        "owned",
        "10 bytes — SHOULD BE 2048"
    );
    assert_eq!(text, expected);
}

#[test]
fn a_long_name_pushes_its_row_over_rather_than_being_cut() {
    let name = "a".repeat(40);
    let n = Note {
        version: "0.1.0".to_string(),
        format: FORMAT,
        pid: 1,
        pages: vec![(
            Page {
                name: name.clone(),
                bytes: 1,
            },
            Mode::Owned,
        )],
    };
    let text = report(&n, None, &vec![Some(1)]);
    assert!(text.ends_with(&format!("  {} {:>10}  {:<9} 1 bytes\n", name, 1, "owned")));
}
