use wineshm::{version_in_binary, version_marker, VERSION, VERSION_MARKER_PREFIX};

#[test]
fn the_version_can_be_found_in_a_blob_of_bytes() {
    let mut blob = b"....some other content....".to_vec();
    blob.extend_from_slice(&version_marker());
    blob.extend_from_slice(b"....trailing....");

    assert_eq!(version_in_binary(&blob).as_deref(), Some(VERSION));
}

#[test]
fn the_version_read_back_is_exactly_what_was_written() {
    let mut blob = b"prefix".to_vec();
    blob.extend_from_slice(b"WINESHM-VERSION=1.2.3;and then some trailing bytes");
    let found = version_in_binary(&blob).expect("a version");
    assert_eq!(found, "1.2.3");
    assert!(!found.is_empty());
    assert!(!found.contains(';'));
}

#[test]
fn a_binary_without_the_marker_reports_nothing_rather_than_guessing() {
    assert_eq!(version_in_binary(b"no marker in here"), None);
    assert_eq!(version_in_binary(b""), None);
}

#[test]
fn a_marker_that_never_ends_is_not_a_version() {
    let mut blob = VERSION_MARKER_PREFIX.as_bytes().to_vec();
    blob.extend_from_slice(b"0.1.0 and then nothing");
    assert_eq!(version_in_binary(&blob), None);
}

#[test]
fn the_marker_says_the_same_thing_the_crate_does() {
    assert_eq!(
        version_in_binary(&version_marker()).as_deref(),
        Some(VERSION),
        "the marker and the crate version have drifted"
    );
}

#[test]
fn the_first_marker_is_the_one_read() {
    let mut blob = Vec::new();
    blob.extend_from_slice(b"WINESHM-VERSION=1.2.3;");
    blob.extend_from_slice(b"WINESHM-VERSION=9.9.9;");
    assert_eq!(version_in_binary(&blob).as_deref(), Some("1.2.3"));
}

#[test]
fn a_version_that_is_not_text_is_not_reported() {
    let mut blob = VERSION_MARKER_PREFIX.as_bytes().to_vec();
    blob.extend_from_slice(&[0xff, 0xfe, b';']);
    assert_eq!(version_in_binary(&blob), None);
    assert_eq!(version_marker(), b"WINESHM-VERSION=0.1.0;".to_vec());
}
