use wineshm::recipe::parse;

#[test]
fn the_example_in_the_documentation_parses() {
    let recipe = parse(
        "# Assetto Corsa\n\
         acpmf_physics:2048\n\
         acpmf_graphics:2048\n\
         acpmf_static:2048\n\
         acpmf_crewchief:15660\n\
         \n\
         heartbeat acpmf_physics\n",
    )
    .expect("parses");
    assert_eq!(recipe.pages.len(), 4);
    assert_eq!(recipe.heartbeat.as_deref(), Some("acpmf_physics"));
    assert_eq!(recipe.pages[3].bytes, 15660);
}

#[test]
fn a_size_may_carry_the_same_suffixes_the_flag_takes() {
    let recipe = parse("a:16K\nb:1M\n").expect("parses");
    assert_eq!(recipe.pages[0].bytes, 16 * 1024);
    assert_eq!(recipe.pages[1].bytes, 1024 * 1024);
}

#[test]
fn comments_and_blank_lines_are_ignored_wherever_they_are() {
    let recipe = parse(
        "\n\
         # a whole-line comment\n\
         a:16   # and one after a page\n\
         \n   \n\
         b:32\n",
    )
    .expect("parses");
    assert_eq!(recipe.pages.len(), 2);
    assert_eq!(recipe.pages[1].name, "b");
}

#[test]
fn a_bad_line_says_which_line_it_was() {
    let bad = parse("a:16\nb:16\nc:nonsense\n").expect_err("refused");
    assert_eq!(bad.line, 3);
    assert!(bad.why.contains("nonsense"), "{}", bad.message());
    assert!(bad.message().starts_with("line 3:"), "{}", bad.message());
}

#[test]
fn a_page_asked_for_twice_is_refused_with_its_line() {
    let bad = parse("a:16\nb:16\na:32\n").expect_err("refused");
    assert_eq!(bad.line, 3);
    assert!(bad.why.contains('a'), "{}", bad.message());
}

#[test]
fn a_heartbeat_that_names_no_published_block_is_refused() {
    let bad = parse("a:16\nheartbeat b\n").expect_err("refused");
    assert!(bad.why.contains('b'), "{}", bad.message());
}

#[test]
fn a_heartbeat_with_nothing_after_it_is_refused() {
    let bad = parse("a:16\nheartbeat\n").expect_err("refused");
    assert!(bad.why.contains("heartbeat"), "{}", bad.message());
}

#[test]
fn two_heartbeats_are_refused_rather_than_one_winning() {
    let bad = parse("a:16\nb:16\nheartbeat a\nheartbeat b\n").expect_err("refused");
    assert_eq!(bad.line, 4);
}

#[test]
fn a_file_with_nothing_in_it_is_refused() {
    for empty in ["", "\n\n\n", "# only a comment\n"] {
        let bad = parse(empty).expect_err("refused");
        assert!(bad.why.contains("no pages"), "{}", bad.message());
    }
}

#[test]
fn a_name_containing_a_colon_survives() {
    let recipe = parse("Local:thing:2048\n").expect("parses");
    assert_eq!(recipe.pages[0].name, "Local:thing");
    assert_eq!(recipe.pages[0].bytes, 2048);
}

#[test]
fn a_page_named_after_the_directive_is_still_a_page() {
    let recipe = parse("heartbeatish:16\nheartbeat heartbeatish\n").expect("parses");
    assert_eq!(recipe.pages.len(), 1);
    assert_eq!(recipe.pages[0].name, "heartbeatish");
    assert_eq!(recipe.heartbeat.as_deref(), Some("heartbeatish"));
}

#[test]
fn carriage_returns_from_a_windows_editor_do_not_leak_into_a_name() {
    let recipe = parse("a:16\r\nb:32\r\nheartbeat a\r\n").expect("parses");
    assert_eq!(recipe.pages[0].name, "a");
    assert_eq!(recipe.heartbeat.as_deref(), Some("a"));
}
