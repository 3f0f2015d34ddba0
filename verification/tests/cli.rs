use wineshm::cli::{check, parse, pass_on, take_recipe, Action, Options, HELP};
use wineshm::recipe::Recipe;
use wineshm::{Duration, Page};

fn parse_of(args: &[&str]) -> Result<Options, String> {
    parse(args.iter().map(|s| (*s).to_string()).collect())
}

#[test]
fn a_preset_fills_the_page_list() {
    let options = parse_of(&["--preset", "assetto-corsa"]).expect("parses");
    assert_eq!(options.action, Action::Run);
    assert_eq!(options.pages.len(), 4);
    assert!(options.pages.iter().any(|p| p.name == "acpmf_physics"));
}

#[test]
fn pages_can_be_given_one_at_a_time() {
    let options = parse_of(&["--page", "a:16", "--page", "b:32"]).expect("parses");
    assert_eq!(options.pages.len(), 2);
    assert_eq!(options.pages[1].bytes, 32);
}

#[test]
fn a_preset_and_extra_pages_add_up() {
    let options = parse_of(&["--preset", "assetto-corsa", "--page", "extra:64"]).expect("parses");
    assert_eq!(options.pages.len(), 5);
}

#[test]
fn both_ways_of_writing_a_flag_work() {
    let spaced = parse_of(&["--page", "a:16", "--dir", "/tmp"]).expect("spaced");
    let joined = parse_of(&["--page=a:16", "--dir=/tmp"]).expect("joined");
    assert_eq!(spaced, joined);
}

#[test]
fn help_and_version_win_over_everything_else() {
    assert_eq!(parse_of(&["--help"]).map(|o| o.action), Ok(Action::Help));
    assert_eq!(parse_of(&["-h"]).map(|o| o.action), Ok(Action::Help));
    assert_eq!(parse_of(&["-V"]).map(|o| o.action), Ok(Action::Version));
    assert!(parse_of(&["--help"]).is_ok());
}

#[test]
fn verify_does_not_need_pages_either() {
    let options = parse_of(&["--verify"]).expect("parses");
    assert_eq!(options.action, Action::Verify);
    assert!(options.pages.is_empty());
}

#[test]
fn running_with_nothing_to_publish_is_refused_with_a_way_forward() {
    let why = parse_of(&[]).expect_err("refused");
    assert!(why.contains("--preset"), "{why}");
    assert!(why.contains("--page"), "{why}");
}

#[test]
fn a_preset_switches_on_its_own_stale_data_protection() {
    let options = parse_of(&["--preset", "assetto-corsa"]).expect("parses");
    assert_eq!(options.heartbeat.as_deref(), Some("acpmf_physics"));

    let options = parse_of(&["--preset", "rfactor2"]).expect("parses");
    assert_eq!(
        options.heartbeat.as_deref(),
        Some("$rFactor2SMMP_Telemetry$")
    );
}

#[test]
fn a_heartbeat_given_by_hand_overrides_the_presets() {
    for args in [
        ["--preset", "assetto-corsa", "--heartbeat", "acpmf_graphics"],
        ["--heartbeat", "acpmf_graphics", "--preset", "assetto-corsa"],
    ] {
        let options = parse_of(&args).expect("parses");
        assert_eq!(options.heartbeat.as_deref(), Some("acpmf_graphics"));
    }
}

#[test]
fn pages_without_a_preset_get_no_heartbeat_of_their_own() {
    let options = parse_of(&["--page", "a:16"]).expect("parses");
    assert_eq!(options.heartbeat, None);
}

#[test]
fn a_preset_nobody_wrote_lists_the_ones_that_exist() {
    let why = parse_of(&["--preset", "gran-turismo"]).expect_err("refused");
    assert!(why.contains("assetto-corsa"), "{why}");
    assert!(why.contains("rfactor2"), "{why}");
}

#[test]
fn a_flag_that_needs_a_value_and_has_none_says_so() {
    for flag in ["--page", "--preset", "--dir", "--quick", "--slowest"] {
        let why = parse_of(&[flag]).expect_err("refused");
        assert!(why.contains(flag), "{flag}: {why}");
    }
}

#[test]
fn a_page_that_makes_no_sense_names_itself_in_the_refusal() {
    let why = parse_of(&["--page", "nonsense"]).expect_err("refused");
    assert!(why.contains("nonsense"), "{why}");
}

#[test]
fn an_unknown_flag_is_refused_rather_than_ignored() {
    let why = parse_of(&["--turbo"]).expect_err("refused");
    assert!(why.contains("--turbo"), "{why}");
    assert!(why.contains("--help"), "{why}");
}

#[test]
fn the_same_page_twice_is_refused() {
    let why = parse_of(&["--page", "a:16", "--page", "a:32"]).expect_err("refused");
    assert!(why.contains('a'), "{why}");

    let why = parse_of(&["--preset", "ac", "--page", "acpmf_physics:2048"]).expect_err("refused");
    assert!(why.contains("acpmf_physics"), "{why}");
}

#[test]
fn the_pace_can_be_set_and_is_in_milliseconds() {
    let options = parse_of(&["--page", "a:16", "--quick", "2", "--slowest", "100"]).expect("parses");
    assert_eq!(options.quick, Duration::from_millis(2));
    assert_eq!(options.slowest, Duration::from_millis(100));
}

#[test]
fn a_pace_that_is_not_a_number_says_which_flag() {
    let why = parse_of(&["--page", "a:16", "--quick", "fast"]).expect_err("refused");
    assert!(why.contains("--quick"), "{why}");
    assert!(why.contains("fast"), "{why}");
}

#[test]
fn the_defaults_are_the_ones_the_help_promises() {
    let options = parse_of(&["--page", "a:16"]).expect("parses");
    assert_eq!(options.dir, "/dev/shm");
    assert_eq!(options.quick, Duration::from_millis(4));
    assert_eq!(options.slowest, Duration::from_millis(64));
    assert!(!options.quiet);

    assert!(HELP.contains("/dev/shm"), "the help names another default");
    assert!(HELP.contains("default: 4"), "{HELP}");
    assert!(HELP.contains("default: 64"), "{HELP}");
}

#[test]
fn the_help_names_every_preset_that_exists() {
    for name in wineshm::page::PRESETS {
        assert!(HELP.contains(name), "the help does not mention {name}");
    }
}

#[test]
fn quiet_is_off_until_it_is_asked_for() {
    assert!(!parse_of(&["--page", "a:16"]).expect("parses").quiet);
    assert!(
        parse_of(&["--page", "a:16", "--quiet"])
            .expect("parses")
            .quiet
    );
}

#[test]
fn a_recipe_file_defers_the_check_that_there_is_anything_to_publish() {
    let options = parse_of(&["--pages-from", "somewhere.txt"]).expect("parses");
    assert!(options.pages.is_empty());
    assert_eq!(options.recipes.len(), 1);

    assert!(parse_of(&[]).is_err());
}

#[test]
fn a_heartbeat_for_a_block_a_file_will_publish_is_not_refused_early() {
    let options = parse_of(&["--pages-from", "f.txt", "--heartbeat", "later"]).expect("parses");
    assert_eq!(options.heartbeat.as_deref(), Some("later"));
}

#[test]
fn the_check_still_catches_it_once_the_file_is_in() {
    let mut options = parse_of(&["--pages-from", "f.txt", "--heartbeat", "absent"]).expect("ok");
    take_recipe(
        &mut options,
        Recipe {
            pages: vec![Page::parse("a:16").expect("a page")],
            heartbeat: None,
        },
    );
    let why = check(&options).expect_err("refused");
    assert!(why.contains("absent"), "{why}");
}

#[test]
fn a_heartbeat_on_the_command_line_beats_the_files() {
    let mut options = parse_of(&["--pages-from", "f.txt", "--heartbeat", "mine"]).expect("ok");
    take_recipe(
        &mut options,
        Recipe {
            pages: vec![
                Page::parse("mine:16").expect("a page"),
                Page::parse("theirs:16").expect("a page"),
            ],
            heartbeat: Some("theirs".to_string()),
        },
    );
    assert_eq!(options.heartbeat.as_deref(), Some("mine"));
    assert!(check(&options).is_ok());
}

#[test]
fn a_file_brings_its_own_heartbeat_when_nothing_else_named_one() {
    let mut options = parse_of(&["--pages-from", "f.txt"]).expect("ok");
    take_recipe(
        &mut options,
        Recipe {
            pages: vec![Page::parse("beat:16").expect("a page")],
            heartbeat: Some("beat".to_string()),
        },
    );
    assert_eq!(options.heartbeat.as_deref(), Some("beat"));
}

#[test]
fn a_page_a_preset_already_has_is_caught_after_the_file_is_read() {
    let mut options = parse_of(&["--preset", "ac", "--pages-from", "f.txt"]).expect("ok");
    take_recipe(
        &mut options,
        Recipe {
            pages: vec![Page::parse("acpmf_physics:2048").expect("a page")],
            heartbeat: None,
        },
    );
    let why = check(&options).expect_err("refused");
    assert!(why.contains("acpmf_physics"), "{why}");
}

#[test]
fn the_help_mentions_every_flag_the_parser_takes() {
    for flag in [
        "--appid",
        "--exe",
        "--preset",
        "--page",
        "--pages-from",
        "--dir",
        "--heartbeat",
        "--blank-after",
        "--quick",
        "--slowest",
        "--probe",
        "--watch",
        "--verify",
        "--json",
        "--quiet",
    ] {
        assert!(HELP.contains(flag), "the help does not mention {flag}");
        if let Err(why) = parse_of(&[flag]) {
            assert!(
                !why.contains("is not a flag this knows"),
                "the help documents {flag} and the parser does not take it"
            );
        }
    }
}

#[test]
fn a_directory_of_your_own_is_taken() {
    let options = parse_of(&["--page", "a:16", "--dir", "/tmp/here"]).expect("parses");
    assert_eq!(options.dir, "/tmp/here");
}

#[test]
fn every_refusal_reads_exactly() {
    assert_eq!(parse_of(&["--page"]), Err("--page needs a value".to_string()));
    assert_eq!(
        parse_of(&["--turbo=1"]),
        Err("--turbo is not a flag this knows; try --help".to_string())
    );
    assert_eq!(
        parse_of(&["--page", "a:16", "--quick", "fast"]),
        Err("--quick wants a number of milliseconds, not \"fast\"".to_string())
    );
    assert_eq!(
        parse_of(&["--appid", "x"]),
        Err("--appid wants Steam's number for the game, not \"x\"".to_string())
    );
    assert_eq!(
        parse_of(&["--preset", "gt"]),
        Err("no preset called \"gt\" — there is assetto-corsa, rfactor2".to_string())
    );
    assert_eq!(
        parse_of(&["--page", "a:16", "--page", "a:32"]),
        Err("a was asked for more than once".to_string())
    );
    assert_eq!(
        parse_of(&["--page", "a:16", "--heartbeat", "b"]),
        Err("--heartbeat b is not one of the pages being published".to_string())
    );
    assert_eq!(
        parse_of(&[]),
        Err("nothing to publish — give --preset, --pages-from or at least one --page".to_string())
    );
    assert_eq!(
        parse_of(&["--page", "a"]),
        Err("--page a: expected NAME:SIZE, with a colon between them".to_string())
    );
}

#[test]
fn launching_takes_the_app_id_and_still_needs_pages() {
    let options = parse_of(&["--appid", " 244210 ", "--preset", "ac"]).expect("parses");
    assert_eq!(options.action, Action::Launch { app_id: 244210 });
    assert!(parse_of(&["--appid", "244210"]).is_err());
    assert!(parse_of(&["--appid", "4294967296", "--page", "a:1"]).is_err());
}

#[test]
fn probing_collects_names_and_needs_no_pages() {
    let options = parse_of(&["--probe", "one", "--probe=two"]).expect("parses");
    assert_eq!(options.action, Action::Probe);
    assert_eq!(options.probes, vec!["one".to_string(), "two".to_string()]);
}

#[test]
fn the_other_flags_land_where_they_say() {
    let options = parse_of(&[
        "--page",
        "a:1",
        "--json",
        "--exe",
        "C:\\w.exe",
        "--blank-after",
        "250",
        "--watch",
    ])
    .expect("parses");
    assert!(options.json);
    assert_eq!(options.exe.as_deref(), Some("C:\\w.exe"));
    assert_eq!(options.blank_after, Duration::from_millis(250));
    assert_eq!(options.action, Action::Watch);
}

#[test]
fn help_stops_reading_at_once() {
    let options = parse_of(&["--page", "a:1", "--help", "--turbo"]).expect("parses");
    assert_eq!(options.action, Action::Help);
    assert_eq!(options.pages.len(), 1);
}

#[test]
fn pages_handed_on_as_flags_come_back_as_they_were() {
    let pages = vec![
        Page::parse("acpmf_physics:2048").expect("a page"),
        Page::parse("Session:12:64").expect("a page"),
    ];
    let mut args = Vec::new();
    for page in &pages {
        args.push("--page".to_string());
        args.push(format!("{}:{}", page.name, page.bytes));
    }
    args.push("--dir".to_string());
    args.push("/tmp/pages".to_string());
    let mut expected = Options::default();
    expected.pages = pages;
    expected.dir = "/tmp/pages".to_string();
    assert_eq!(parse(args), Ok(expected));
}

#[test]
fn the_pages_are_handed_on_as_flags_a_copy_reads_back() {
    let options = parse_of(&["--page", "a:16", "--page", "b:2k", "--dir", "/tmp/x", "--quiet"])
        .expect("parses");
    let args = pass_on(&options);
    assert_eq!(
        args,
        vec!["--page", "a:16", "--page", "b:2048", "--dir", "/tmp/x", "--quiet"]
    );
    let again = parse(args).expect("reads back");
    assert_eq!(again.pages, options.pages);
    assert_eq!(again.dir, options.dir);
    assert!(again.quiet);
}

#[test]
fn a_talkative_run_is_handed_on_without_quiet() {
    let options = parse_of(&["--page", "a:16"]).expect("parses");
    assert_eq!(pass_on(&options), vec!["--page", "a:16", "--dir", "/dev/shm"]);
}
