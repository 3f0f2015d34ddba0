use wineshm::launch::{
    how_to_launch, libraries_from, library_paths, prefix_for, prefix_in, steam_roots_under,
    wine_from_config_info, wine_under, Launch,
};

#[test]
fn every_layout_steam_ships_in_is_looked_at() {
    let roots = steam_roots_under("/home/someone");
    for expected in [
        "/home/someone/.steam/steam",
        "/home/someone/.local/share/Steam",
        "/home/someone/.var/app/com.valvesoftware.Steam/.local/share/Steam",
        "/home/someone/.var/app/com.valvesoftware.Steam/data/Steam",
        "/home/someone/snap/steam/common/.local/share/Steam",
    ] {
        assert!(roots.iter().any(|p| p == expected), "missing {expected}");
    }
}

#[test]
fn a_library_file_gives_up_its_paths() {
    let vdf = r#"
"libraryfolders"
{
    "0"
    {
        "path"      "/home/someone/.local/share/Steam"
        "label"     ""
    }
    "1"
    {
        "path"      "/run/media/deck/SDCARD/steamlibrary"
    }
}
"#;
    assert_eq!(
        library_paths(vdf),
        vec![
            "/home/someone/.local/share/Steam".to_string(),
            "/run/media/deck/SDCARD/steamlibrary".to_string(),
        ]
    );
}

/// Reading the files is the program's part; with the text in hand, a root
/// whose file could not be read is still one library.
#[test]
fn a_library_file_that_is_not_there_is_not_an_error() {
    assert_eq!(
        libraries_from(&vec!["/not/here".to_string()], &vec![None]).len(),
        1
    );
}

#[test]
fn junk_in_a_library_file_yields_no_paths_rather_than_nonsense() {
    assert!(library_paths("not a vdf at all").is_empty());
    assert!(library_paths("\"path\"").is_empty());
    assert!(library_paths("\"path\"  \"unterminated").is_empty());
    assert!(library_paths("").is_empty());
}

#[test]
fn the_prefix_path_is_where_steam_puts_it() {
    assert_eq!(
        prefix_in("/lib", 244210),
        "/lib/steamapps/compatdata/244210/pfx"
    );
}

#[test]
fn the_proton_that_built_a_prefix_is_read_out_of_it() {
    let info = "9.0-203\n/steam/common/Proton 9.0/files/share/fonts/\n/steam/lib/\n";
    assert_eq!(
        wine_from_config_info(info),
        Some("/steam/common/Proton 9.0/files/bin/wine".to_string())
    );
}

#[test]
fn a_config_info_that_says_nothing_useful_is_not_guessed_at() {
    assert_eq!(wine_from_config_info(""), None);
    assert_eq!(wine_from_config_info("9.0-203\n"), None);
    assert_eq!(wine_from_config_info("9.0-203\n/\n"), None);
}

#[test]
fn launching_through_proton_sets_the_prefix_and_runs_the_exe() {
    let launch = Launch::Proton {
        wine: "/steam/Proton/files/bin/wine".to_string(),
        prefix: "/steam/compatdata/244210/pfx".to_string(),
    };
    let exe = "/home/someone/pro-engineer/wineshm.exe";
    let (program, args) = launch.command(exe);

    assert_eq!(program, "/steam/Proton/files/bin/wine");
    assert_eq!(args, vec![exe.to_string()]);
    assert!(
        launch
            .env()
            .iter()
            .any(|(k, v)| k == "WINEPREFIX" && v == "/steam/compatdata/244210/pfx"),
        "{:?}",
        launch.env()
    );
    assert_eq!(
        Launch::working_dir(exe).as_deref(),
        Some("/home/someone/pro-engineer")
    );
}

#[test]
fn falling_back_speaks_protontricks_command_line() {
    let launch = Launch::Protontricks { app_id: 244210 };
    let exe = "/somewhere/wineshm.exe";
    let (program, args) = launch.command(exe);

    assert_eq!(program, "protontricks-launch");
    assert_eq!(
        args,
        vec![
            "--appid".to_string(),
            "244210".to_string(),
            exe.to_string()
        ]
    );
    assert!(
        !launch.env().iter().any(|(k, _)| k == "WINEPREFIX"),
        "protontricks finds the prefix itself"
    );
}

#[test]
fn the_wine_workarounds_are_set_on_both_routes() {
    for launch in [
        Launch::Protontricks { app_id: 1 },
        Launch::Proton {
            wine: "/w".to_string(),
            prefix: "/p".to_string(),
        },
    ] {
        let env = launch.env();
        assert!(env.iter().any(|(k, _)| k == "DBUS_FATAL_WARNINGS"));
        assert!(env.iter().any(|(k, _)| k == "WINEDLLOVERRIDES"));
    }
}

#[test]
fn a_program_at_the_root_has_no_folder_to_sit_in() {
    assert_eq!(Launch::working_dir("/"), None);
}

#[test]
fn each_root_is_followed_by_the_libraries_its_file_names() {
    let roots = vec!["/a".to_string(), "/b".to_string()];
    let texts = vec![
        Some("\"path\" \"/card\"\n\"path\" \"/card\"\n".to_string()),
        None,
    ];
    assert_eq!(
        libraries_from(&roots, &texts),
        vec!["/a".to_string(), "/card".to_string(), "/b".to_string()]
    );
}

#[test]
fn the_first_library_with_the_prefix_in_it_wins() {
    let libraries = vec!["/one".to_string(), "/two".to_string(), "/three".to_string()];
    assert_eq!(
        prefix_for(7, &libraries, &vec![false, true, true]),
        Some("/two/steamapps/compatdata/7/pfx".to_string())
    );
    assert_eq!(prefix_for(7, &libraries, &vec![false, false, false]), None);
}

#[test]
fn proton_is_used_only_when_both_halves_were_found() {
    assert_eq!(
        how_to_launch(5, Some("/p".to_string()), Some("/w".to_string())),
        Launch::Proton {
            wine: "/w".to_string(),
            prefix: "/p".to_string()
        }
    );
    assert_eq!(
        how_to_launch(5, Some("/p".to_string()), None),
        Launch::Protontricks { app_id: 5 }
    );
    assert_eq!(how_to_launch(5, None, None), Launch::Protontricks { app_id: 5 });
}

#[test]
fn the_native_layouts_come_first_and_each_once() {
    let roots = steam_roots_under("/h/");
    assert_eq!(roots.len(), 6);
    assert_eq!(roots[0], "/h/.steam/steam");
    assert_eq!(roots[1], "/h/.steam/root");
    assert_eq!(wine_under("/x/files"), "/x/files/bin/wine");
}
