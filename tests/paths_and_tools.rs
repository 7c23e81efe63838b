use ys_compass::game::{Profile, Version};
use ys_compass::launch::ToolKind;
use ys_compass::system::{find_process, is_game_running};
use ys_compass::paths::{
    app_data_dir, app_dir_under, canonicalize, classify_tool, driver_present, expand_path, get_executable_name,
    replace_all_chars, resolve_path, strip_verbatim_prefix, working_dir_of,
};

#[test]
fn executable_name_after_backslashes() {
    assert_eq!(get_executable_name("C:\\Game\\Game.exe"), "Game.exe");
}

#[test]
fn executable_name_after_slashes_and_mixed() {
    assert_eq!(get_executable_name("/opt/game/bin/game"), "game");
    assert_eq!(get_executable_name("C:/Games\\Genshin/GenshinImpact.exe"), "GenshinImpact.exe");
}

#[test]
fn executable_name_without_separator_is_whole_path() {
    assert_eq!(get_executable_name("Game.exe"), "Game.exe");
    assert_eq!(get_executable_name(""), "");
    assert_eq!(get_executable_name("dir/"), "");
}

#[test]
fn expand_replaces_appdata_and_backslashes() {
    let r = expand_path("$APPDATA\\mods\\a.dll", "/home/u/.local/share/ys-compass");
    assert_eq!(r, "/home/u/.local/share/ys-compass/mods/a.dll");
}

#[test]
fn expand_leaves_other_paths_alone_but_slashes() {
    assert_eq!(expand_path("C:\\Mods\\a.dll", "X"), "C:/Mods/a.dll");
    assert_eq!(expand_path("$APPDATA$APPDATA", "d"), "dd");
    assert_eq!(expand_path("$APPDAT", "d"), "$APPDAT");
}

#[test]
fn replace_all_is_left_to_right_without_overlap() {
    let s: Vec<char> = "aaa".chars().collect();
    let pat: Vec<char> = "aa".chars().collect();
    let rep: Vec<char> = "b".chars().collect();
    let r: String = replace_all_chars(&s, &pat, &rep).into_iter().collect();
    assert_eq!(r, "ba");
}

#[test]
fn app_dir_is_under_the_data_dir() {
    assert_eq!(app_dir_under("/home/u/.local/share"), "/home/u/.local/share/ys-compass");
}

#[test]
fn tools_are_classified_by_extension() {
    assert_eq!(classify_tool("C:/Mods/a.dll", true), ToolKind::Dll);
    assert_eq!(classify_tool("C:/Tools/fps.unlock.exe", true), ToolKind::Exe);
    assert_eq!(classify_tool("C:/Mods/readme.txt", true), ToolKind::Unknown);
    assert_eq!(classify_tool("C:/Mods/noext", true), ToolKind::Unknown);
    assert_eq!(classify_tool("C:/Mods/.dll", true), ToolKind::Unknown);
    assert_eq!(classify_tool("C:/Mods/A.DLL", true), ToolKind::Unknown);
    assert_eq!(classify_tool("C:/Mods/a.dll", false), ToolKind::Missing);
}

#[test]
fn verbatim_prefix_is_stripped() {
    assert_eq!(strip_verbatim_prefix("\\\\?\\C:\\Game\\Game.exe"), "C:\\Game\\Game.exe");
    assert_eq!(strip_verbatim_prefix("/usr/bin/game"), "/usr/bin/game");
    assert_eq!(strip_verbatim_prefix("\\\\?"), "\\\\?");
}

#[test]
fn canonical_form_of_current_directory_is_absolute() {
    let r = canonicalize(".").unwrap();
    assert!(r.starts_with('/'));
    assert_ne!(r, ".");
    assert_eq!(r, r.trim());
}

#[test]
fn canonicalize_fails_where_nothing_exists() {
    assert_eq!(canonicalize("/definitely/not/here/at/all"), None);
}

#[test]
fn working_dir_drops_the_last_component() {
    assert_eq!(working_dir_of("C:/Tools/fps.exe"), "C:/Tools");
    assert_eq!(working_dir_of("C:\\Tools\\x\\fps.exe"), "C:\\Tools\\x");
    assert_eq!(working_dir_of("fps.exe"), "");
}

#[test]
fn driver_is_found_by_name_prefix() {
    let names = vec!["ntoskrnl.exe".to_string(), "HoYoKProtect.sys".to_string()];
    assert!(driver_present(&names, "HoYoKProtect"));
    assert!(!driver_present(&names, "mhyprot"));
    assert!(!driver_present(&[].to_vec(), "HoYoKProtect"));
    assert!(driver_present(&names, ""));
}

#[test]
fn data_dir_resolution_ends_in_the_launcher_directory() {
    if let Some(dir) = app_data_dir() {
        assert!(dir.ends_with("/ys-compass"));
        let r = resolve_path("$APPDATA\\mods\\a.dll").unwrap();
        assert_eq!(r, format!("{dir}/mods/a.dll"));
    }
    assert_eq!(resolve_path("C:\\x.dll").map(|_| ()), app_data_dir().map(|_| ()));
}

#[test]
fn absent_processes_are_not_running() {
    assert!(!find_process("no-such-process-name-for-sure.exe"));
    let profile = Profile {
        version: Version { version: "OSRELWin4.0.1".to_string(), path: "C:\\Game\\NoSuchGame-7f3a.exe".to_string() },
        ..Default::default()
    };
    assert!(!is_game_running(&profile));
}
