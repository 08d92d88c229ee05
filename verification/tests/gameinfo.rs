use l4addon_enforcer::bytes::{join_lines, split_lines};
use l4addon_enforcer::gameinfo::{
    game_line, install_lines, list_lines, rename_lines, uninstall_lines, valid_addon_name,
    InstallOutcome, RenameOutcome, UninstallOutcome,
};

fn lines_of(strs: &[&str]) -> Vec<Vec<u8>> {
    strs.iter().map(|s| s.as_bytes().to_vec()).collect()
}

fn gameinfo_lines() -> Vec<Vec<u8>> {
    lines_of(&[
        "\"GameInfo\"",
        "{",
        "\tFileSystem",
        "\t{",
        "\t\tSearchPaths",
        "\t\t{",
        "\t\t\tGame\t\t\t\tupdate",
        "\t\t\tGame\t\t\t\tleft4dead2_dlc3",
        "\t\t\tGame\t\t\t\tleft4dead2_dlc2",
        "\t\t\tGame\t\t\t\tleft4dead2_dlc1",
        "\t\t\tGame\t\t\t\tleft4dead2",
        "\t\t\tGame\t\t\t\thl2",
        "\t\t}",
        "\t}",
        "}",
    ])
}

#[test]
fn install_inserts_above_the_update_line() {
    let lines = gameinfo_lines();
    match install_lines(&lines, &b"mymod".to_vec(), false) {
        InstallOutcome::Installed(out) => {
            assert_eq!(out.len(), lines.len() + 1);
            assert_eq!(out[6], b"\t\t\tGame\t\t\t\tmymod".to_vec());
            assert_eq!(out[7], b"\t\t\tGame\t\t\t\tupdate".to_vec());
        }
        InstallOutcome::Updated => panic!("expected an insertion"),
    }
}

#[test]
fn install_without_update_line_inserts_first() {
    let lines = lines_of(&["a", "b"]);
    match install_lines(&lines, &b"mymod".to_vec(), false) {
        InstallOutcome::Installed(out) => {
            assert_eq!(out[0], b"\t\t\tGame\t\t\t\tmymod".to_vec());
            assert_eq!(out.len(), 3);
        }
        InstallOutcome::Updated => panic!("expected an insertion"),
    }
}

#[test]
fn install_of_listed_addon_with_existing_directory_is_an_update() {
    let mut lines = gameinfo_lines();
    lines.insert(6, game_line(&b"mymod".to_vec()));
    match install_lines(&lines, &b"mymod".to_vec(), true) {
        InstallOutcome::Updated => {}
        InstallOutcome::Installed(_) => panic!("expected an update"),
    }
}

#[test]
fn install_of_listed_addon_without_directory_inserts_again() {
    let mut lines = gameinfo_lines();
    lines.insert(6, game_line(&b"mymod".to_vec()));
    match install_lines(&lines, &b"mymod".to_vec(), false) {
        InstallOutcome::Installed(out) => assert_eq!(out.len(), lines.len() + 1),
        InstallOutcome::Updated => panic!("expected an insertion"),
    }
}

#[test]
fn uninstall_removes_the_addon_line() {
    let mut lines = gameinfo_lines();
    lines.insert(6, game_line(&b"mymod".to_vec()));
    match uninstall_lines(&lines, &b"mymod".to_vec()) {
        UninstallOutcome::Removed(out) => {
            assert_eq!(out, gameinfo_lines());
        }
        _ => panic!("expected a removal"),
    }
}

#[test]
fn uninstall_of_absent_addon_is_not_found() {
    let lines = gameinfo_lines();
    assert!(matches!(
        uninstall_lines(&lines, &b"nosuch".to_vec()),
        UninstallOutcome::NotFound
    ));
}

#[test]
fn uninstall_refuses_core_components_and_empty_names() {
    let lines = gameinfo_lines();
    assert!(matches!(
        uninstall_lines(&lines, &b"hl2".to_vec()),
        UninstallOutcome::Excluded
    ));
    assert!(matches!(
        uninstall_lines(&lines, &b"left4dead2_dlc1".to_vec()),
        UninstallOutcome::Excluded
    ));
    assert!(matches!(
        uninstall_lines(&lines, &b"".to_vec()),
        UninstallOutcome::EmptyName
    ));
}

#[test]
fn rename_replaces_the_line_in_place() {
    let mut lines = gameinfo_lines();
    lines.insert(6, game_line(&b"oldname".to_vec()));
    match rename_lines(&lines, &b"oldname".to_vec(), &b"newname".to_vec()) {
        RenameOutcome::Renamed(out) => {
            assert_eq!(out[6], b"\t\t\tGame\t\t\t\tnewname".to_vec());
            assert_eq!(out.len(), lines.len());
        }
        _ => panic!("expected a rename"),
    }
}

#[test]
fn rename_refusals() {
    let mut lines = gameinfo_lines();
    lines.insert(6, game_line(&b"oldname".to_vec()));
    lines.insert(6, game_line(&b"taken".to_vec()));
    assert!(matches!(
        rename_lines(&lines, &b"oldname".to_vec(), &b"taken".to_vec()),
        RenameOutcome::NewExists
    ));
    assert!(matches!(
        rename_lines(&lines, &b"absent".to_vec(), &b"fresh".to_vec()),
        RenameOutcome::CurrentNotFound
    ));
    assert!(matches!(
        rename_lines(&lines, &b"hl2".to_vec(), &b"fresh".to_vec()),
        RenameOutcome::ExcludedCurrent
    ));
    assert!(matches!(
        rename_lines(&lines, &b"oldname".to_vec(), &b"hl2x".to_vec()),
        RenameOutcome::ExcludedNew
    ));
    assert!(matches!(
        rename_lines(&lines, &b"".to_vec(), &b"fresh".to_vec()),
        RenameOutcome::EmptyNames
    ));
    assert!(matches!(
        rename_lines(&lines, &b"oldname".to_vec(), &b"".to_vec()),
        RenameOutcome::EmptyNames
    ));
}

#[test]
fn listing_shows_addons_inside_the_searchpaths_block() {
    let mut lines = gameinfo_lines();
    lines.insert(6, game_line(&b"mymod".to_vec()));
    let out = list_lines(&lines);
    // core components are excluded; "left4dead2" alone is no marker, so the
    // stock line for it is listed alongside the addon
    assert_eq!(out, vec![b"\tmymod".to_vec(), b"\tleft4dead2".to_vec()]);
}

#[test]
fn listing_ignores_game_lines_outside_the_block() {
    let lines = lines_of(&["\t\t\tGame\t\t\t\toutside", "SearchPaths", "{", "}"]);
    let out = list_lines(&lines);
    assert!(out.is_empty());
}

#[test]
fn listing_without_searchpaths_is_empty() {
    let lines = lines_of(&["\t\t\tGame\t\t\t\tmymod"]);
    assert!(list_lines(&lines).is_empty());
}

#[test]
fn name_validation() {
    assert!(valid_addon_name("my_mod-2"));
    assert!(valid_addon_name(""));
    assert!(!valid_addon_name("my mod"));
    assert!(!valid_addon_name("my\tmod"));
    assert!(!valid_addon_name("my\u{00A0}mod"));
    assert!(!valid_addon_name("a/b"));
    assert!(!valid_addon_name("a\\b"));
    assert!(!valid_addon_name("a:b"));
    assert!(!valid_addon_name("a*b"));
    assert!(!valid_addon_name("a?b"));
    assert!(!valid_addon_name("a\"b"));
    assert!(!valid_addon_name("a<b"));
    assert!(!valid_addon_name("a>b"));
    assert!(!valid_addon_name("a|b"));
}

#[test]
fn install_roundtrip_through_file_content() {
    let content = b"\t\tSearchPaths\n\t\t{\n\t\t\tGame\t\t\t\tupdate\n\t\t\tGame\t\t\t\thl2\n\t\t}".to_vec();
    let lines = split_lines(&content);
    match install_lines(&lines, &b"mymod".to_vec(), false) {
        InstallOutcome::Installed(out) => {
            let written = join_lines(&out);
            assert_eq!(
                written,
                b"\t\tSearchPaths\n\t\t{\n\t\t\tGame\t\t\t\tmymod\n\t\t\tGame\t\t\t\tupdate\n\t\t\tGame\t\t\t\thl2\n\t\t}".to_vec()
            );
        }
        InstallOutcome::Updated => panic!("expected an insertion"),
    }
}

#[test]
fn split_and_join_lines() {
    let content = b"a\r\nb\nc".to_vec();
    let lines = split_lines(&content);
    assert_eq!(lines, vec![b"a".to_vec(), b"b".to_vec(), b"c".to_vec()]);
    assert_eq!(join_lines(&lines), b"a\nb\nc".to_vec());
    // a trailing newline yields no empty final line, as str::lines has it
    assert_eq!(split_lines(&b"a\n".to_vec()), vec![b"a".to_vec()]);
    assert_eq!(split_lines(&b"".to_vec()), Vec::<Vec<u8>>::new());
    // a lone carriage return at the end of the content is kept
    assert_eq!(split_lines(&b"a\r".to_vec()), vec![b"a\r".to_vec()]);
}
