//! Selector output interpretation, user paths, configuration defaults and
//! the atomic-write description.

use handlr::{
    AtomicFile, Config, DesktopEntry, Durability, Error, Handler, OverwriteBehavior, UserPath,
};

#[test]
fn empty_selection_is_cancelled_not_not_found() {
    let err = handlr::interpret_selection("").unwrap_err();
    assert!(matches!(err, Error::Cancelled));
    let err = handlr::interpret_selection("\n").unwrap_err();
    assert!(matches!(err, Error::Cancelled));
}

#[test]
fn selection_output_is_trimmed() {
    assert_eq!(handlr::interpret_selection("Firefox\n").unwrap(), "Firefox");
    assert_eq!(handlr::interpret_selection("mpv").unwrap(), "mpv");
}

#[test]
fn choice_maps_back_to_its_handler() {
    let pairs = vec![
        (Handler::assume_valid(String::from("a.desktop")), String::from("App A")),
        (Handler::assume_valid(String::from("b.desktop")), String::from("App B")),
    ];
    let picked = handlr::find_choice(&pairs, "App B").unwrap();
    assert_eq!(picked.name(), "b.desktop");
    assert!(handlr::find_choice(&pairs, "App C").is_none());
}

#[test]
fn config_defaults() {
    let c = Config::default();
    assert!(!c.enable_selector);
    assert_eq!(c.selector, "rofi -dmenu -p 'Open With: '");
    assert!(c.handlers.is_empty());
}

#[test]
fn terminal_emulator_is_found_by_category() {
    let plain = DesktopEntry::parse(
        "ed.desktop",
        "[Desktop Entry]\nName=Ed\nExec=ed\nCategories=Utility;\n",
    )
    .unwrap();
    let term = DesktopEntry::parse(
        "term.desktop",
        "[Desktop Entry]\nName=Term\nExec=term -e\nCategories=System;TerminalEmulator;\n",
    )
    .unwrap();
    let entries = vec![plain, term];
    let idx = handlr::find_terminal_entry(&entries).unwrap();
    assert_eq!(idx, 1);

    let none: Vec<DesktopEntry> = Vec::new();
    assert!(handlr::find_terminal_entry(&none).is_none());
}

#[test]
fn user_path_classifies_urls_and_files() {
    let url = UserPath::from_str("https://example.com/page").unwrap();
    assert_eq!(url.get_mime().unwrap().0, "x-scheme-handler/https");
    assert_eq!(url.display_string(), "https://example.com/page");

    let file = UserPath::from_str("notes.txt").unwrap();
    assert_eq!(file.display_string(), "notes.txt");
}

#[test]
fn file_url_degrades_to_a_path() {
    let p = UserPath::from_str("file:///tmp/x.txt").unwrap();
    assert_eq!(p.display_string(), "/tmp/x.txt");
}

#[test]
fn file_url_with_foreign_host_is_bad_path() {
    let err = UserPath::from_str("file://remotehost/x.txt").unwrap_err();
    assert!(matches!(err, Error::BadPath(_)));
}

#[test]
fn atomic_file_scratches_next_to_the_target() {
    let af = AtomicFile::new(
        "/tmp/some/dir/mimeapps.list",
        OverwriteBehavior::AllowOverwrite,
        Durability::DontSyncDir,
    );
    assert_eq!(af.path(), "/tmp/some/dir/mimeapps.list");
    assert_eq!(af.tmpdir(), "/tmp/some/dir");
}

#[test]
fn atomic_file_with_bare_name_scratches_in_the_current_dir() {
    let af = AtomicFile::new(
        "mimeapps.list",
        OverwriteBehavior::DisallowOverwrite,
        Durability::SyncDir,
    );
    assert_eq!(af.tmpdir(), ".");
}

#[test]
fn atomic_file_explicit_tmpdir_is_kept() {
    let af = AtomicFile::new_with_tmpdir(
        "/etc/target",
        OverwriteBehavior::AllowOverwrite,
        Durability::DontSyncDir,
        "/var/tmp",
    );
    assert_eq!(af.path(), "/etc/target");
    assert_eq!(af.tmpdir(), "/var/tmp");
}
