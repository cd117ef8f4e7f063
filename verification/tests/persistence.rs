//! The override file format: serializing, parsing, and the round trip.

use handlr::{Error, Handler, Mime, MimeApps, SystemApps};

fn mime_of(s: &str) -> Mime {
    Mime::from_str(s).unwrap()
}

fn handler_of(s: &str) -> Handler {
    Handler::assume_valid(String::from(s))
}

#[test]
fn serialize_writes_both_sections_sorted() {
    let mut apps = MimeApps::new(SystemApps::new());
    apps.set_handler(mime_of("video/mp4"), handler_of("mpv.desktop"));
    apps.set_handler(mime_of("image/png"), handler_of("eog.desktop"));
    apps.add_handler(mime_of("video/mp4"), handler_of("vlc.desktop"));

    let text = apps.serialize();
    assert_eq!(
        text,
        "[Added Associations]\n\n[Default Applications]\nimage/png=eog.desktop;\nvideo/mp4=mpv.desktop;vlc.desktop;\n"
    );
}

#[test]
fn parse_reads_what_serialize_wrote() {
    let mut apps = MimeApps::new(SystemApps::new());
    apps.set_handler(mime_of("video/mp4"), handler_of("mpv.desktop"));
    apps.add_handler(mime_of("video/mp4"), handler_of("vlc.desktop"));
    apps.set_handler(mime_of("x-scheme-handler/https"), handler_of("firefox.desktop"));

    let text = apps.serialize();
    let loaded = MimeApps::parse(text.as_str(), SystemApps::new()).unwrap();

    // the resolved handler for every key survives the round trip
    for key in ["video/mp4", "x-scheme-handler/https"] {
        assert_eq!(
            loaded.get_handler(&mime_of(key)).unwrap().name(),
            apps.get_handler(&mime_of(key)).unwrap().name()
        );
    }
    assert_eq!(loaded.serialize(), text);
}

#[test]
fn parse_dedups_and_drops_empty_segments() {
    let text = "[Default Applications]\nimage/png=a.desktop;;a.desktop;b.desktop;\n";
    let apps = MimeApps::parse(text, SystemApps::new()).unwrap();
    let cands = apps.selection_candidates(&mime_of("image/png")).unwrap();
    assert_eq!(cands.len(), 2);
    assert_eq!(cands[0].name(), "a.desktop");
    assert_eq!(cands[1].name(), "b.desktop");
}

#[test]
fn parse_ignores_unknown_sections_keys_and_comments() {
    let text = "# comment\n\n[Unknown Section]\nimage/png=wrong.desktop;\n\n[Default Applications]\nimage/png=right.desktop;\n";
    let apps = MimeApps::parse(text, SystemApps::new()).unwrap();
    assert_eq!(apps.get_handler(&mime_of("image/png")).unwrap().name(), "right.desktop");
}

#[test]
fn parse_skips_lines_with_no_valid_handlers() {
    let text = "[Default Applications]\nimage/png=;;\n";
    let apps = MimeApps::parse(text, SystemApps::new()).unwrap();
    assert!(matches!(
        apps.get_handler(&mime_of("image/png")).unwrap_err(),
        Error::NotFound(_)
    ));
}

#[test]
fn malformed_line_is_a_hard_error() {
    let text = "[Default Applications]\nthis line has no equals sign\n";
    let err = MimeApps::parse(text, SystemApps::new()).unwrap_err();
    assert!(matches!(err, Error::ParseApps(_)));
}

#[test]
fn later_lines_for_a_key_win() {
    let text = "[Default Applications]\nimage/png=old.desktop;\nimage/png=new.desktop;\n";
    let apps = MimeApps::parse(text, SystemApps::new()).unwrap();
    assert_eq!(apps.get_handler(&mime_of("image/png")).unwrap().name(), "new.desktop");
}

#[test]
fn crlf_lines_parse() {
    let text = "[Default Applications]\r\nimage/png=a.desktop;\r\n";
    let apps = MimeApps::parse(text, SystemApps::new()).unwrap();
    assert_eq!(apps.get_handler(&mime_of("image/png")).unwrap().name(), "a.desktop");
}

#[test]
fn retain_handlers_filters_uninstalled_ids() {
    let text = "[Default Applications]\nimage/png=gone.desktop;kept.desktop;\nvideo/mp4=gone.desktop;\n";
    let mut apps = MimeApps::parse(text, SystemApps::new()).unwrap();
    apps.retain_handlers(&vec![String::from("kept.desktop")]);

    // one uninstalled handler does not invalidate the rest of the list
    assert_eq!(apps.get_handler(&mime_of("image/png")).unwrap().name(), "kept.desktop");
    // a list that empties out loses its key entirely
    assert!(matches!(
        apps.get_handler(&mime_of("video/mp4")).unwrap_err(),
        Error::NotFound(_)
    ));
}

#[test]
fn rows_list_defaults_in_key_order() {
    let mut apps = MimeApps::new(SystemApps::new());
    apps.set_handler(mime_of("video/mp4"), handler_of("mpv.desktop"));
    apps.add_handler(mime_of("video/mp4"), handler_of("vlc.desktop"));
    apps.set_handler(mime_of("image/png"), handler_of("eog.desktop"));

    let rows = apps.default_apps.rows();
    assert_eq!(rows.len(), 2);
    assert_eq!(rows[0], vec![String::from("image/png"), String::from("eog.desktop")]);
    assert_eq!(
        rows[1],
        vec![String::from("video/mp4"), String::from("mpv.desktop, vlc.desktop")]
    );
}
