//! Resolution precedence over the user sections and the system catalog.

use handlr::{DesktopEntry, Error, Handler, Mime, MimeApps, SystemApps};

fn empty_apps() -> MimeApps {
    MimeApps::new(SystemApps::new())
}

fn mime(s: &str) -> Mime {
    Mime::from_str(s).unwrap()
}

fn handler(s: &str) -> Handler {
    Handler::assume_valid(String::from(s))
}

#[test]
fn wildcard_mimes() {
    let mut user_apps = empty_apps();
    user_apps.add_handler(mime("video/*"), handler("mpv.desktop"));
    user_apps.add_handler(mime("video/webm"), handler("brave.desktop"));

    assert_eq!(
        user_apps.get_handler(&mime("video/mp4")).unwrap().name(),
        "mpv.desktop"
    );
    assert_eq!(
        user_apps.get_handler(&mime("video/asdf")).unwrap().name(),
        "mpv.desktop"
    );
    assert_eq!(
        user_apps.get_handler(&mime("video/webm")).unwrap().name(),
        "brave.desktop"
    );
}

#[test]
fn exact_beats_wildcard() {
    let mut apps = empty_apps();
    apps.set_handler(mime("video/*"), handler("a.desktop"));
    apps.set_handler(mime("video/webm"), handler("b.desktop"));

    assert_eq!(apps.get_handler(&mime("video/mp4")).unwrap().name(), "a.desktop");
    assert_eq!(apps.get_handler(&mime("video/webm")).unwrap().name(), "b.desktop");
}

#[test]
fn set_replaces_whole_list() {
    let mut apps = empty_apps();
    apps.add_handler(mime("image/png"), handler("first.desktop"));
    apps.add_handler(mime("image/png"), handler("second.desktop"));
    apps.set_handler(mime("image/png"), handler("only.desktop"));

    assert_eq!(apps.get_handler(&mime("image/png")).unwrap().name(), "only.desktop");
    assert!(apps.selection_candidates(&mime("image/png")).is_none());
}

#[test]
fn remove_absent_is_noop() {
    let mut apps = empty_apps();
    assert!(!apps.remove_handler(&mime("text/plain")));
}

#[test]
fn remove_falls_through_to_lower_tiers() {
    let mut apps = empty_apps();
    apps.set_handler(mime("video/*"), handler("wild.desktop"));
    apps.set_handler(mime("video/webm"), handler("exact.desktop"));

    assert!(apps.remove_handler(&mime("video/webm")));
    // the exact default is gone; the wildcard tier now answers
    assert_eq!(apps.get_handler(&mime("video/webm")).unwrap().name(), "wild.desktop");

    assert!(apps.remove_handler(&mime("video/*")));
    let err = apps.get_handler(&mime("video/webm")).unwrap_err();
    assert!(matches!(err, Error::NotFound(_)));
}

#[test]
fn added_associations_after_wildcard() {
    // an added association is consulted only after both default tiers
    let text = "[Added Associations]\ntext/plain=added.desktop;\n\n[Default Applications]\n";
    let parsed = MimeApps::parse(text, SystemApps::new()).unwrap();
    assert_eq!(parsed.get_handler(&mime("text/plain")).unwrap().name(), "added.desktop");

    let mut with_default = parsed;
    with_default.set_handler(mime("text/*"), handler("wild.desktop"));
    assert_eq!(
        with_default.get_handler(&mime("text/plain")).unwrap().name(),
        "wild.desktop"
    );
}

#[test]
fn system_catalog_is_last_tier() {
    let entry = DesktopEntry::parse(
        "cat.desktop",
        "[Desktop Entry]\nName=Cat\nExec=cat %f\nMimeType=text/plain;\n",
    )
    .unwrap();
    let catalog = SystemApps::populate(&vec![entry]);
    let apps = MimeApps::new(catalog);

    assert_eq!(apps.get_handler(&mime("text/plain")).unwrap().name(), "cat.desktop");

    let mut apps = apps;
    apps.set_handler(mime("text/plain"), handler("user.desktop"));
    assert_eq!(apps.get_handler(&mime("text/plain")).unwrap().name(), "user.desktop");
}

#[test]
fn catalog_keeps_scan_order_and_dedups() {
    let one = DesktopEntry::parse(
        "one.desktop",
        "[Desktop Entry]\nName=One\nExec=one %f\nMimeType=text/plain;image/png;\n",
    )
    .unwrap();
    let two = DesktopEntry::parse(
        "two.desktop",
        "[Desktop Entry]\nName=Two\nExec=two %f\nMimeType=text/plain;text/plain;\n",
    )
    .unwrap();
    let catalog = SystemApps::populate(&vec![one, two]);

    let text_handlers = catalog.get_handlers(&mime("text/plain")).unwrap();
    assert_eq!(text_handlers.len(), 2);
    assert_eq!(text_handlers[0].name(), "one.desktop");
    assert_eq!(text_handlers[1].name(), "two.desktop");
    assert_eq!(catalog.get_handler(&mime("image/png")).unwrap().name(), "one.desktop");
    assert!(catalog.get_handler(&mime("audio/mpeg")).is_none());
}

#[test]
fn selection_candidates_only_for_multiple_defaults() {
    let mut apps = empty_apps();
    apps.add_handler(mime("video/*"), handler("a.desktop"));
    assert!(apps.selection_candidates(&mime("video/mp4")).is_none());

    apps.add_handler(mime("video/*"), handler("b.desktop"));
    let cands = apps.selection_candidates(&mime("video/mp4")).unwrap();
    assert_eq!(cands.len(), 2);
    assert_eq!(cands[0].name(), "a.desktop");
    assert_eq!(cands[1].name(), "b.desktop");
}

#[test]
fn add_handler_skips_duplicates() {
    let mut apps = empty_apps();
    apps.add_handler(mime("image/png"), handler("a.desktop"));
    apps.add_handler(mime("image/png"), handler("a.desktop"));
    let cands = apps.selection_candidates(&mime("image/png"));
    assert!(cands.is_none());
}
