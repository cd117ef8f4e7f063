//! MIME texts: syntactic validation, user input, extensions and URLs.

use handlr::{Error, Mime, MimeOrExtension};

#[test]
fn user_input() {
    assert_eq!(MimeOrExtension::from_str(".pdf").unwrap().0.0, "application/pdf");
    assert_eq!(MimeOrExtension::from_str("image/jpeg").unwrap().0.0, "image/jpeg");

    MimeOrExtension::from_str("image//jpg").unwrap_err();
    MimeOrExtension::from_str("image").unwrap_err();
}

#[test]
fn from_ext() {
    assert_eq!(MimeOrExtension::from_str(".mp3").unwrap().0.0, "audio/mpeg");
    assert_eq!(MimeOrExtension::from_str("audio/mpeg").unwrap().0.0, "audio/mpeg");
    MimeOrExtension::from_str(".").unwrap_err();
    MimeOrExtension::from_str("audio/").unwrap_err();
}

#[test]
fn valid_mime_round_trips() {
    // a well-formed type/subtype parses and keeps its canonical text
    for text in ["application/pdf", "video/*", "x-scheme-handler/https", "text/x-rust"] {
        let m = Mime::from_str(text).unwrap();
        assert_eq!(m.0, text);
    }
}

#[test]
fn malformed_mime_is_rejected() {
    for text in ["", "noslash", "/empty-type", "empty-subtype/", "two//slashes", "spa ce/x"] {
        let err = Mime::from_str(text).unwrap_err();
        assert!(matches!(err, Error::InvalidMime(_)));
    }
}

#[test]
fn unknown_mime_is_bad_mime() {
    let err = MimeOrExtension::from_str("fake/mime-nobody-registered").unwrap_err();
    assert!(matches!(err, Error::BadMime(_)));
}

#[test]
fn unknown_extension_is_ambiguous() {
    let err = MimeOrExtension::from_str(".zzznotreal").unwrap_err();
    assert!(matches!(err, Error::Ambiguous(_)));
}

#[test]
fn synthetic_mimes_pass_free_text_validation() {
    assert_eq!(
        MimeOrExtension::from_str("x-scheme-handler/terminal").unwrap().0.0,
        "x-scheme-handler/terminal"
    );
    assert_eq!(
        MimeOrExtension::from_str("inode/directory").unwrap().0.0,
        "inode/directory"
    );
}

#[test]
fn classify_urls_and_directories() {
    // a URL classifies by its scheme, with no content inspection
    assert_eq!(Mime::try_from_path("https://example.com").unwrap().0, "x-scheme-handler/https");
    // a directory classifies as the synthetic directory type
    assert_eq!(Mime::try_from_path(".").unwrap().0, "inode/directory");
}

#[test]
fn error_messages_name_the_input() {
    let err = MimeOrExtension::from_str("image").unwrap_err();
    let msg = err.message();
    assert!(msg.contains("image"));
}
