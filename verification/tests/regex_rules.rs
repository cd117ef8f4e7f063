//! Regex-backed handlers and their selection by path or URL.

use handlr::{ConfigHandler, Error, HandlerRegexSet, RegexApps, RegexHandler, UserPath};

#[test]
fn regex_handlers() {
    let exec: &str = "freetube %u";
    let regexes: &[String] = &[String::from(r"(https://)?(www\.)?youtu(be\.com|\.be)/*")];

    let config_handler = ConfigHandler {
        exec_line: String::from(exec),
        terminal: false,
        regexes: regexes.to_owned(),
    };

    let regex_handler = config_handler
        .compile_regex()
        .expect("ConfigHandler::compile_regex() returned Err");

    let expected_regex_handler = RegexHandler {
        exec_line: String::from(exec),
        terminal: false,
        regexes: HandlerRegexSet::new(&regexes.to_owned()).expect("Test regex is invalid"),
    };

    assert_eq!(regex_handler, expected_regex_handler);

    let regex_apps = RegexApps(vec![regex_handler]);

    assert_eq!(
        regex_apps
            .get_handler(&UserPath::from_str("https://youtu.be/dQw4w9WgXcQ").unwrap())
            .expect("RegexApps::get_handler() returned None"),
        expected_regex_handler
    );

    assert_eq!(
        regex_apps.get_handler(&UserPath::from_str("https://en.wikipedia.org").unwrap()),
        None
    );
}

#[test]
fn bad_pattern_fails_compilation() {
    let bad = ConfigHandler {
        exec_line: String::from("x %u"),
        terminal: false,
        regexes: vec![String::from("(")],
    };
    assert!(matches!(bad.compile_regex().unwrap_err(), Error::BadRegex));
}

#[test]
fn populate_drops_rules_that_fail_to_compile() {
    let good = ConfigHandler {
        exec_line: String::from("good %u"),
        terminal: false,
        regexes: vec![String::from("^https://good")],
    };
    let bad = ConfigHandler {
        exec_line: String::from("bad %u"),
        terminal: false,
        regexes: vec![String::from("(")],
    };
    let apps = RegexApps::populate(&vec![good, bad]);
    assert_eq!(apps.0.len(), 1);
    assert_eq!(apps.0[0].exec_line, "good %u");
}

#[test]
fn regex_handler_builds_a_command() {
    let rule = ConfigHandler {
        exec_line: String::from("freetube %u"),
        terminal: false,
        regexes: vec![String::from("youtu")],
    };
    let handler = rule.compile_regex().unwrap();
    let entry = handler.get_entry();
    let (cmd, argv) = entry.get_cmd(&vec![String::from("https://youtu.be/x")]).unwrap();
    assert_eq!(cmd, "freetube");
    assert_eq!(argv, vec![String::from("https://youtu.be/x")]);
}
