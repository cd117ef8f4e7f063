//! Desktop entry parsing and command construction.

use handlr::{DesktopEntry, Error, Mode};

const GOOD: &str = "[Desktop Entry]\nName=Cat Viewer\nExec=catview %f\nTerminal=false\nMimeType=image/png;image/jpeg;\nCategories=Graphics;Viewer;\n";

#[test]
fn parse_reads_the_desktop_entry_section() {
    let e = DesktopEntry::parse("catview.desktop", GOOD).unwrap();
    assert_eq!(e.name, "Cat Viewer");
    assert_eq!(e.exec_line, "catview %f");
    assert_eq!(e.file_name, "catview.desktop");
    assert!(!e.terminal);
    assert_eq!(e.mimes.len(), 2);
    assert_eq!(e.mimes[0].0, "image/png");
    assert_eq!(e.mimes[1].0, "image/jpeg");
    assert_eq!(e.categories.len(), 2);
    assert_eq!(e.categories[0], "Graphics");
}

#[test]
fn entry_without_name_is_rejected() {
    // Exec present but Name absent: not a valid handler
    let err = DesktopEntry::parse("x.desktop", "[Desktop Entry]\nExec=foo %f\n").unwrap_err();
    assert!(matches!(err, Error::BadEntry(_)));
}

#[test]
fn entry_without_exec_is_rejected() {
    let err = DesktopEntry::parse("x.desktop", "[Desktop Entry]\nName=Foo\n").unwrap_err();
    assert!(matches!(err, Error::BadEntry(_)));
}

#[test]
fn first_name_wins_last_exec_wins() {
    let text = "[Desktop Entry]\nName=First\nName=Second\nExec=one\nExec=two\n";
    let e = DesktopEntry::parse("x.desktop", text).unwrap();
    assert_eq!(e.name, "First");
    assert_eq!(e.exec_line, "two");
}

#[test]
fn other_sections_are_ignored() {
    let text = "# a comment\n[Other]\nName=Wrong\n[Desktop Entry]\nName=Right\nExec=run\n[Desktop Action new]\nName=Also Wrong\n";
    let e = DesktopEntry::parse("x.desktop", text).unwrap();
    assert_eq!(e.name, "Right");
}

#[test]
fn single_file_template_runs_once_per_argument() {
    let e = DesktopEntry::parse("app.desktop", "[Desktop Entry]\nName=App\nExec=app %f\n").unwrap();
    let args = vec![String::from("a.txt"), String::from("b.txt")];

    // non-batch, non-multi-file mode: two separate invocations
    let plan = e.exec_plan(Mode::Open, &args);
    assert_eq!(plan.len(), 2);
    assert_eq!(plan[0], vec![String::from("a.txt")]);
    assert_eq!(plan[1], vec![String::from("b.txt")]);

    let (cmd, argv) = e.get_cmd(&plan[0]).unwrap();
    assert_eq!(cmd, "app");
    assert_eq!(argv, vec![String::from("a.txt")]);
    let (_, argv2) = e.get_cmd(&plan[1]).unwrap();
    assert_eq!(argv2, vec![String::from("b.txt")]);
}

#[test]
fn multi_file_template_runs_once() {
    let e = DesktopEntry::parse("app.desktop", "[Desktop Entry]\nName=App\nExec=app %F\n").unwrap();
    let args = vec![String::from("a"), String::from("b")];
    let plan = e.exec_plan(Mode::Open, &args);
    assert_eq!(plan.len(), 1);
    let (cmd, argv) = e.get_cmd(&plan[0]).unwrap();
    assert_eq!(cmd, "app");
    assert_eq!(argv, vec![String::from("a"), String::from("b")]);
}

#[test]
fn launch_mode_batches_even_single_file_templates() {
    let e = DesktopEntry::parse("app.desktop", "[Desktop Entry]\nName=App\nExec=app %f\n").unwrap();
    let args = vec![String::from("a"), String::from("b")];
    let plan = e.exec_plan(Mode::Launch, &args);
    assert_eq!(plan.len(), 1);
    assert_eq!(plan[0], args);
}

#[test]
fn embedded_field_code_joins_arguments() {
    let e = DesktopEntry::parse(
        "app.desktop",
        "[Desktop Entry]\nName=App\nExec=app --files=%U --end\n",
    )
    .unwrap();
    let args = vec![String::from("x"), String::from("y")];
    let (cmd, argv) = e.get_cmd(&args).unwrap();
    assert_eq!(cmd, "app");
    assert_eq!(argv, vec![String::from("--files=x y"), String::from("--end")]);
}

#[test]
fn quoted_template_words_stay_together() {
    let e = DesktopEntry::parse(
        "cmus.desktop",
        "[Desktop Entry]\nName=cmus-remote\nExec=sh -c \"cmus-remote -q %f\"\n",
    )
    .unwrap();
    let args = vec![String::from("song.mp3")];
    let (cmd, argv) = e.get_cmd(&args).unwrap();
    assert_eq!(cmd, "sh");
    assert_eq!(argv, vec![String::from("-c"), String::from("cmus-remote -q song.mp3")]);
}

#[test]
fn field_code_with_no_arguments_vanishes() {
    let e = DesktopEntry::parse("app.desktop", "[Desktop Entry]\nName=App\nExec=app %f -v\n")
        .unwrap();
    let (cmd, argv) = e.get_cmd(&Vec::new()).unwrap();
    assert_eq!(cmd, "app");
    assert_eq!(argv, vec![String::from("-v")]);
}

#[test]
fn unsplittable_template_is_bad_cmd() {
    let e = DesktopEntry::parse(
        "app.desktop",
        "[Desktop Entry]\nName=App\nExec=app \"unclosed\n",
    )
    .unwrap();
    let err = e.get_cmd(&Vec::new()).unwrap_err();
    assert!(matches!(err, Error::BadCmd));
}

#[test]
fn terminal_flag_parses() {
    let e = DesktopEntry::parse("x.desktop", "[Desktop Entry]\nName=X\nExec=x\nTerminal=true\n")
        .unwrap();
    assert!(e.terminal);
}

#[test]
fn terminal_command_is_prepended() {
    let (cmd, argv) = handlr::prepend_terminal(
        "alacritty -e",
        String::from("vim"),
        vec![String::from("notes.txt")],
    )
    .unwrap();
    assert_eq!(cmd, "alacritty");
    assert_eq!(argv, vec![String::from("-e"), String::from("vim"), String::from("notes.txt")]);
}
