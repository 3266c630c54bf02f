use cleanup::app::CLIApp;
use cleanup::flag::{CheckRule, CLIFlag, DefaultRule};
use cleanup::value::CLIValue;

fn args_of(parts: &[&str]) -> Vec<String> {
    parts.iter().map(|s| s.to_string()).collect()
}

#[test]
fn flags() {
    let app = CLIApp::new()
        .name("hello-world")
        .add_flag(CLIFlag::new("help").abbr("-h").abbr("--help"))
        .add_flag(CLIFlag::new("version").abbr("-v").abbr("--version"))
        .add_flag(
            CLIFlag::new("util")
                .default(DefaultRule::Fixed(String::from("hello")))
                .abbr("-u")
                .abbr("--util"),
        );

    let p1 = app
        .consume(&args_of(&["", "-h", "-u", "--version"]))
        .unwrap();
    assert!(p1.has_flag("help"));
    assert!(p1.has_flag("version"));
    assert_eq!(p1.get_arg("util").unwrap(), "hello");

    let p2 = app.consume(&args_of(&["", "--util", "baz", "-h"])).unwrap();
    assert!(p2.has_flag("help"));
    assert!(!p2.has_flag("version"));
    assert_eq!(p2.get_arg("util").unwrap(), "baz");
}

#[test]
fn fail_on_unknown_flags() {
    let app = CLIApp::new()
        .name("hello-world")
        .add_flag(CLIFlag::new("help").abbr("-h"));

    assert!(app.consume(&args_of(&["", "-s"])).is_err());
    assert!(app.consume(&args_of(&["", "-h"])).is_ok());
}

#[test]
fn values() {
    let app = CLIApp::new()
        .name("hello-world")
        .add_value(
            CLIValue::new("source")
                .default(DefaultRule::Fixed(String::from(".")))
                .validate(CheckRule::LenBelow(10, String::default())),
        )
        .add_value(
            CLIValue::new("target")
                .default(DefaultRule::Appended(String::from("source"), String::from("--"))),
        );

    let p1 = app.consume(&args_of(&[""])).unwrap();
    assert_eq!(p1.get_value("source").unwrap(), ".");
    assert_eq!(p1.get_value("target").unwrap(), ".--");

    let p2 = app.consume(&args_of(&["", "hello"])).unwrap();
    assert_eq!(p2.get_value("source").unwrap(), "hello");
    assert_eq!(p2.get_value("target").unwrap(), "hello--");

    let p3 = app.consume(&args_of(&["", "hello", "world"])).unwrap();
    assert_eq!(p3.get_value("source").unwrap(), "hello");
    assert_eq!(p3.get_value("target").unwrap(), "world");
}

#[test]
fn fail_on_too_many_values() {
    let app = CLIApp::new()
        .name("hello-world")
        .add_value(CLIValue::new("source"))
        .add_value(CLIValue::new("target"));

    assert!(app.consume(&args_of(&["", "hello", "world"])).is_ok());
    assert!(app.consume(&args_of(&["", "hello", "world", "bam"])).is_err());
}
