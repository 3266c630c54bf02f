use cleanup::app::CLIApp;
use cleanup::flag::{CheckRule, CLIFlag, DefaultRule};
use cleanup::result::CLIResult;
use cleanup::strmap::StrMap;
use cleanup::value::CLIValue;

fn args_of(parts: &[&str]) -> Vec<String> {
    parts.iter().map(|s| s.to_string()).collect()
}

#[test]
fn unknown_flag_message() {
    let app = CLIApp::new().name("t").add_flag(CLIFlag::new("help").abbr("-h"));
    let err = app.consume(&args_of(&["", "-x"])).unwrap_err();
    assert_eq!(err, "Unknown flag: -x");
}

#[test]
fn missing_flag_value_message() {
    let app = CLIApp::new()
        .name("t")
        .add_flag(CLIFlag::new("ext").expects_value(true).abbr("-e"));
    let err = app.consume(&args_of(&["", "-e"])).unwrap_err();
    assert_eq!(err, "Flag -e expects a value.");
}

#[test]
fn too_many_values_message() {
    let app = CLIApp::new()
        .name("t")
        .add_value(CLIValue::new("source"))
        .add_value(CLIValue::new("target"));
    let err = app
        .consume(&args_of(&["", "hello", "world", "bam"]))
        .unwrap_err();
    assert_eq!(err, "Too many values. Maximum is 2 but got bam as last one.");
}

#[test]
fn missing_value_message() {
    let app = CLIApp::new()
        .name("t")
        .add_value(CLIValue::new("src").required(true));
    let err = app.consume(&args_of(&[""])).unwrap_err();
    assert_eq!(err, "Missing value labeled \"src\"");
}

#[test]
fn flag_validator_rejects() {
    let app = CLIApp::new().name("t").add_flag(
        CLIFlag::new("ext")
            .expects_value(true)
            .validate(CheckRule::LenBelow(3, String::from("too long")))
            .abbr("-e"),
    );
    let err = app.consume(&args_of(&["", "-e", "abcd"])).unwrap_err();
    assert_eq!(err, "too long");
    let ok = app.consume(&args_of(&["", "-e", "ab"])).unwrap();
    assert_eq!(ok.get_arg("ext").unwrap(), "ab");
}

#[test]
fn value_validator_rejects() {
    let app = CLIApp::new().name("t").add_value(
        CLIValue::new("src").validate(CheckRule::LenBelow(4, String::from("name too long"))),
    );
    let err = app.consume(&args_of(&["", "abcde"])).unwrap_err();
    assert_eq!(err, "name too long");
}

#[test]
fn absent_flag_gets_default() {
    let app = CLIApp::new()
        .name("t")
        .add_flag(CLIFlag::new("a").abbr("-a"))
        .add_flag(
            CLIFlag::new("b")
                .default(DefaultRule::Fixed(String::from("x")))
                .abbr("-b"),
        );
    let p = app.consume(&args_of(&["_", "-a"])).unwrap();
    assert!(p.has_flag("a"));
    assert_eq!(p.get_arg("b").unwrap(), "x");
}

#[test]
fn positional_binding_order_independent() {
    let app = CLIApp::new()
        .name("t")
        .add_flag(CLIFlag::new("a").abbr("-a"))
        .add_flag(CLIFlag::new("b").abbr("-b"))
        .add_value(CLIValue::new("first"))
        .add_value(CLIValue::new("second"));
    let p1 = app.consume(&args_of(&["_", "-a", "-b", "v1", "v2"])).unwrap();
    let p2 = app.consume(&args_of(&["_", "v1", "-a", "v2", "-b"])).unwrap();
    assert_eq!(p1.get_value("first").unwrap(), "v1");
    assert_eq!(p1.get_value("second").unwrap(), "v2");
    assert_eq!(p2.get_value("first").unwrap(), "v1");
    assert_eq!(p2.get_value("second").unwrap(), "v2");
    assert!(p1.has_flag("a") && p1.has_flag("b"));
    assert!(p2.has_flag("a") && p2.has_flag("b"));
}

#[test]
fn dash_value_not_consumed() {
    let app = CLIApp::new()
        .name("t")
        .add_flag(
            CLIFlag::new("log")
                .default(DefaultRule::Fixed(String::from("cleanup.log")))
                .abbr("-l"),
        )
        .add_flag(CLIFlag::new("help").abbr("-h"));
    let p = app.consume(&args_of(&["_", "-l", "-h"])).unwrap();
    assert_eq!(p.get_arg("log").unwrap(), "cleanup.log");
    assert!(p.has_flag("help"));
}

#[test]
fn dash_value_without_default_fails() {
    let app = CLIApp::new()
        .name("t")
        .add_flag(CLIFlag::new("log").expects_value(true).abbr("-l"))
        .add_flag(CLIFlag::new("help").abbr("-h"));
    let err = app.consume(&args_of(&["_", "-l", "-h"])).unwrap_err();
    assert_eq!(err, "Flag -l expects a value.");
}

#[test]
fn last_occurrence_wins() {
    let app = CLIApp::new().name("t").add_flag(
        CLIFlag::new("ext").expects_value(true).abbr("-e").abbr("--ext"),
    );
    let p = app.consume(&args_of(&["_", "-e", "one", "--ext", "two"])).unwrap();
    assert_eq!(p.get_arg("ext").unwrap(), "two");
}

#[test]
fn round_trip_presence() {
    let app = CLIApp::new()
        .name("t")
        .add_flag(CLIFlag::new("a").abbr("-a"))
        .add_flag(CLIFlag::new("b").expects_value(true).abbr("-b"))
        .add_flag(CLIFlag::new("c").abbr("-c"));
    let p = app.consume(&args_of(&["_", "-a", "-b", "v"])).unwrap();
    assert!(p.has_flag("a"));
    assert!(p.has_flag("b"));
    assert!(!p.has_flag("c"));
}

#[test]
fn registering_shared_abbreviation_is_refused() {
    let app = CLIApp::new()
        .name("t")
        .add_flag(CLIFlag::new("alpha").abbr("-a").abbr("--alpha"));
    let clash = CLIFlag::new("all").abbr("-a");
    let msg = app.flag_conflict(&clash).unwrap();
    assert_eq!(
        msg,
        "Flag with name \"all\" uses \"-a\" which is already in use by \"alpha\"."
    );
    let fresh = CLIFlag::new("beta").abbr("-b");
    assert!(app.flag_conflict(&fresh).is_none());
}

#[test]
fn registering_duplicate_names_is_refused() {
    let app = CLIApp::new()
        .name("t")
        .add_flag(CLIFlag::new("alpha").abbr("-a"))
        .add_value(CLIValue::new("src"));
    let dup_flag = CLIFlag::new("alpha").abbr("-z");
    assert_eq!(
        app.flag_conflict(&dup_flag).unwrap(),
        "Flag with name \"alpha\" is already defined."
    );
    let dup_value = CLIValue::new("src");
    assert_eq!(
        app.value_conflict(&dup_value).unwrap(),
        "Value with name \"src\" is already defined."
    );
}

#[test]
fn result_accessors() {
    let mut values = StrMap::new();
    values.insert(String::from("source"), String::from("."));
    let mut flag_args = StrMap::new();
    flag_args.insert(String::from("log"), String::from("cleanup.log"));
    let r = CLIResult::from(values, flag_args, vec![String::from("dry")]);
    assert!(r.has_value("source"));
    assert!(!r.has_value("target"));
    assert_eq!(r.get_value("source").unwrap(), ".");
    assert!(r.has_arg("log"));
    assert!(!r.has_arg("ext"));
    assert_eq!(r.get_arg("log").unwrap(), "cleanup.log");
    assert!(r.has_flag("dry"));
    assert!(r.has_flag("log"));
    assert!(!r.has_flag("ext"));
}

#[test]
fn usage_description_text() {
    let app = CLIApp::new()
        .name("cleanup")
        .add_flag(CLIFlag::new("help").abbr("-h"))
        .add_flag(CLIFlag::new("version").abbr("-v"))
        .add_value(CLIValue::new("source").default(DefaultRule::Fixed(String::from("."))))
        .add_value(CLIValue::new("target"));
    assert_eq!(
        app.usage_description(),
        "Usage: cleanup <source> <target?> [options...]"
    );

    let one = CLIApp::new().name("one").add_flag(CLIFlag::new("help").abbr("-h"));
    assert_eq!(one.usage_description(), "Usage: one [options]");

    let none = CLIApp::new().name("bare").add_value(CLIValue::new("v").required(true));
    assert_eq!(none.usage_description(), "Usage: bare <v>");
}

#[test]
fn help_text_layout() {
    let app = CLIApp::new()
        .name("x")
        .add_flag(CLIFlag::new("help").abbr("-h").abbr("--help").description("Help"))
        .add_flag(
            CLIFlag::new("ext")
                .expects_value(true)
                .value_description("e")
                .abbr("-e")
                .description("Ext"),
        )
        .add_value(CLIValue::new("src"));
    let expected = "Usage: x <src?> [options...]\n\nFlags:\n  -h, --help  Help\n\nArguments:\n  -e <e>      Ext\n\nValues:\n  <src?>      Unknown\n";
    assert_eq!(app.help_text(), expected);
}

#[test]
fn empty_sections_are_omitted() {
    let app = CLIApp::new().name("x").add_flag(
        CLIFlag::new("help").abbr("-h").description("Help"),
    );
    let expected = "Usage: x [options]\n\nFlags:\n  -h  Help\n";
    assert_eq!(app.help_text(), expected);
}
