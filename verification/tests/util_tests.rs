use cleanup::cli_args::CLIArguments;
use cleanup::file::{classify, resolve_cs_list, split_comma_list, FileResult, Options};
use cleanup::strmap::StrMap;
use cleanup::strutil::{decimal_string, join_strings, pad_to, str_eq};

#[test]
fn decimal_rendering() {
    assert_eq!(decimal_string(0), "0");
    assert_eq!(decimal_string(7), "7");
    assert_eq!(decimal_string(10), "10");
    assert_eq!(decimal_string(42), "42");
    assert_eq!(decimal_string(100), "100");
    assert_eq!(decimal_string(9876543), "9876543");
}

#[test]
fn string_helpers() {
    assert!(str_eq("abc", "abc"));
    assert!(!str_eq("abc", "abd"));
    assert!(!str_eq("abc", "abcd"));
    assert_eq!(pad_to(&String::from("ab"), 5), "ab   ");
    assert_eq!(pad_to(&String::from("abcdef"), 5), "abcdef");
    let parts: Vec<String> = vec!["-a", "--all", "--every"]
        .into_iter()
        .map(|s| s.to_string())
        .collect();
    assert_eq!(join_strings(&parts, ", "), "-a, --all, --every");
    assert_eq!(join_strings(&Vec::new(), ", "), "");
}

#[test]
fn comma_lists() {
    assert_eq!(split_comma_list(&String::from("a,b,c")), vec!["a", "b", "c"]);
    assert_eq!(split_comma_list(&String::from(",a,")), vec!["", "a", ""]);
    assert_eq!(split_comma_list(&String::from("")), vec![""]);
    assert_eq!(split_comma_list(&String::from("one")), vec!["one"]);

    let raw = String::from("jpg,png");
    let listed = resolve_cs_list(Some(&raw)).unwrap();
    assert_eq!(listed, vec!["jpg", "png"]);
    assert!(resolve_cs_list(None).is_none());
}

#[test]
fn classify_extension_rules() {
    let none = Options { excluded: None, included: None, dry_run: false };
    assert!(matches!(classify(&String::from("jpg"), &none), FileResult::Moved));

    let dry = Options { excluded: None, included: None, dry_run: true };
    assert!(matches!(classify(&String::from("jpg"), &dry), FileResult::Checked));

    let excl = Options {
        excluded: Some(vec![String::from("jpg")]),
        included: None,
        dry_run: false,
    };
    assert!(matches!(classify(&String::from("jpg"), &excl), FileResult::Skipped));
    assert!(matches!(classify(&String::from("png"), &excl), FileResult::Moved));

    let incl = Options {
        excluded: None,
        included: Some(vec![String::from("jpg")]),
        dry_run: false,
    };
    assert!(matches!(classify(&String::from("jpg"), &incl), FileResult::Moved));
    assert!(matches!(classify(&String::from("png"), &incl), FileResult::Skipped));
}

#[test]
fn str_map_behaviour() {
    let mut m = StrMap::new();
    assert!(!m.contains_key("k"));
    assert!(m.get("k").is_none());
    m.insert(String::from("k"), String::from("v1"));
    assert!(m.contains_key("k"));
    assert_eq!(m.get("k").unwrap(), "v1");
    m.insert(String::from("k"), String::from("v2"));
    assert_eq!(m.get("k").unwrap(), "v2");
    m.insert(String::from("j"), String::from("w"));
    assert_eq!(m.get("j").unwrap(), "w");
    assert_eq!(m.get("k").unwrap(), "v2");
}

#[test]
fn cli_arguments_queries() {
    let mut args = StrMap::new();
    args.insert(String::from("-e"), String::from("jpg"));
    let parsed = CLIArguments {
        source: std::path::PathBuf::from("."),
        target: std::path::PathBuf::from("./misc"),
        flags: vec![String::from("-d")],
        args,
    };
    assert!(parsed.has_flag("--dry-run", "-d"));
    assert!(parsed.has_flag("--ext", "-e"));
    assert!(!parsed.has_flag("--help", "-h"));
    assert_eq!(parsed.get_arg_value("--ext", "-e").unwrap(), "jpg");
    assert!(parsed.get_arg_value("--help", "-h").is_none());
}
