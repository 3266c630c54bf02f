use cleanup::flag::CLIFlag;

#[test]
fn test_create() {
    let flag = CLIFlag::new("Hello")
        .description("Hello World")
        .abbr("-a")
        .abbr("--abbr")
        .abbr("--abbr-ex");

    assert_eq!(flag.name, "Hello");
    assert_eq!(flag.description, "Hello World");
    assert_eq!(flag.abbr, vec!["-a", "--abbr", "--abbr-ex"]);
}

#[test]
fn test_create_with_value() {
    let flag = CLIFlag::new("Hello")
        .expects_value(true)
        .value_description("My Value");

    assert_eq!(flag.value_description, "My Value");
}

#[test]
fn test_to_string() {
    let (usage, desc) = CLIFlag::new("Hello")
        .expects_value(true)
        .value_description("hello")
        .description("Hello World")
        .abbr("-a")
        .abbr("--abbr")
        .stringify();

    assert_eq!(desc, "Hello World");
    assert_eq!(usage, "-a, --abbr <hello>")
}

#[test]
fn test_has_abbr() {
    let flag = CLIFlag::new("Hello")
        .abbr("-a")
        .abbr("--abbr")
        .abbr("--woo")
        .abbr("--woo-baz");

    assert!(flag.has_abbr("-a"));
    assert!(flag.has_abbr("--abbr"));
    assert!(flag.has_abbr("--woo"));
    assert!(flag.has_abbr("--woo-baz"));
    assert!(!flag.has_abbr("--woo-bum"));
    assert!(!flag.has_abbr("--foo"));
    assert!(!flag.has_abbr("s"));
}
