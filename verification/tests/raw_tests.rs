use cleanup::raw::parse_raw_args;
use cleanup::strmap::StrMap;

#[test]
fn parse_nothing() {
    let raw_args: Vec<String> = Vec::new();
    let ex_args = StrMap::new();
    let ex_values: Vec<String> = Vec::new();
    let ex_flags: Vec<String> = Vec::new();

    let args = parse_raw_args(&raw_args);
    assert_eq!(args.args, ex_args);
    assert_eq!(args.values, ex_values);
    assert_eq!(args.flags, ex_flags);
}

#[test]
fn parse_values() {
    let raw_args: Vec<String> = vec!["_", "source", "index"]
        .into_iter()
        .map(|s| s.to_string())
        .collect();
    let ex_args = StrMap::new();
    let ex_flags: Vec<String> = Vec::new();

    let args = parse_raw_args(&raw_args);
    assert_eq!(args.args, ex_args);
    assert_eq!(args.values, ["source", "index"]);
    assert_eq!(args.flags, ex_flags);
}

#[test]
fn parse_flags() {
    let raw_args: Vec<String> = vec!["_", "-source", "index", "-target", "t-t-target"]
        .into_iter()
        .map(|s| s.to_string())
        .collect();
    let mut ex_args = StrMap::new();
    ex_args.insert(String::from("-source"), String::from("index"));
    ex_args.insert(String::from("-target"), String::from("t-t-target"));

    let ex_values: Vec<String> = Vec::new();
    let ex_flags: Vec<String> = Vec::new();

    let args = parse_raw_args(&raw_args);
    assert_eq!(args.args, ex_args);
    assert_eq!(args.values, ex_values);
    assert_eq!(args.flags, ex_flags);
}

#[test]
fn parse_mixed() {
    let raw_args: Vec<String> = vec![
        "_", "source", "source2", "-flag1", "-arg2", "arg-val2", "-flag2", "-a", "wo",
    ]
    .into_iter()
    .map(|s| s.to_string())
    .collect();
    let mut ex_args = StrMap::new();
    ex_args.insert(String::from("-arg2"), String::from("arg-val2"));
    ex_args.insert(String::from("-a"), String::from("wo"));

    let args = parse_raw_args(&raw_args);
    assert_eq!(args.args, ex_args);
    assert_eq!(args.values, ["source", "source2"]);
    assert_eq!(args.flags, ["-flag1", "-flag2"]);
}
