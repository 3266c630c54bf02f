use cleanup::wrap::Wrapping;

#[test]
fn wrap_string() {
    assert_eq!(String::from("hello").wrap("'"), "'hello'");
    assert_eq!(String::from("'hello'").wrap("'"), "'hello'");
    assert_eq!(String::from("hello").wrap_into("<", ">"), "<hello>");
}

#[test]
fn prevent_double_wrapping() {
    assert_eq!(String::from("'hello'").wrap("'"), "'hello'");
    assert_eq!(String::from("<hello>").wrap_into("<", ">"), "<hello>");
}

#[test]
fn check_if_wrapped() {
    assert!(String::from("<hello>").is_wrapped_in("<", ">"));
    assert!(String::from("#hello#").is_wrapped("#"));
}
