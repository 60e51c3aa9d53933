use expr_eval::common::fatal_error;

#[test]
fn fatal_error_message_without_char() {
    assert_eq!(fatal_error("broken input", None), String::from("Fatal error: broken input"));
}

#[test]
fn fatal_error_message_with_char() {
    let c = 'x';
    assert_eq!(
        fatal_error("bad digit", Some(&c)),
        String::from("Fatal error: bad digit caused by char: x")
    );
}
