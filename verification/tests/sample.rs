use comment_lexer::sample::greet;

#[test]
fn greet_wraps_the_name() {
    assert_eq!(greet("world"), "Hello, world!");
}

#[test]
fn greet_with_empty_name() {
    assert_eq!(greet(""), "Hello, !");
}
