use lort::stdlib::is_typing_related;

#[test]
fn test_typing_related() {
    assert!(is_typing_related("typing"));
    assert!(is_typing_related("typing_extensions"));
    assert!(is_typing_related("collections.abc"));
}

#[test]
fn test_not_typing_related() {
    assert!(!is_typing_related("collections"));
    assert!(!is_typing_related("os"));
    assert!(!is_typing_related("typing.io"));
}
