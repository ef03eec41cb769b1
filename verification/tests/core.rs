use oryn::hello;

#[test]
fn hello_returns_expected_string() {
    assert_eq!(hello(), "Hello from oryn-rs");
}
