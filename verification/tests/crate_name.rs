use ferritin_common::crate_name::{eq_ignoring_dash_underscore, str_precedes};
use ferritin_common::CrateName;
use std::cmp::Ordering;

#[test]
fn names_that_differ_in_separators_are_equal() {
    assert!(CrateName::new("foo-bar") == CrateName::new("foo_bar"));
    assert!(CrateName::from("foo-bar".to_string()) == CrateName::new("foo-bar"));
    assert!(CrateName::new("foo-bar") != CrateName::new("foo_baz"));
    assert!(CrateName::new("foo") != CrateName::new("foo_"));
    assert!(CrateName::new("Foo") != CrateName::new("foo"));
    assert!(CrateName::new("") == CrateName::new(""));
}

#[test]
fn equal_names_have_equal_keys() {
    assert_eq!(CrateName::new("foo-bar").canonical_key(), "foo_bar");
    assert_eq!(
        CrateName::new("foo-bar").canonical_key(),
        CrateName::new("foo_bar").canonical_key()
    );
    assert_ne!(
        CrateName::new("foo-bar").canonical_key(),
        CrateName::new("foobar").canonical_key()
    );
}

#[test]
fn comparison_without_separators() {
    assert!(eq_ignoring_dash_underscore("a-b_c", "a_b-c"));
    assert!(!eq_ignoring_dash_underscore("a-b", "a-bc"));
    assert!(!eq_ignoring_dash_underscore("a-b", "a+b"));
    assert!(eq_ignoring_dash_underscore("é-x", "é_x"));
}

#[test]
fn order_is_string_order_unless_equal() {
    let a = CrateName::new("foo-bar");
    let b = CrateName::new("foo_bar");
    assert_eq!(a.partial_cmp(&b), Some(Ordering::Equal));
    assert_eq!(
        CrateName::new("abc").partial_cmp(&CrateName::new("abd")),
        Some(Ordering::Less)
    );
    assert_eq!(
        CrateName::new("b").partial_cmp(&CrateName::new("abd")),
        Some(Ordering::Greater)
    );
    assert_eq!(
        CrateName::new("ab").partial_cmp(&CrateName::new("abc")),
        Some(Ordering::Less)
    );
    assert!(str_precedes("", "a"));
    assert!(!str_precedes("a", ""));
    assert!(!str_precedes("a", "a"));
    assert!(str_precedes("a-", "a_"));
}

#[test]
fn owned_copy_keeps_the_spelling() {
    let a = CrateName::new("foo-bar");
    assert_eq!(a.to_static().as_str(), "foo-bar");
    assert_eq!(a.clone().to_string(), "foo-bar");
}
