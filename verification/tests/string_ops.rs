use std::borrow::Cow;

use csv_managed::transform::string_ops::{
    camel_case, lowercase, pascal_case, regex_replace, snake_case, substring, trim, uppercase, TextPattern,
};

#[test]
fn camel_and_pascal_case_cover_mixed_inputs() {
    assert_eq!(camel_case("foo_bar").as_ref(), "fooBar");
    assert_eq!(pascal_case("foo_bar").as_ref(), "FooBar");
    assert_eq!(camel_case("HTTP_STATUS").as_ref(), "httpStatus");
    assert_eq!(pascal_case("multi word-value").as_ref(), "MultiWordValue");
}

#[test]
fn snake_case_reuses_when_no_change() {
    let original = "already_snake";
    let result = snake_case(original);
    assert!(matches!(result, Cow::Borrowed(_)));
}

#[test]
fn substring_handles_unicode() {
    let value = "café_price";
    let sub = substring(value, 0, 4);
    assert_eq!(sub.as_ref(), "café");
    let sub = substring(value, 5, 5);
    assert_eq!(sub.as_ref(), "price");
}

#[test]
fn regex_replace_borrows_when_no_match() {
    let regex = TextPattern::new("foo").unwrap();
    let value = "bar";
    let result = regex_replace(value, &regex, "baz");
    assert!(matches!(result, Cow::Borrowed(_)));
}

#[test]
fn substring_edge_cases() {
    assert!(matches!(substring("abc", 0, 0), Cow::Owned(ref s) if s.is_empty()));
    assert!(matches!(substring("abc", 3, 2), Cow::Owned(ref s) if s.is_empty()));
    assert!(matches!(substring("abc", 1, usize::MAX), Cow::Borrowed("bc")));
    assert!(matches!(substring("abc", 0, 3), Cow::Borrowed("abc")));
}

#[test]
fn regex_replace_replaces_every_match() {
    let regex = TextPattern::new("o+").unwrap();
    let result = regex_replace("foo boo", &regex, "0");
    assert!(matches!(result, Cow::Owned(_)));
    assert_eq!(result.as_ref(), "f0 b0");
    assert_eq!(regex.as_str(), "o+");
}

#[test]
fn invalid_patterns_are_reported() {
    assert!(TextPattern::new("(").is_err());
}

#[test]
fn case_helpers_keep_or_convert() {
    assert!(matches!(lowercase("already lower"), Cow::Borrowed("already lower")));
    assert!(matches!(lowercase("MiXeD"), Cow::Owned(ref s) if s == "mixed"));
    assert!(matches!(uppercase("ALREADY"), Cow::Borrowed("ALREADY")));
    assert!(matches!(uppercase("MiXeD"), Cow::Owned(ref s) if s == "MIXED"));
    assert!(matches!(trim("  padded\t"), Cow::Borrowed("padded")));
    assert!(matches!(trim("tight"), Cow::Borrowed("tight")));
    assert!(matches!(snake_case("CamelCase"), Cow::Owned(ref s) if s == "camel_case"));
}
