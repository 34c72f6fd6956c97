use dom_attrs::dataset::{
    decode_attribute_name, encode_property_name, is_ascii_lowercase, is_ascii_uppercase,
    validate_property_name,
};

#[test]
fn encode_camel_case() {
    assert_eq!(encode_property_name("fooBar"), "data-foo-bar");
}

#[test]
fn encode_plain_name() {
    assert_eq!(encode_property_name("foo"), "data-foo");
}

#[test]
fn encode_empty_name() {
    assert_eq!(encode_property_name(""), "data-");
}

#[test]
fn encode_keeps_non_uppercase() {
    assert_eq!(encode_property_name("foo-bar_9"), "data-foo-bar_9");
}

#[test]
fn encode_leading_uppercase() {
    assert_eq!(encode_property_name("FooBar"), "data--foo-bar");
}

#[test]
fn decode_kebab_case() {
    assert_eq!(
        decode_attribute_name("data-foo-bar"),
        Some("fooBar".to_string())
    );
}

#[test]
fn decode_rejects_uppercase_remainder() {
    assert_eq!(decode_attribute_name("data-Foo"), None);
}

#[test]
fn decode_requires_prefix() {
    assert_eq!(decode_attribute_name("nodata-foo"), None);
    assert_eq!(decode_attribute_name("data"), None);
    assert_eq!(decode_attribute_name(""), None);
    assert_eq!(decode_attribute_name("DATA-foo"), None);
}

#[test]
fn decode_empty_remainder() {
    assert_eq!(decode_attribute_name("data-"), Some("".to_string()));
}

#[test]
fn decode_trailing_hyphen_is_kept() {
    assert_eq!(decode_attribute_name("data-a-"), Some("a-".to_string()));
}

#[test]
fn decode_consecutive_hyphens_are_kept() {
    assert_eq!(decode_attribute_name("data-a--b"), Some("a--b".to_string()));
}

#[test]
fn decode_doubled_prefix_is_ordinary_content() {
    assert_eq!(
        decode_attribute_name("data-data-foo"),
        Some("dataFoo".to_string())
    );
}

#[test]
fn decode_narrow_lowercase_boundary() {
    // 'w' is the last letter the decoder folds to uppercase; 'x', 'y' and
    // 'z' are deliberately outside the folded range.
    assert_eq!(decode_attribute_name("data-a-w"), Some("aW".to_string()));
    assert_eq!(decode_attribute_name("data-a-x"), Some("a-x".to_string()));
    assert_eq!(decode_attribute_name("data-a-y"), Some("a-y".to_string()));
    assert_eq!(decode_attribute_name("data-a-z"), Some("a-z".to_string()));
}

#[test]
fn round_trip_without_uppercase_or_folds() {
    for name in ["", "foo", "foo_9", "a", "a-x"] {
        assert_eq!(
            decode_attribute_name(&encode_property_name(name)),
            Some(name.to_string())
        );
    }
}

#[test]
fn round_trip_camel_case() {
    assert_eq!(
        decode_attribute_name(&encode_property_name("fooBar")),
        Some("fooBar".to_string())
    );
}

#[test]
fn round_trip_fails_on_hyphen_before_decodable_letter() {
    // "a-b" encodes to "data-a-b", which decodes to "aB", not "a-b".
    assert_eq!(
        decode_attribute_name(&encode_property_name("a-b")),
        Some("aB".to_string())
    );
}

#[test]
fn round_trip_fails_on_late_uppercase_letters() {
    // 'X' encodes to "-x", which the narrowed decoder leaves as "-x".
    assert_eq!(
        decode_attribute_name(&encode_property_name("aX")),
        Some("a-x".to_string())
    );
}

#[test]
fn encode_is_not_idempotent() {
    let once = encode_property_name("fooBar");
    let twice = encode_property_name(&once);
    assert_eq!(twice, "data-data-foo-bar");
    assert_ne!(once, twice);
}

#[test]
fn validate_rejects_lowercase_after_first_hyphen() {
    assert!(validate_property_name("foo-bar").is_err());
    assert!(validate_property_name("fooBar").is_ok());
}

#[test]
fn validate_edge_cases() {
    assert!(validate_property_name("").is_ok());
    assert!(validate_property_name("foo-").is_ok());
    assert!(validate_property_name("-a").is_err());
    assert!(validate_property_name("-z").is_err());
    assert!(validate_property_name("-A").is_ok());
    assert!(validate_property_name("--a").is_ok());
    assert!(validate_property_name("foo-Bar").is_ok());
    // Only the first hyphen is examined: the guard uses the full 'a'..='z'
    // range there, unlike the decoder.
    assert!(validate_property_name("foo-x").is_err());
}

#[test]
fn ascii_uppercase_range() {
    assert!(is_ascii_uppercase('A'));
    assert!(is_ascii_uppercase('Z'));
    assert!(!is_ascii_uppercase('a'));
    assert!(!is_ascii_uppercase('0'));
    assert!(!is_ascii_uppercase('['));
}

#[test]
fn ascii_lowercase_narrowed_range() {
    assert!(is_ascii_lowercase('a'));
    assert!(is_ascii_lowercase('w'));
    assert!(!is_ascii_lowercase('x'));
    assert!(!is_ascii_lowercase('y'));
    assert!(!is_ascii_lowercase('z'));
    assert!(!is_ascii_lowercase('A'));
}
