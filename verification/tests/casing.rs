use dom_attrs::casing::{to_css_identifier, to_scream_case};

#[test]
fn css_identifier_from_camel_case() {
    assert_eq!(to_css_identifier("FooBar"), "foo-bar");
    assert_eq!(to_css_identifier("Foo"), "foo");
    assert_eq!(to_css_identifier("foo"), "foo");
    assert_eq!(to_css_identifier("fooBar"), "foo-bar");
}

#[test]
fn css_identifier_vendor_prefixes() {
    assert_eq!(to_css_identifier("MozLength"), "-moz-length");
    assert_eq!(to_css_identifier("WebkitFoo"), "-webkit-foo");
    assert_eq!(to_css_identifier("ServoThing"), "-servo-thing");
    // A vendor word not in first position is an ordinary segment.
    assert_eq!(to_css_identifier("FooMoz"), "foo-moz");
}

#[test]
fn css_identifier_trims_trailing_underscores() {
    assert_eq!(to_css_identifier("Loop_"), "loop");
    assert_eq!(to_css_identifier("FooBar__"), "foo-bar");
    assert_eq!(to_css_identifier("_"), "");
}

#[test]
fn css_identifier_of_empty_string() {
    assert_eq!(to_css_identifier(""), "");
}

#[test]
fn css_identifier_single_letter_segments() {
    assert_eq!(to_css_identifier("XYZ"), "x-y-z");
}

#[test]
fn scream_case_from_css_case() {
    assert_eq!(to_scream_case("foo-bar"), "FOO_BAR");
    assert_eq!(to_scream_case("align-items"), "ALIGN_ITEMS");
    assert_eq!(to_scream_case("x"), "X");
    assert_eq!(to_scream_case(""), "");
    assert_eq!(to_scream_case("-"), "_");
}
