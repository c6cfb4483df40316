use witgenstein::wit_common::{parse_wit_package_id, to_kebab_case, Future, Stream};

#[test]
fn lib_test_to_kebab_case() {
    assert_eq!(to_kebab_case("camelCase"), "camel-case");
    assert_eq!(to_kebab_case("PascalCase"), "pascal-case");
    assert_eq!(to_kebab_case("simpleword"), "simpleword");
    assert_eq!(to_kebab_case("HTMLParser"), "html-parser");
    assert_eq!(to_kebab_case("getHTTPResponse"), "get-http-response");
    assert_eq!(to_kebab_case("snake_case"), "snake-case");
    assert_eq!(to_kebab_case("SCREAMING_SNAKE"), "screaming-snake");
    assert_eq!(to_kebab_case("already-kebab"), "already-kebab");
    assert_eq!(to_kebab_case("a"), "a");
    assert_eq!(to_kebab_case(""), "");
}

#[test]
fn test_parse_wit_package_id_with_version() {
    let (ns, name, ver) = parse_wit_package_id("myorg:my-pkg@1.0.0").unwrap();
    assert_eq!(ns, "myorg");
    assert_eq!(name, "my-pkg");
    assert_eq!(ver.as_deref(), Some("1.0.0"));
}

#[test]
fn test_parse_wit_package_id_no_version() {
    let (ns, name, ver) = parse_wit_package_id("myorg:my-pkg").unwrap();
    assert_eq!(ns, "myorg");
    assert_eq!(name, "my-pkg");
    assert_eq!(ver, None);
}

#[test]
fn test_parse_wit_package_id_invalid() {
    assert!(parse_wit_package_id("invalid").is_err());
}

#[test]
fn parse_wit_package_id_error_message() {
    assert_eq!(
        parse_wit_package_id("nocolon@1.0").unwrap_err(),
        "invalid WIT package ID: expected 'namespace:name', got 'nocolon@1.0'"
    );
}

#[test]
fn parse_wit_package_id_splits_at_last_at_and_first_colon() {
    let (ns, name, ver) = parse_wit_package_id("a:b:c@x@1.2").unwrap();
    assert_eq!(ns, "a");
    assert_eq!(name, "b:c@x");
    assert_eq!(ver.as_deref(), Some("1.2"));
}

#[test]
fn kebab_case_leading_and_doubled_separators() {
    assert_eq!(to_kebab_case("__init__"), "init-");
    assert_eq!(to_kebab_case("a__b"), "a-b");
    assert_eq!(to_kebab_case("XMLHttpRequest"), "xml-http-request");
}

#[test]
fn kebab_case_is_idempotent_on_examples() {
    for s in ["camelCase", "HTMLParser", "snake_case", "a-b", "getHTTPResponse"] {
        let once = to_kebab_case(s);
        assert_eq!(to_kebab_case(&once), once);
    }
}

#[test]
fn kebab_case_non_ascii_lowercases() {
    assert_eq!(to_kebab_case("ÉtéFort"), "été-fort");
}

#[test]
fn marker_types_construct() {
    let _s: Stream<u8> = Stream::new();
    let _f: Future<String> = Future::new();
}

#[test]
fn kebab_shape_holds_for_non_ascii_input() {
    for s in ["ÉtatMajor", "naïveParser", "KELVIN_\u{212A}elvin", "\u{130}stanbul--X"] {
        let r = to_kebab_case(s);
        assert!(!r.starts_with('-'));
        assert!(!r.contains("--"));
        assert!(!r.contains('_'));
        assert!(!r.chars().any(|c| c.is_ascii_uppercase()));
    }
}

#[test]
fn kebab_case_is_idempotent_on_letters_with_a_lower_case_form() {
    for s in ["ÉtatMajor", "naïveParser", "ÉtéFort", "getHTTPResponse", "already-kebab"] {
        let once = to_kebab_case(s);
        assert_eq!(to_kebab_case(&once), once);
    }
}

#[test]
fn kebab_case_idempotence_depends_on_kept_characters() {
    let alone = to_kebab_case("\u{1D400}");
    assert_eq!(to_kebab_case(&alone), alone);
    let after_lower = to_kebab_case("A\u{1D400}");
    assert_eq!(after_lower, "a\u{1D400}");
    assert_eq!(to_kebab_case(&after_lower), "a-\u{1D400}");
}
