use abigen_util::idents::{
    expand_input_name, preserve_underscore_delim, to_identifier, try_ident, try_safe_ident,
};

#[test]
fn input_name_to_ident_empty() {
    assert_eq!(expand_input_name(0, "").unwrap().to_string(), "p0");
}

#[test]
fn input_name_to_ident_keyword() {
    assert_eq!(expand_input_name(0, "self").unwrap().to_string(), "self_");
}

#[test]
fn input_name_to_ident_snake_case() {
    assert_eq!(expand_input_name(0, "CamelCase1").unwrap().to_string(), "camel_case_1");
}

#[test]
fn to_identifier_empty_uses_placeholder() {
    assert_eq!(to_identifier(0, ""), "p0");
    assert_eq!(to_identifier(7, ""), "p7");
    assert_eq!(to_identifier(12, ""), "p12");
}

#[test]
fn to_identifier_keyword_escaped() {
    let t = to_identifier(0, "self");
    assert!(t.ends_with('_'));
    assert_eq!(t, "self_");
}

#[test]
fn to_identifier_snake_cases() {
    assert_eq!(to_identifier(0, "CamelCase1"), "camel_case_1");
    assert_eq!(to_identifier(0, "pascalCase"), "pascal_case");
    assert_eq!(to_identifier(0, "already_snake"), "already_snake");
}

#[test]
fn underscore_fencing_round_trip() {
    assert_eq!(preserve_underscore_delim("pascalCase", "__pascalcase__"), "__pascalCase__");
}

#[test]
fn underscore_fencing_edges() {
    assert_eq!(preserve_underscore_delim("abc", "xyz"), "abc");
    assert_eq!(preserve_underscore_delim("abc", "_x"), "_abc");
    assert_eq!(preserve_underscore_delim("abc", "x__"), "abc__");
    assert_eq!(preserve_underscore_delim("abc", "___"), "___abc___");
    assert_eq!(preserve_underscore_delim("", ""), "");
}

#[test]
fn try_ident_checks_shape() {
    assert_eq!(try_ident("foo").unwrap().to_string(), "foo");
    assert_eq!(try_ident("fn").unwrap().to_string(), "fn");
    assert!(try_ident("").is_none());
    assert!(try_ident("1abc").is_none());
    assert!(try_ident("a b").is_none());
}

#[test]
fn try_safe_ident_escapes_keywords() {
    assert_eq!(try_safe_ident("self").unwrap().to_string(), "self_");
    assert_eq!(try_safe_ident("x").unwrap().to_string(), "x");
    assert!(try_safe_ident("").is_none());
}
