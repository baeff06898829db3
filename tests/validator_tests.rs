use natsuzora::error::{Location, NatsuzoraError};
use natsuzora::validator::{
    is_reserved_word, to_keyword, validate_identifier, validate_include_name_runtime,
    validate_include_name_syntax,
};
use natsuzora::token::TokenType;

fn loc() -> Location {
    Location::new(1, 1, 0)
}

#[test]
fn accepts_valid_identifiers() {
    assert!(validate_identifier("name", &loc()).is_ok());
    assert!(validate_identifier("userName", &loc()).is_ok());
    assert!(validate_identifier("user_name", &loc()).is_ok());
    assert!(validate_identifier("item123", &loc()).is_ok());
}

#[test]
fn rejects_reserved_words() {
    assert!(matches!(validate_identifier("if", &loc()), Err(NatsuzoraError::ReservedWordError { .. })));
    assert!(matches!(validate_identifier("each", &loc()), Err(NatsuzoraError::ReservedWordError { .. })));
    assert!(matches!(validate_identifier("true", &loc()), Err(NatsuzoraError::ReservedWordError { .. })));
    assert!(matches!(validate_identifier("null", &loc()), Err(NatsuzoraError::ReservedWordError { .. })));
}

#[test]
fn rejects_underscore_prefix() {
    assert!(matches!(validate_identifier("_private", &loc()), Err(NatsuzoraError::ParseError { .. })));
    assert!(matches!(validate_identifier("__dunder", &loc()), Err(NatsuzoraError::ParseError { .. })));
}

#[test]
fn rejects_at_symbol() {
    assert!(matches!(validate_identifier("user@name", &loc()), Err(NatsuzoraError::ParseError { .. })));
    assert!(matches!(validate_identifier("@special", &loc()), Err(NatsuzoraError::ParseError { .. })));
}

#[test]
fn validator_accepts_valid_include_names() {
    assert!(validate_include_name_syntax("/greeting", &loc()).is_ok());
    assert!(validate_include_name_syntax("/components/card", &loc()).is_ok());
    assert!(validate_include_name_syntax("/a/b/c/d", &loc()).is_ok());
    assert!(validate_include_name_runtime("/greeting").is_ok());
    assert!(validate_include_name_runtime("/components/card").is_ok());
}

#[test]
fn rejects_without_leading_slash() {
    assert!(matches!(validate_include_name_syntax("greeting", &loc()), Err(NatsuzoraError::ParseError { .. })));
}

#[test]
fn rejects_path_traversal() {
    assert!(matches!(
        validate_include_name_syntax("/path/../traversal", &loc()),
        Err(NatsuzoraError::ParseError { .. })
    ));
}

#[test]
fn rejects_double_slash() {
    assert!(matches!(validate_include_name_syntax("/path//double", &loc()), Err(NatsuzoraError::ParseError { .. })));
}

#[test]
fn rejects_colon() {
    assert!(matches!(validate_include_name_syntax("/c:/windows/path", &loc()), Err(NatsuzoraError::ParseError { .. })));
}

#[test]
fn rejects_backslash() {
    assert!(matches!(
        validate_include_name_runtime("/path\\with\\backslash"),
        Err(NatsuzoraError::IncludeError { .. })
    ));
}

#[test]
fn validator_reserved_words_and_keywords() {
    for w in ["if", "unless", "else", "each", "as", "unsecure", "true", "false", "null", "include", "in", "of"] {
        assert!(is_reserved_word(w), "{} should be reserved", w);
    }
    assert!(!is_reserved_word("iff"));
    assert!(!is_reserved_word(""));
    assert_eq!(to_keyword("unless"), Some(TokenType::KwUnless));
    assert_eq!(to_keyword("as"), Some(TokenType::KwAs));
    assert_eq!(to_keyword("unsecure"), None);
}

#[test]
fn validator_include_name_edge_cases() {
    assert!(validate_include_name_runtime("/").is_err());
    assert!(validate_include_name_runtime("/a/").is_err());
    assert!(validate_include_name_runtime("/a/_b").is_err());
    assert!(validate_include_name_runtime("/a/9b").is_err());
    assert!(validate_include_name_runtime("/a1/b_2").is_ok());
}
