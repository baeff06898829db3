use natsuzora::error::ParseError;
use natsuzora::lexer::tokenize;
use natsuzora::token::{Token, TokenType};

fn types(tokens: &[Token]) -> Vec<TokenType> {
    tokens.iter().map(|t| t.token_type).collect()
}

#[test]
fn lexer_test_plain_text() {
    let tokens = tokenize("Hello, World!").unwrap();
    assert_eq!(types(&tokens), vec![TokenType::Text, TokenType::Eof]);
    assert_eq!(tokens[0].value, "Hello, World!");
}

#[test]
fn test_variable() {
    let tokens = tokenize("{[ name ]}").unwrap();
    assert_eq!(
        types(&tokens),
        vec![
            TokenType::Whitespace,
            TokenType::Ident,
            TokenType::Whitespace,
            TokenType::Close,
            TokenType::Eof,
        ]
    );
    assert_eq!(tokens[1].value, "name");
}

#[test]
fn test_escape_sequence() {
    let tokens = tokenize("a{[{]}b").unwrap();
    assert_eq!(types(&tokens), vec![TokenType::Text, TokenType::Eof]);
    assert_eq!(tokens[0].value, "a{[b");
}

#[test]
fn test_keywords() {
    let tokens = tokenize("{[#if x]}y{[/if]}").unwrap();
    let tt: Vec<_> = types(&tokens);
    assert!(tt.contains(&TokenType::Hash));
    assert!(tt.contains(&TokenType::KwIf));
}

#[test]
fn test_dash_whitespace_control() {
    let tokens = tokenize("{[- name -]}").unwrap();
    assert!(types(&tokens).contains(&TokenType::Dash));
}

#[test]
fn test_bang_unsecure() {
    let tokens = tokenize("{[!unsecure html]}").unwrap();
    assert!(types(&tokens).contains(&TokenType::BangUnsecure));
}

#[test]
fn test_bang_include() {
    let tokens = tokenize("{[!include /path]}").unwrap();
    assert!(types(&tokens).contains(&TokenType::BangInclude));
}

#[test]
fn lexer_test_comment() {
    let tokens = tokenize("{[% this is a comment ]}").unwrap();
    assert!(types(&tokens).contains(&TokenType::Percent));
}

#[test]
fn all_fixed_literal_variants() {
    let cases: Vec<(TokenType, &str)> = vec![
        (TokenType::Percent, "%"),
        (TokenType::Dash, "-"),
        (TokenType::Close, "]}"),
        (TokenType::Hash, "#"),
        (TokenType::Slash, "/"),
        (TokenType::BangUnsecure, "!unsecure"),
        (TokenType::BangInclude, "!include"),
        (TokenType::Exclamation, "!"),
        (TokenType::KwIf, "if"),
        (TokenType::KwUnless, "unless"),
        (TokenType::KwElse, "else"),
        (TokenType::KwEach, "each"),
        (TokenType::KwAs, "as"),
        (TokenType::Dot, "."),
        (TokenType::Comma, ","),
        (TokenType::Equal, "="),
        (TokenType::Question, "?"),
    ];
    for (variant, expected) in cases {
        assert_eq!(variant.literal(), Some(expected), "{:?} should return Some({:?})", variant, expected);
    }
}

#[test]
fn all_dynamic_variants_return_none() {
    let dynamic = vec![TokenType::Text, TokenType::Whitespace, TokenType::Ident, TokenType::Eof];
    for variant in dynamic {
        assert_eq!(variant.literal(), None, "{:?} should return None", variant);
    }
}

#[test]
fn lexer_tracks_line_column_and_byte_offset() {
    let tokens = tokenize("ab\ncd{[ x ]}").unwrap();
    assert_eq!(tokens[0].location.line, 1);
    assert_eq!(tokens[0].location.column, 1);
    // `{[` ends at byte 7; the whitespace token starts there, on line 2.
    assert_eq!(tokens[1].location.line, 2);
    assert_eq!(tokens[1].location.column, 5);
    assert_eq!(tokens[1].location.byte_offset, 7);
    // Eof sits just past the end.
    let eof = tokens.last().unwrap();
    assert_eq!(eof.token_type, TokenType::Eof);
    assert_eq!(eof.location.byte_offset, 12);
}

#[test]
fn lexer_column_counts_bytes() {
    // 'é' is two bytes in UTF-8, so the tag opens at column 4.
    let tokens = tokenize("\u{e9}x{[y]}").unwrap();
    assert_eq!(tokens[0].value, "\u{e9}x");
    assert_eq!(tokens[1].location.column, 6);
    assert_eq!(tokens[1].location.byte_offset, 5);
}

#[test]
fn lexer_unknown_byte_in_tag_is_syntax_error() {
    match tokenize("ab{[ @ ]}") {
        Err(ParseError::SyntaxError { line, column, byte_start, byte_end }) => {
            assert_eq!((line, column), (1, 6));
            assert_eq!((byte_start, byte_end), (5, 6));
        }
        other => panic!("expected a syntax error, got {:?}", other),
    }
}

#[test]
fn lexer_bang_words_need_a_word_boundary() {
    let tokens = tokenize("{[!unsecurex]}").unwrap();
    assert_eq!(tokens[0].token_type, TokenType::Exclamation);
    assert_eq!(tokens[1].token_type, TokenType::Ident);
    assert_eq!(tokens[1].value, "unsecurex");
}

#[test]
fn lexer_escape_never_opens_a_tag() {
    let tokens = tokenize("x {[{]} y {[{]}{[{]} z").unwrap();
    assert_eq!(types(&tokens), vec![TokenType::Text, TokenType::Eof]);
    assert_eq!(tokens[0].value, "x {[ y {[{[ z");
}

#[test]
fn lexer_empty_source_is_only_eof() {
    let tokens = tokenize("").unwrap();
    assert_eq!(types(&tokens), vec![TokenType::Eof]);
}

#[test]
fn lexer_empty_tag_at_end_is_an_error() {
    assert!(matches!(tokenize("ab{["), Err(ParseError::UnexpectedToken { line: 1, column: 5, .. })));
    assert!(matches!(tokenize("ab{[-"), Err(ParseError::UnexpectedToken { .. })));
    assert!(tokenize("ab{[ x").is_ok());
    assert!(tokenize("ab{[%").is_ok());
}
