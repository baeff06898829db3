use natsuzora::error::{Location, ParseError};
use natsuzora::token::{Token, TokenType};
use natsuzora::token_processor::{process, strip_leading_whitespace_if_blank_line};

fn text_token(value: &str) -> Token {
    Token::new(TokenType::Text, value.to_string(), Location::new(1, 1, 0))
}

fn tag_token(tt: TokenType, value: &str) -> Token {
    Token::new(tt, value.to_string(), Location::new(1, 1, 0))
}

#[test]
fn test_strip_leading_whitespace_if_blank_line() {
    assert_eq!(strip_leading_whitespace_if_blank_line("  \nhello"), "hello");
    assert_eq!(strip_leading_whitespace_if_blank_line("\thello"), "\thello");
    assert_eq!(strip_leading_whitespace_if_blank_line("hello"), "hello");
    assert_eq!(strip_leading_whitespace_if_blank_line("  hello"), "  hello");
    assert_eq!(strip_leading_whitespace_if_blank_line("\n  hello"), "  hello");
    assert_eq!(strip_leading_whitespace_if_blank_line("   "), "");
}

#[test]
fn test_comment_stripping() {
    let tokens = vec![
        text_token("hello"),
        tag_token(TokenType::Percent, "%"),
        tag_token(TokenType::Whitespace, " "),
        tag_token(TokenType::Ident, "comment"),
        tag_token(TokenType::Whitespace, " "),
        tag_token(TokenType::Close, "]}"),
        text_token("world"),
    ];
    let result = process(tokens).unwrap();
    let texts: Vec<&str> = result
        .iter()
        .filter(|t| t.token_type == TokenType::Text)
        .map(|t| t.value.as_str())
        .collect();
    assert_eq!(texts, vec!["hello", "world"]);
}

#[test]
fn test_unclosed_comment() {
    let tokens = vec![tag_token(TokenType::Percent, "%"), tag_token(TokenType::Ident, "no_close")];
    let result = process(tokens);
    assert!(result.is_err());
}

#[test]
fn test_dash_strips_trailing() {
    let tokens = vec![
        text_token("hello\n  "),
        tag_token(TokenType::Dash, "-"),
        tag_token(TokenType::Ident, "name"),
        tag_token(TokenType::Close, "]}"),
    ];
    let result = process(tokens).unwrap();
    let first_text = result.iter().find(|t| t.token_type == TokenType::Text).unwrap();
    assert_eq!(first_text.value, "hello\n");
}

#[test]
fn test_dash_does_not_strip_trailing_when_not_blank_line() {
    let tokens = vec![
        text_token("hello  "),
        tag_token(TokenType::Dash, "-"),
        tag_token(TokenType::Ident, "name"),
        tag_token(TokenType::Close, "]}"),
    ];
    let result = process(tokens).unwrap();
    let first_text = result.iter().find(|t| t.token_type == TokenType::Text).unwrap();
    assert_eq!(first_text.value, "hello  ");
}

#[test]
fn test_dash_strips_leading_next() {
    let tokens = vec![
        tag_token(TokenType::Ident, "name"),
        tag_token(TokenType::Dash, "-"),
        tag_token(TokenType::Close, "]}"),
        text_token("  \nhello"),
    ];
    let result = process(tokens).unwrap();
    let last_text = result.iter().rev().find(|t| t.token_type == TokenType::Text).unwrap();
    assert_eq!(last_text.value, "hello");
}

#[test]
fn test_dash_does_not_strip_leading_next_when_not_blank_line() {
    let tokens = vec![
        tag_token(TokenType::Ident, "name"),
        tag_token(TokenType::Dash, "-"),
        tag_token(TokenType::Close, "]}"),
        text_token("  hello"),
    ];
    let result = process(tokens).unwrap();
    let last_text = result.iter().rev().find(|t| t.token_type == TokenType::Text).unwrap();
    assert_eq!(last_text.value, "  hello");
}

#[test]
fn processor_unclosed_comment_reports_percent_location() {
    let tokens = vec![
        text_token("a"),
        Token::new(TokenType::Percent, "%".to_string(), Location::new(3, 7, 20)),
        tag_token(TokenType::Ident, "x"),
    ];
    assert_eq!(process(tokens).unwrap_err(), ParseError::UnclosedComment { line: 3, column: 7 });
}

#[test]
fn processor_right_trim_handles_crlf() {
    let tokens = vec![
        tag_token(TokenType::Ident, "name"),
        tag_token(TokenType::Dash, "-"),
        tag_token(TokenType::Close, "]}"),
        text_token(" \r\nnext"),
    ];
    let result = process(tokens).unwrap();
    assert_eq!(result.last().unwrap().value, "next");
}

#[test]
fn processor_trim_to_empty_drops_text() {
    let tokens = vec![
        text_token("\n   "),
        tag_token(TokenType::Dash, "-"),
        tag_token(TokenType::Ident, "a"),
        tag_token(TokenType::Dash, "-"),
        tag_token(TokenType::Close, "]}"),
        text_token("  \n"),
    ];
    let result = process(tokens).unwrap();
    let texts: Vec<&str> = result
        .iter()
        .filter(|t| t.token_type == TokenType::Text)
        .map(|t| t.value.as_str())
        .collect();
    assert_eq!(texts, vec!["\n"]);
    assert!(result.iter().all(|t| t.token_type != TokenType::Dash));
}

#[test]
fn processor_percent_after_content_is_not_a_comment() {
    let tokens = vec![
        tag_token(TokenType::Whitespace, " "),
        tag_token(TokenType::Percent, "%"),
        tag_token(TokenType::Close, "]}"),
    ];
    let result = process(tokens).unwrap();
    assert_eq!(result.len(), 3);
    assert_eq!(result[1].token_type, TokenType::Percent);
}
