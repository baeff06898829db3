use natsuzora::ast::{AstNode, Modifier};
use natsuzora::error::{Location, ParseError};
use natsuzora::parse;
use natsuzora::parser::Parser;
use natsuzora::token::{Token, TokenType};

#[test]
fn parse_simple_text() {
    let template = parse("Hello, World!").unwrap();
    assert_eq!(template.nodes().len(), 1);
    match &template.nodes()[0] {
        AstNode::Text(t) => assert_eq!(t.content, "Hello, World!"),
        _ => panic!("expected text node"),
    }
}

#[test]
fn parse_variable_with_location() {
    let template = parse("Hello, {[ user.name ]}!").unwrap();
    assert_eq!(template.nodes().len(), 3);
    match &template.nodes()[1] {
        AstNode::Variable(v) => {
            assert_eq!(v.path.segments(), &["user", "name"]);
            assert_eq!(v.location.line, 1);
            assert_eq!(v.location.column, 8);
        }
        _ => panic!("expected variable node"),
    }
}

#[test]
fn parse_variable_with_modifier() {
    let template = parse("{[ name? ]}").unwrap();
    match &template.nodes()[0] {
        AstNode::Variable(v) => assert_eq!(v.modifier, Modifier::Nullable),
        _ => panic!("expected variable node"),
    }
    let template = parse("{[ name! ]}").unwrap();
    match &template.nodes()[0] {
        AstNode::Variable(v) => assert_eq!(v.modifier, Modifier::Required),
        _ => panic!("expected variable node"),
    }
}

#[test]
fn parse_if_block_with_else() {
    let template = parse("{[#if show]}yes{[#else]}no{[/if]}").unwrap();
    assert_eq!(template.nodes().len(), 1);
    match &template.nodes()[0] {
        AstNode::If(block) => {
            assert_eq!(block.condition.segments(), &["show"]);
            assert_eq!(block.then_branch.len(), 1);
            assert!(block.else_branch.is_some());
        }
        _ => panic!("expected if block"),
    }
}

#[test]
fn parse_each_block() {
    let template = parse("{[#each items as item]}{[ item.name ]}{[/each]}").unwrap();
    match &template.nodes()[0] {
        AstNode::Each(block) => {
            assert_eq!(block.collection.segments(), &["items"]);
            assert_eq!(block.item_ident, "item");
            assert_eq!(block.body.len(), 1);
        }
        _ => panic!("expected each block"),
    }
}

#[test]
fn parse_include() {
    let template = parse("{[!include /shared/header title=page.title]}").unwrap();
    match &template.nodes()[0] {
        AstNode::Include(inc) => {
            assert_eq!(inc.name, "/shared/header");
            assert_eq!(inc.args.len(), 1);
            assert_eq!(inc.args[0].name, "title");
            assert_eq!(inc.args[0].value.segments(), &["page", "title"]);
        }
        _ => panic!("expected include node"),
    }
}

#[test]
fn parse_delimiter_escape() {
    let template = parse("literal: {[{]}").unwrap();
    assert_eq!(template.nodes().len(), 1);
    match &template.nodes()[0] {
        AstNode::Text(t) => assert_eq!(t.content, "literal: {["),
        _ => panic!("expected text node"),
    }
}

#[test]
fn error_location() {
    let result = parse("{[ invalid.. ]}");
    assert!(result.is_err());
    if let Err(ParseError::SyntaxError { line, column, .. }) = result {
        assert_eq!(line, 1);
        assert!(column > 0);
    }
}

#[test]
fn test_parse_simple_variable() {
    let tmpl = parse("{[ name ]}").unwrap();
    assert_eq!(tmpl.nodes().len(), 1);
}

#[test]
fn test_parse_if_else() {
    let tmpl = parse("{[#if x]}a{[#else]}b{[/if]}").unwrap();
    assert_eq!(tmpl.nodes().len(), 1);
}

#[test]
fn test_parse_nested_blocks() {
    let tmpl = parse("{[#each items as item]}{[#if item.show]}{[ item.name ]}{[/if]}{[/each]}").unwrap();
    assert_eq!(tmpl.nodes().len(), 1);
}

#[test]
fn parser_test_reserved_word_error() {
    let result = parse("{[ if ]}");
    assert!(result.is_err());
}

#[test]
fn test_underscore_identifier_error() {
    let result = parse("{[ _private ]}");
    assert!(result.is_err());
}

#[test]
fn parser_reserved_word_kinds() {
    assert!(matches!(parse("{[ true ]}"), Err(ParseError::ReservedWord { .. })));
    assert!(matches!(parse("{[ each ]}"), Err(ParseError::ReservedWord { .. })));
    assert!(matches!(parse("{[ a.null ]}"), Err(ParseError::ReservedWord { .. })));
    assert!(matches!(parse("{[ _x ]}"), Err(ParseError::SyntaxError { .. })));
}

#[test]
fn parser_invalid_identifier_from_tokens() {
    let loc = Location::new(1, 1, 0);
    let tokens = vec![
        Token::new(TokenType::Ident, "_hidden".to_string(), loc),
        Token::new(TokenType::Close, "]}".to_string(), loc),
        Token::new(TokenType::Eof, String::new(), loc),
    ];
    let mut parser = Parser::new(tokens);
    assert!(matches!(parser.parse(), Err(ParseError::InvalidIdentifier { .. })));
}

#[test]
fn parser_block_errors() {
    assert!(matches!(parse("{[/if]}"), Err(ParseError::UnexpectedToken { .. })));
    assert!(matches!(parse("{[#if x]}a"), Err(ParseError::UnexpectedToken { .. })));
    assert!(matches!(parse("{[#if x]}a{[/each]}"), Err(ParseError::UnexpectedToken { .. })));
    assert!(matches!(parse("{[#else]}"), Err(ParseError::UnexpectedToken { .. })));
    assert!(matches!(parse("{[#unless x]}a{[#else]}b{[/unless]}"), Err(ParseError::UnexpectedToken { .. })));
    assert!(matches!(parse("{[#if x]}a{[#else]}b{[#else]}c{[/if]}"), Err(ParseError::UnexpectedToken { .. })));
    assert!(matches!(parse("{[ #if x]}a{[/if]}"), Err(ParseError::UnexpectedToken { .. })));
    assert!(matches!(parse("{[#ifx]}a{[/if]}"), Err(ParseError::UnexpectedToken { .. })));
    assert!(matches!(parse("{[ name"), Err(ParseError::UnexpectedToken { .. })));
}

#[test]
fn parser_include_errors() {
    assert!(matches!(
        parse("{[!include /a x=b x=c ]}"),
        Err(ParseError::UnexpectedToken { .. })
    ));
    assert!(parse("{[!include a ]}").is_err());
    assert!(parse("{[!include /a//b ]}").is_err());
    assert!(parse("{[!include /a/../b ]}").is_err());
    let t = parse("{[!include /a ]}").unwrap();
    match &t.nodes()[0] {
        AstNode::Include(inc) => assert!(inc.args.is_empty()),
        _ => panic!("expected include node"),
    }
}

#[test]
fn parser_unless_and_unsecure() {
    let t = parse("{[#unless a.b]}x{[/unless]}{[!unsecure h]}").unwrap();
    assert_eq!(t.nodes().len(), 2);
    assert!(matches!(&t.nodes()[0], AstNode::Unless(u) if u.condition.segments() == ["a", "b"]));
    assert!(matches!(&t.nodes()[1], AstNode::Unsecure(u) if u.path.as_str() == "h"));
}

#[test]
fn parser_path_as_str_joins_with_dots() {
    let t = parse("{[ a.b.c ]}").unwrap();
    match &t.nodes()[0] {
        AstNode::Variable(v) => {
            assert_eq!(v.path.as_str(), "a.b.c");
            assert!(!v.path.is_empty());
        }
        _ => panic!("expected variable node"),
    }
}

fn parse_with_lexer(source: &str) -> Result<natsuzora::Template, ParseError> {
    let mut lexer = natsuzora::lexer::Lexer::new(source);
    let tokens = lexer.tokenize()?;
    let tokens = natsuzora::token_processor::process(tokens)?;
    let mut parser = Parser::new(tokens);
    parser.parse()
}

#[test]
fn test_parse_text() {
    let template = parse_with_lexer("Hello, world!").unwrap();
    assert_eq!(template.nodes().len(), 1);
    if let AstNode::Text(node) = &template.nodes()[0] {
        assert_eq!(node.content, "Hello, world!");
    } else {
        panic!("Expected Text node");
    }
}

#[test]
fn test_parse_variable() {
    let template = parse_with_lexer("{[ name ]}").unwrap();
    assert_eq!(template.nodes().len(), 1);
    if let AstNode::Variable(node) = &template.nodes()[0] {
        assert_eq!(node.path.segments(), vec!["name"]);
    } else {
        panic!("Expected Variable node");
    }
}

#[test]
fn test_parse_path() {
    let template = parse_with_lexer("{[ user.profile.name ]}").unwrap();
    if let AstNode::Variable(node) = &template.nodes()[0] {
        assert_eq!(node.path.segments(), vec!["user", "profile", "name"]);
    } else {
        panic!("Expected Variable node");
    }
}

#[test]
fn test_parse_if_block() {
    let template = parse_with_lexer("{[#if visible]}Hello{[/if]}").unwrap();
    if let AstNode::If(node) = &template.nodes()[0] {
        assert_eq!(node.condition.segments(), vec!["visible"]);
        assert_eq!(node.then_branch.len(), 1);
        assert!(node.else_branch.is_none());
    } else {
        panic!("Expected IfBlock node");
    }
}

#[test]
fn test_parse_if_else_block() {
    let template = parse_with_lexer("{[#if visible]}Yes{[#else]}No{[/if]}").unwrap();
    if let AstNode::If(node) = &template.nodes()[0] {
        assert!(node.else_branch.is_some());
        assert_eq!(node.else_branch.as_ref().unwrap().len(), 1);
    } else {
        panic!("Expected IfBlock node");
    }
}

#[test]
fn test_parse_unless_block() {
    let template = parse_with_lexer("{[#unless hidden]}visible{[/unless]}").unwrap();
    if let AstNode::Unless(node) = &template.nodes()[0] {
        assert_eq!(node.condition.segments(), vec!["hidden"]);
        assert_eq!(node.body.len(), 1);
    } else {
        panic!("Expected UnlessBlock node");
    }
}

#[test]
fn test_parse_nested_unless_blocks() {
    let template = parse_with_lexer("{[#unless a]}{[#unless b]}inner{[/unless]}{[/unless]}").unwrap();
    if let AstNode::Unless(outer) = &template.nodes()[0] {
        assert_eq!(outer.body.len(), 1);
        if let AstNode::Unless(inner) = &outer.body[0] {
            assert_eq!(inner.condition.segments(), vec!["b"]);
        } else {
            panic!("Expected inner UnlessBlock node");
        }
    } else {
        panic!("Expected outer UnlessBlock node");
    }
}

#[test]
fn test_parse_each_block() {
    let template = parse_with_lexer("{[#each items as item]}{[ item ]}{[/each]}").unwrap();
    if let AstNode::Each(node) = &template.nodes()[0] {
        assert_eq!(node.collection.segments(), vec!["items"]);
        assert_eq!(node.item_ident, "item");
    } else {
        panic!("Expected EachBlock node");
    }
}

#[test]
fn parser_reserved_word_reports_the_word() {
    match parse_with_lexer("{[ if ]}") {
        Err(ParseError::ReservedWord { word, .. }) => assert_eq!(word, "if"),
        other => panic!("Expected ReservedWord, got {:?}", other.map(|_| ())),
    }
}

#[test]
fn parser_tag_open_at_end_of_input_fails() {
    assert!(matches!(parse("ab{["), Err(ParseError::UnexpectedToken { line: 1, column: 5, .. })));
    assert!(matches!(parse("ab{[-"), Err(ParseError::UnexpectedToken { .. })));
    assert!(matches!(parse("{[--"), Err(ParseError::UnexpectedToken { .. })));
    assert!(matches!(parse("{["), Err(ParseError::UnexpectedToken { .. })));
    assert!(matches!(parse("ab{[%"), Err(ParseError::UnclosedComment { .. })));
    assert!(parse("ab{[-]}").is_err());
    assert!(natsuzora::Natsuzora::parse("ab{[").is_err());
    assert!(natsuzora::Natsuzora::parse("ab{[-").is_err());
}

#[test]
fn parser_error_location_reaches_entry_point() {
    match natsuzora::Natsuzora::parse("ab\n  {[ if ]}") {
        Err(natsuzora::NatsuzoraError::ParseError { message, location }) => {
            assert_eq!((location.line, location.column), (2, 6));
            assert!(message.contains("reserved word 'if'"));
            assert!(message.contains("at line 2, column 6"));
        }
        other => panic!("expected a parse error, got {:?}", other.map(|_| ())),
    }
    match natsuzora::Natsuzora::parse("x{[ @ ]}") {
        Err(natsuzora::NatsuzoraError::ParseError { message, location }) => {
            assert_eq!((location.line, location.column, location.byte_offset), (1, 5, 4));
            assert!(message.starts_with("syntax error"));
        }
        other => panic!("expected a parse error, got {:?}", other.map(|_| ())),
    }
}
