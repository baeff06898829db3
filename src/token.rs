//! Tokens produced by the lexer.
use vstd::prelude::*;
use crate::error::Location;

verus! {

/// The kinds of token.
#[derive(Debug, Clone, Copy, PartialEq, Eq, Structural)]
pub enum TokenType {
    /// Raw text outside tags.
    Text,
    /// `%`, which opens a comment.
    Percent,
    /// `-`, a whitespace-control marker.
    Dash,
    /// `]}`, the closing delimiter.
    Close,
    /// `#`, which opens a block.
    Hash,
    /// `/`, which closes a block or separates partial-name segments.
    Slash,
    /// `!unsecure`
    BangUnsecure,
    /// `!include`
    BangInclude,
    /// `!`, the required modifier.
    Exclamation,
    KwIf,
    KwUnless,
    KwElse,
    KwEach,
    KwAs,
    /// `.`
    Dot,
    /// `,`
    Comma,
    /// `=`
    Equal,
    /// `?`, the nullable modifier.
    Question,
    /// A run of spaces, tabs, carriage returns and line feeds inside a tag.
    Whitespace,
    /// `[A-Za-z][A-Za-z0-9_]*` that is not a keyword.
    Ident,
    /// End of input.
    Eof,
}

/// The fixed source text of a token kind; empty for the kinds whose text varies.
pub open spec fn literal_chars(t: TokenType) -> Seq<char> {
    match t {
        TokenType::Percent => seq!['%'],
        TokenType::Dash => seq!['-'],
        TokenType::Close => seq![']', '}'],
        TokenType::Hash => seq!['#'],
        TokenType::Slash => seq!['/'],
        TokenType::BangUnsecure => seq!['!', 'u', 'n', 's', 'e', 'c', 'u', 'r', 'e'],
        TokenType::BangInclude => seq!['!', 'i', 'n', 'c', 'l', 'u', 'd', 'e'],
        TokenType::Exclamation => seq!['!'],
        TokenType::KwIf => seq!['i', 'f'],
        TokenType::KwUnless => seq!['u', 'n', 'l', 'e', 's', 's'],
        TokenType::KwElse => seq!['e', 'l', 's', 'e'],
        TokenType::KwEach => seq!['e', 'a', 'c', 'h'],
        TokenType::KwAs => seq!['a', 's'],
        TokenType::Dot => seq!['.'],
        TokenType::Comma => seq![','],
        TokenType::Equal => seq!['='],
        TokenType::Question => seq!['?'],
        _ => Seq::empty(),
    }
}

/// Whether a kind has one fixed source text.
pub open spec fn has_literal(t: TokenType) -> bool {
    !(t is Text || t is Whitespace || t is Ident || t is Eof)
}

impl TokenType {
    /// The fixed source text of this kind, or `None` for text, whitespace,
    /// identifiers and end of input.
    pub fn literal(self) -> (r: Option<&'static str>)
        ensures
            r is Some <==> has_literal(self),
            r is Some ==> r->Some_0@ == literal_chars(self),
    {
        match self {
            TokenType::Percent => { proof { reveal_strlit("%"); } Some("%") },
            TokenType::Dash => { proof { reveal_strlit("-"); } Some("-") },
            TokenType::Close => { proof { reveal_strlit("]}"); } Some("]}") },
            TokenType::Hash => { proof { reveal_strlit("#"); } Some("#") },
            TokenType::Slash => { proof { reveal_strlit("/"); } Some("/") },
            TokenType::BangUnsecure => { proof { reveal_strlit("!unsecure"); } Some("!unsecure") },
            TokenType::BangInclude => { proof { reveal_strlit("!include"); } Some("!include") },
            TokenType::Exclamation => { proof { reveal_strlit("!"); } Some("!") },
            TokenType::KwIf => { proof { reveal_strlit("if"); } Some("if") },
            TokenType::KwUnless => { proof { reveal_strlit("unless"); } Some("unless") },
            TokenType::KwElse => { proof { reveal_strlit("else"); } Some("else") },
            TokenType::KwEach => { proof { reveal_strlit("each"); } Some("each") },
            TokenType::KwAs => { proof { reveal_strlit("as"); } Some("as") },
            TokenType::Dot => { proof { reveal_strlit("."); } Some(".") },
            TokenType::Comma => { proof { reveal_strlit(","); } Some(",") },
            TokenType::Equal => { proof { reveal_strlit("="); } Some("=") },
            TokenType::Question => { proof { reveal_strlit("?"); } Some("?") },
            TokenType::Text | TokenType::Whitespace | TokenType::Ident | TokenType::Eof => None,
        }
    }
}

/// A token: its kind, its text and where it starts.
#[derive(Debug, Clone)]
pub struct Token {
    pub token_type: TokenType,
    pub value: String,
    pub location: Location,
}

impl Token {
    pub fn new(token_type: TokenType, value: String, location: Location) -> (r: Token)
        ensures
            r.token_type == token_type,
            r.value@ == value@,
            r.location == location,
    {
        Token { token_type, value, location }
    }
}

} // verus!
