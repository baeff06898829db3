//! Source locations and the error kinds of every stage.
use vstd::prelude::*;

verus! {

/// A position in template source: 1-based line and column, 0-based byte offset.
#[derive(Debug, Clone, Copy, PartialEq, Eq, Default, Structural)]
pub struct Location {
    pub line: usize,
    pub column: usize,
    pub byte_offset: usize,
}

impl Location {
    pub fn new(line: usize, column: usize, byte_offset: usize) -> (r: Location)
        ensures
            r.line == line,
            r.column == column,
            r.byte_offset == byte_offset,
    {
        Location { line, column, byte_offset }
    }
}

/// Errors of the front end: lexing, token processing and parsing.
#[derive(Debug, Clone, PartialEq, Eq)]
pub enum ParseError {
    /// A byte in tag mode that no token starts with.
    SyntaxError { line: usize, column: usize, byte_start: usize, byte_end: usize },
    /// A comment tag that reaches the end of input before `]}`.
    UnclosedComment { line: usize, column: usize },
    /// A token that no grammar rule accepts where it stands.
    UnexpectedToken { message: String, line: usize, column: usize },
    /// A reserved word used as an identifier.
    ReservedWord { word: String, line: usize, column: usize },
    /// An identifier that starts with `_` or breaks the character rule.
    InvalidIdentifier { name: String, line: usize, column: usize },
}

/// Errors of rendering and of the library's entry points.
#[derive(Debug, Clone, PartialEq, Eq)]
pub enum NatsuzoraError {
    /// A template failed to parse; `message` describes the front-end error.
    ParseError { message: String, location: Location },
    /// A reserved word used as an identifier.
    ReservedWordError { word: String, location: Location },
    /// A path whose head or a later segment does not resolve.
    UndefinedVariable { name: String, location: Location },
    /// A value of the wrong shape for the operation.
    TypeError { message: String },
    /// A partial that cannot be resolved, escapes the root, or recurses.
    IncludeError { message: String },
    /// An `#each` binding that would hide a visible name.
    ShadowingError { name: String },
    /// A failure to read a partial's file.
    IoError { message: String },
}

} // verus!

verus! {

/// The model of an error: its kind, with the name for the kinds that carry
/// one, and without its message or location.
pub enum ErrorKind {
    Syntax,
    UnclosedComment,
    UnexpectedToken,
    ReservedWord,
    InvalidIdentifier,
    Parse,
    UndefinedVariable(Seq<char>),
    Type,
    Include,
    Shadowing(Seq<char>),
    Io,
}

/// The model of a rendering error.
pub open spec fn kind_of(e: NatsuzoraError) -> ErrorKind {
    match e {
        NatsuzoraError::ParseError { .. } => ErrorKind::Parse,
        NatsuzoraError::ReservedWordError { .. } => ErrorKind::ReservedWord,
        NatsuzoraError::UndefinedVariable { name, .. } => ErrorKind::UndefinedVariable(name@),
        NatsuzoraError::TypeError { .. } => ErrorKind::Type,
        NatsuzoraError::IncludeError { .. } => ErrorKind::Include,
        NatsuzoraError::ShadowingError { name } => ErrorKind::Shadowing(name@),
        NatsuzoraError::IoError { .. } => ErrorKind::Io,
    }
}

/// The kind of a front-end error.
pub open spec fn parse_kind_of(e: ParseError) -> ErrorKind {
    match e {
        ParseError::SyntaxError { .. } => ErrorKind::Syntax,
        ParseError::UnclosedComment { .. } => ErrorKind::UnclosedComment,
        ParseError::UnexpectedToken { .. } => ErrorKind::UnexpectedToken,
        ParseError::ReservedWord { .. } => ErrorKind::ReservedWord,
        ParseError::InvalidIdentifier { .. } => ErrorKind::InvalidIdentifier,
    }
}

/// The line and column a front-end error reports.
pub open spec fn error_line_column(e: ParseError) -> (usize, usize) {
    match e {
        ParseError::SyntaxError { line, column, .. } => (line, column),
        ParseError::UnclosedComment { line, column } => (line, column),
        ParseError::UnexpectedToken { line, column, .. } => (line, column),
        ParseError::ReservedWord { line, column, .. } => (line, column),
        ParseError::InvalidIdentifier { line, column, .. } => (line, column),
    }
}

/// Where a front-end error is at fault, as a location; only a syntax error
/// knows its byte offset.
pub open spec fn error_location(e: ParseError) -> Location {
    Location {
        line: error_line_column(e).0,
        column: error_line_column(e).1,
        byte_offset: match e {
            ParseError::SyntaxError { byte_start, .. } => byte_start,
            _ => 0,
        },
    }
}

/// The one-line text of a front-end error: what went wrong, then where.
pub open spec fn error_text(e: ParseError) -> Seq<char> {
    let head = match e {
        ParseError::SyntaxError { .. } => "syntax error"@,
        ParseError::UnclosedComment { .. } => "unclosed comment"@,
        ParseError::UnexpectedToken { message, .. } => message@,
        ParseError::ReservedWord { word, .. } => "reserved word '"@ + word@ + "' cannot be used as identifier"@,
        ParseError::InvalidIdentifier { name, .. } => "invalid identifier '"@ + name@ + "'"@,
    };
    head + " at line "@ + crate::value::nat_digits(error_line_column(e).0 as nat) + ", column "@
        + crate::value::nat_digits(error_line_column(e).1 as nat)
}

} // verus!
