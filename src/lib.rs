//! Natsuzora: a small, display-only template language for static HTML.
//!
//! A template is lexed, its whitespace-control markers and comments are
//! resolved on the token stream, and the tokens are parsed into an immutable
//! tree. Rendering walks that tree against a JSON-shaped value.
use vstd::prelude::*;

pub mod ast;
pub mod context;
pub mod error;
pub mod grammar;
pub mod html_escape;
pub mod laws;
pub mod lexer;
pub mod parser;
pub mod renderer;
pub mod template_loader;
pub mod text;
pub mod token;
pub mod token_processor;
pub mod validator;
pub mod value;

pub use html_escape::escape;
pub use ast::{AstNode, Modifier, Template};
pub use context::Context;
pub use error::{Location, NatsuzoraError, ParseError};
pub use renderer::Renderer;
pub use template_loader::TemplateLoader;
pub use value::Value;

use crate::grammar::{lexeme_toks, nodes_m, source_r};
use crate::lexer::{lex, location_at, source_fits};
use crate::error::{error_line_column, error_location, error_text, parse_kind_of};
use crate::text::push_str;
use crate::token_processor::toks_model;
use crate::value::digits_of;
use vstd::string::StrSliceExecFns;

verus! {

/// Lexes, processes and parses a template source: the result is the tree
/// that `source_r` gives, and every template returned keeps the tree
/// invariants. A source too long for its byte offsets to fit in `usize`
/// is refused.
pub fn parse(source: &str) -> (r: Result<Template, ParseError>)
    ensures
        r is Ok ==> r->Ok_0.wf(),
        source_fits(source@) ==> crate::parser::template_res(r) == source_r(source@),
        source_fits(source@) && lex(source@, 0, false) is Err ==> r is Err && error_line_column(r->Err_0) == (
            location_at(source@, lex(source@, 0, false)->Err_0).line,
            location_at(source@, lex(source@, 0, false)->Err_0).column,
        ),
{
    let n = source.unicode_len();
    if n > (usize::MAX - 8) / 4 {
        return Err(ParseError::UnexpectedToken { message: "Template source too large".to_owned(), line: 0, column: 0 });
    }
    let tokens = crate::lexer::tokenize(source)?;
    proof {
        let ls = lex(source@, 0, false)->Ok_0;
        assert(toks_model(tokens@) =~= lexeme_toks(ls, source@));
    }
    let tokens = crate::token_processor::process(tokens)?;
    crate::parser::parse(tokens)
}

/// Appends the decimal digits of `n`.
fn push_number(out: &mut String, n: usize)
    ensures
        final(out)@ == old(out)@ + crate::value::nat_digits(n as nat),
{
    let digits = digits_of(n as u64);
    let mut i: usize = 0;
    while i < digits.len()
        invariant
            i <= digits@.len(),
            out@ == old(out)@ + digits@.subrange(0, i as int),
        decreases digits@.len() - i,
    {
        crate::text::push_char(out, digits[i]);
        i += 1;
        assert(digits@.subrange(0, i as int) =~= digits@.subrange(0, i - 1 as int).push(digits@[i - 1]));
    }
    assert(digits@.subrange(0, digits@.len() as int) =~= digits@);
}

/// A one-line description of a front-end error.
pub fn parse_error_message(e: &ParseError) -> (r: String)
    ensures
        r@ == error_text(*e),
{
    let mut out = String::new();
    let (line, column) = match e {
        ParseError::SyntaxError { line, column, .. } => {
            push_str(&mut out, "syntax error");
            (*line, *column)
        },
        ParseError::UnclosedComment { line, column } => {
            push_str(&mut out, "unclosed comment");
            (*line, *column)
        },
        ParseError::UnexpectedToken { message, line, column } => {
            push_str(&mut out, message.as_str());
            (*line, *column)
        },
        ParseError::ReservedWord { word, line, column } => {
            push_str(&mut out, "reserved word '");
            push_str(&mut out, word.as_str());
            push_str(&mut out, "' cannot be used as identifier");
            (*line, *column)
        },
        ParseError::InvalidIdentifier { name, line, column } => {
            push_str(&mut out, "invalid identifier '");
            push_str(&mut out, name.as_str());
            push_str(&mut out, "'");
            (*line, *column)
        },
    };
    let ghost head = out@;
    push_str(&mut out, " at line ");
    push_number(&mut out, line);
    push_str(&mut out, ", column ");
    push_number(&mut out, column);
    proof {
        assert(error_line_column(*e) == (line, column));
        assert(out@ =~= error_text(*e));
    }
    out
}

/// The error of an entry point for a front-end error: its text and where it is at fault.
fn front_end_error(e: &ParseError) -> (r: NatsuzoraError)
    ensures
        r == (NatsuzoraError::ParseError { message: r->ParseError_message, location: error_location(*e) }),
        r->ParseError_message@ == error_text(*e),
{
    let location = match e {
        ParseError::SyntaxError { line, column, byte_start, .. } => Location::new(*line, *column, *byte_start),
        ParseError::UnclosedComment { line, column } => Location::new(*line, *column, 0),
        ParseError::UnexpectedToken { line, column, .. } => Location::new(*line, *column, 0),
        ParseError::ReservedWord { line, column, .. } => Location::new(*line, *column, 0),
        ParseError::InvalidIdentifier { line, column, .. } => Location::new(*line, *column, 0),
    };
    NatsuzoraError::ParseError { message: parse_error_message(e), location }
}

/// A parsed template, ready to render any number of times.
pub struct Natsuzora {
    template: Template,
    include_root: Option<String>,
}

impl Natsuzora {
    pub closed spec fn spec_template(&self) -> Template {
        self.template
    }

    pub closed spec fn spec_include_root(&self) -> Option<Seq<char>> {
        match self.include_root {
            Some(s) => Some(s@),
            None => None,
        }
    }

    /// Parses a template source; a front-end error becomes a `ParseError`.
    pub fn parse(source: &str) -> (r: Result<Natsuzora, NatsuzoraError>)
        ensures
            r is Ok ==> r->Ok_0.spec_template().wf() && r->Ok_0.spec_include_root() is None,
            r is Err ==> r->Err_0 is ParseError && exists|e: ParseError| {
                &&& r->Err_0->ParseError_location == error_location(e)
                &&& r->Err_0->ParseError_message@ == error_text(e)
                &&& (source_fits(source@) ==> source_r(source@) == Err::<Seq<crate::grammar::NodeM>, crate::error::ErrorKind>(parse_kind_of(e)))
                &&& (source_fits(source@) && lex(source@, 0, false) is Err ==> error_line_column(e) == (
                    location_at(source@, lex(source@, 0, false)->Err_0).line,
                    location_at(source@, lex(source@, 0, false)->Err_0).column,
                ))
            },
            source_fits(source@) ==> match source_r(source@) {
                Ok(ns) => r is Ok && nodes_m(r->Ok_0.spec_template().spec_nodes()) == ns,
                Err(_) => r is Err,
            },
    {
        match crate::parse(source) {
            Ok(template) => Ok(Natsuzora { template, include_root: None }),
            Err(e) => Err(front_end_error(&e)),
        }
    }

    /// Parses a template source whose partials live under `include_root`.
    pub fn parse_with_includes(source: &str, include_root: &str) -> (r: Result<Natsuzora, NatsuzoraError>)
        ensures
            r is Ok ==> r->Ok_0.spec_template().wf() && r->Ok_0.spec_include_root() == Some(include_root@),
            r is Err ==> r->Err_0 is ParseError,
            source_fits(source@) ==> match source_r(source@) {
                Ok(ns) => r is Ok && nodes_m(r->Ok_0.spec_template().spec_nodes()) == ns,
                Err(_) => r is Err,
            },
    {
        let mut t = Natsuzora::parse(source)?;
        t.include_root = Some(include_root.to_owned());
        Ok(t)
    }

    pub fn template(&self) -> (r: &Template)
        ensures
            *r == self.spec_template(),
    {
        &self.template
    }

    pub fn ast(&self) -> (r: &Template)
        ensures
            *r == self.spec_template(),
    {
        &self.template
    }

    /// The directory partials are resolved under, if includes were configured.
    pub fn include_root(&self) -> (r: Option<&String>)
        ensures
            match self.spec_include_root() {
                Some(s) => r is Some && r->Some_0@ == s,
                None => r is None,
            },
    {
        match &self.include_root {
            Some(s) => Some(s),
            None => None,
        }
    }

    /// Renders with `data`, without partials.
    pub fn render(&self, data: Value) -> (r: Result<String, NatsuzoraError>)
        ensures
            crate::renderer::rendered(r, self.spec_template().spec_nodes(), data.model(), None),
    {
        let mut renderer = Renderer::new(None);
        renderer.render(&self.template, data)
    }

    /// Renders with `data`, resolving partials through `loader`.
    pub fn render_with_loader(&self, data: Value, loader: &TemplateLoader) -> (r: Result<String, NatsuzoraError>)
        requires
            loader.wf(),
        ensures
            crate::renderer::rendered(r, self.spec_template().spec_nodes(), data.model(), Some(loader.entries())),
    {
        let mut renderer = Renderer::new(Some(loader));
        renderer.render(&self.template, data)
    }
}

} // verus!
