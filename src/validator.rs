//! The identifier and partial-name rules, shared by the parser and the
//! partial loader.
use vstd::prelude::*;
use crate::ast::{ident_shape, include_name_ok, reserved, valid_ident};
use crate::error::{Location, NatsuzoraError};
use crate::lexer::{is_alpha, is_ident_continue};
use crate::text::{chars_eq, chars_of};
use crate::token::TokenType;

verus! {

/// Whether a word is one of the reserved words.
pub fn reserved_chars(w: &[char]) -> (r: bool)
    ensures
        r == reserved(w@),
{
    let w0: [char; 2] = ['i', 'f'];
    assert(w0@ =~= seq!['i', 'f']);
    let w1: [char; 6] = ['u', 'n', 'l', 'e', 's', 's'];
    assert(w1@ =~= seq!['u', 'n', 'l', 'e', 's', 's']);
    let w2: [char; 4] = ['e', 'l', 's', 'e'];
    assert(w2@ =~= seq!['e', 'l', 's', 'e']);
    let w3: [char; 4] = ['e', 'a', 'c', 'h'];
    assert(w3@ =~= seq!['e', 'a', 'c', 'h']);
    let w4: [char; 2] = ['a', 's'];
    assert(w4@ =~= seq!['a', 's']);
    let w5: [char; 8] = ['u', 'n', 's', 'e', 'c', 'u', 'r', 'e'];
    assert(w5@ =~= seq!['u', 'n', 's', 'e', 'c', 'u', 'r', 'e']);
    let w6: [char; 4] = ['t', 'r', 'u', 'e'];
    assert(w6@ =~= seq!['t', 'r', 'u', 'e']);
    let w7: [char; 5] = ['f', 'a', 'l', 's', 'e'];
    assert(w7@ =~= seq!['f', 'a', 'l', 's', 'e']);
    let w8: [char; 4] = ['n', 'u', 'l', 'l'];
    assert(w8@ =~= seq!['n', 'u', 'l', 'l']);
    let w9: [char; 7] = ['i', 'n', 'c', 'l', 'u', 'd', 'e'];
    assert(w9@ =~= seq!['i', 'n', 'c', 'l', 'u', 'd', 'e']);
    let w10: [char; 2] = ['i', 'n'];
    assert(w10@ =~= seq!['i', 'n']);
    let w11: [char; 2] = ['o', 'f'];
    assert(w11@ =~= seq!['o', 'f']);
    chars_eq(w, &w0)
        || chars_eq(w, &w1)
        || chars_eq(w, &w2)
        || chars_eq(w, &w3)
        || chars_eq(w, &w4)
        || chars_eq(w, &w5)
        || chars_eq(w, &w6)
        || chars_eq(w, &w7)
        || chars_eq(w, &w8)
        || chars_eq(w, &w9)
        || chars_eq(w, &w10)
        || chars_eq(w, &w11)
}

/// Whether a word has identifier shape, `[A-Za-z][A-Za-z0-9_]*`.
pub fn ident_shape_chars(w: &[char]) -> (r: bool)
    ensures
        r == ident_shape(w@),
{
    if w.len() == 0 {
        return false;
    }
    let c0 = w[0];
    if !(('A' <= c0 && c0 <= 'Z') || ('a' <= c0 && c0 <= 'z')) {
        return false;
    }
    let mut i: usize = 0;
    while i < w.len()
        invariant
            i <= w@.len(),
            forall|j: int| 0 <= j < i ==> is_ident_continue(#[trigger] w@[j]),
        decreases w@.len() - i,
    {
        let c = w[i];
        if !(('A' <= c && c <= 'Z') || ('a' <= c && c <= 'z') || ('0' <= c && c <= '9') || c == '_') {
            assert(!is_ident_continue(w@[i as int]));
            return false;
        }
        i += 1;
    }
    true
}

/// Whether a string is a reserved word.
pub fn is_reserved_word(s: &str) -> (r: bool)
    ensures
        r == reserved(s@),
{
    let w = chars_of(s);
    reserved_chars(w.as_slice())
}

/// The keyword token kind a word lexes as, if it is one of the five keywords.
pub fn to_keyword(s: &str) -> (r: Option<TokenType>)
    ensures
        r is Some <==> crate::lexer::keyword_kind(s@) != TokenType::Ident,
        r is Some ==> r->Some_0 == crate::lexer::keyword_kind(s@),
{
    let w = chars_of(s);
    let k = crate::lexer::keyword_of_chars(w.as_slice());
    match k {
        TokenType::Ident => None,
        _ => Some(k),
    }
}

/// Validates an identifier: a reserved word fails with `ReservedWordError`,
/// any other word without identifier shape (a leading `_`, an `@`, ...) with
/// `ParseError`.
pub fn validate_identifier(name: &str, location: &Location) -> (r: Result<(), NatsuzoraError>)
    ensures
        r is Ok <==> valid_ident(name@),
        reserved(name@) ==> r is Err && r->Err_0 is ReservedWordError,
        !reserved(name@) && !ident_shape(name@) ==> r is Err && r->Err_0 is ParseError,
{
    let w = chars_of(name);
    if reserved_chars(w.as_slice()) {
        return Err(NatsuzoraError::ReservedWordError { word: name.to_owned(), location: *location });
    }
    if !ident_shape_chars(w.as_slice()) {
        return Err(NatsuzoraError::ParseError {
            message: "Invalid identifier".to_owned(),
            location: *location,
        });
    }
    Ok(())
}

/// Whether a character sequence is a valid partial name.
pub fn include_name_chars(n: &[char]) -> (r: bool)
    ensures
        r == include_name_ok(n@),
{
    if n.len() == 0 || n[0] != '/' {
        return false;
    }
    let mut i: usize = 0;
    while i < n.len()
        invariant
            i <= n@.len(),
            n@.len() > 0,
            n@[0] == '/',
            forall|j: int| 0 <= j < i && #[trigger] n@[j] == '/' ==> j + 1 < n@.len() && is_alpha(n@[j + 1]),
            forall|j: int| 0 <= j < i && #[trigger] n@[j] != '/' ==> is_ident_continue(n@[j]),
        decreases n@.len() - i,
    {
        let c = n[i];
        if c == '/' {
            if i + 1 >= n.len() {
                assert(n@[i as int] == '/');
                return false;
            }
            let d = n[i + 1];
            if !(('A' <= d && d <= 'Z') || ('a' <= d && d <= 'z')) {
                assert(n@[i as int] == '/');
                return false;
            }
        } else if !(('A' <= c && c <= 'Z') || ('a' <= c && c <= 'z') || ('0' <= c && c <= '9') || c == '_') {
            assert(n@[i as int] != '/');
            return false;
        }
        i += 1;
    }
    true
}

/// Validates a partial name as written in a template: one or more
/// `/segment`, each of identifier shape; anything else is a `ParseError`.
pub fn validate_include_name_syntax(name: &str, location: &Location) -> (r: Result<(), NatsuzoraError>)
    ensures
        r is Ok <==> include_name_ok(name@),
        r is Err ==> r->Err_0 is ParseError,
{
    let n = chars_of(name);
    if include_name_chars(n.as_slice()) {
        Ok(())
    } else {
        Err(NatsuzoraError::ParseError { message: "Invalid include name".to_owned(), location: *location })
    }
}

/// Validates a partial name before loading; anything else is an `IncludeError`.
pub fn validate_include_name_runtime(name: &str) -> (r: Result<(), NatsuzoraError>)
    ensures
        r is Ok <==> include_name_ok(name@),
        r is Err ==> r->Err_0 is IncludeError,
{
    let n = chars_of(name);
    if include_name_chars(n.as_slice()) {
        Ok(())
    } else {
        Err(NatsuzoraError::IncludeError { message: "Invalid include name".to_owned() })
    }
}

/// A name that passes validation holds none of `..`, `//`, `\` or `:`, and
/// no segment of it starts with `_`.
pub proof fn lemma_include_name_safe(n: Seq<char>)
    requires
        include_name_ok(n),
    ensures
        forall|i: int| 0 <= i < n.len() ==> #[trigger] n[i] != '\\' && n[i] != ':' && n[i] != '.',
        forall|i: int| 0 <= i < n.len() - 1 && #[trigger] n[i] == '/' ==> n[i + 1] != '/' && n[i + 1] != '_',
{
    assert forall|i: int| 0 <= i < n.len() implies #[trigger] n[i] != '\\' && n[i] != ':' && n[i] != '.' by {
        if n[i] != '/' {
            assert(is_ident_continue(n[i]));
        }
    }
}

} // verus!
