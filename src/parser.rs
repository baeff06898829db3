//! Recursive-descent parser from the processed token stream to the tree.
//!
//! Every function takes the tokens and a position and returns what it parsed
//! with the position after it. Block bodies recurse through `parse_nodes`.
use vstd::prelude::*;
use crate::ast::{
    AstNode, EachBlock, IfBlock, IncludeArg, IncludeNode, Modifier, Path, Template, TextNode,
    UnlessBlock, UnsecureNode, VariableNode, args_wf, include_name_ok,
    lemma_nodes_wf_push, node_wf, nodes_wf, reserved, valid_ident,
};
use crate::error::{ErrorKind, Location, ParseError, parse_kind_of};
use crate::grammar::{
    ArgM, NodeM, PathM, args_m, args_r, block_close_r, close_kw, each_r, else_open, else_r, expect_r,
    has_key, ident_r, if_r, include_name_r, include_r, kind_at, lemma_nodes_m_push, loc_at, name_tail_r,
    node_m, node_r, nodes_m, nodes_r, path_m, path_r, path_tail_r, skip_ws as skip_ws_r, tag_r, template_r,
    unless_r, unsecure_r, value_at, variable_r, ws_r, block_r,
};
use crate::text::{chars_of, push_char, push_str, str_eq};
use crate::token::{Token, TokenType};
use crate::token_processor::toks_model;
use crate::validator::{ident_shape_chars, include_name_chars, reserved_chars};

verus! {

/// The kind of the token at `pos`; `Eof` past the end.
pub open spec fn ctype(toks: Seq<Token>, pos: int) -> TokenType {
    kind_at(toks_model(toks), pos)
}

/// A position result against its rule.
pub open spec fn pos_res(r: Result<usize, ParseError>) -> Result<int, ErrorKind> {
    match r {
        Ok(q) => Ok(q as int),
        Err(e) => Err(parse_kind_of(e)),
    }
}

/// A node result against its rule.
pub open spec fn node_res(r: Result<(AstNode, usize), ParseError>) -> Result<(NodeM, int), ErrorKind> {
    match r {
        Ok((n, q)) => Ok((node_m(n), q as int)),
        Err(e) => Err(parse_kind_of(e)),
    }
}

/// A node-sequence result against its rule.
pub open spec fn nodes_res(r: Result<(Vec<AstNode>, usize), ParseError>) -> Result<(Seq<NodeM>, int), ErrorKind> {
    match r {
        Ok((ns, q)) => Ok((nodes_m(ns@), q as int)),
        Err(e) => Err(parse_kind_of(e)),
    }
}

/// A path result against its rule.
pub open spec fn path_res(r: Result<(Path, usize), ParseError>) -> Result<(PathM, int), ErrorKind> {
    match r {
        Ok((pa, q)) => Ok((path_m(pa), q as int)),
        Err(e) => Err(parse_kind_of(e)),
    }
}

/// A word result against its rule.
pub open spec fn word_res(r: Result<(String, usize), ParseError>) -> Result<(Seq<char>, int), ErrorKind> {
    match r {
        Ok((w, q)) => Ok((w@, q as int)),
        Err(e) => Err(parse_kind_of(e)),
    }
}

/// Prepends segments to a successful tail.
pub open spec fn seg_prepend(pre: Seq<Seq<char>>, r: Result<(Seq<Seq<char>>, int), ErrorKind>) -> Result<(Seq<Seq<char>>, int), ErrorKind> {
    match r {
        Ok((ws, q)) => Ok((pre + ws, q)),
        Err(k) => Err(k),
    }
}

/// Prepends characters to a successful name tail.
pub open spec fn chars_prepend(pre: Seq<char>, r: Result<(Seq<char>, int), ErrorKind>) -> Result<(Seq<char>, int), ErrorKind> {
    match r {
        Ok((n, q)) => Ok((pre + n, q)),
        Err(k) => Err(k),
    }
}

/// A parsed template against the grammar.
pub open spec fn template_res(r: Result<Template, ParseError>) -> Result<Seq<NodeM>, ErrorKind> {
    match r {
        Ok(t) => Ok(nodes_m(t.spec_nodes())),
        Err(e) => Err(parse_kind_of(e)),
    }
}

/// The outcome of a parsing step: a value and the position after it.
pub open spec fn advanced<T>(r: Result<(T, usize), ParseError>, pos: int, len: int, strict: bool) -> bool {
    r is Ok ==> {
        &&& pos <= r->Ok_0.1 <= len
        &&& strict ==> pos < r->Ok_0.1
    }
}

fn cur_type(toks: &Vec<Token>, pos: usize) -> (r: TokenType)
    ensures
        r == ctype(toks@, pos as int),
        toks@.len() <= usize::MAX,
{
    if pos < toks.len() { toks[pos].token_type } else { TokenType::Eof }
}

fn cur_loc(toks: &Vec<Token>, pos: usize) -> (r: Location)
    ensures
        r == loc_at(toks_model(toks@), pos as int),
{
    if pos < toks.len() { toks[pos].location } else { Location::new(0, 0, 0) }
}

/// Where the tag whose first token is at `loc` opens: the `{[` just before it.
fn tag_start(loc: Location) -> (r: Location)
    ensures
        r == crate::grammar::tag_start(loc),
{
    Location::new(
        loc.line,
        if loc.column > 2 { loc.column - 2 } else { 1 },
        if loc.byte_offset >= 2 { loc.byte_offset - 2 } else { 0 },
    )
}

fn unexpected(toks: &Vec<Token>, pos: usize, message: &str) -> (e: ParseError)
    ensures
        e is UnexpectedToken,
{
    let loc = cur_loc(toks, pos);
    ParseError::UnexpectedToken { message: message.to_owned(), line: loc.line, column: loc.column }
}

fn skip_ws(toks: &Vec<Token>, pos: usize) -> (r: usize)
    requires
        pos <= toks@.len(),
    ensures
        pos <= r <= toks@.len(),
        ctype(toks@, r as int) != TokenType::Whitespace,
        r == skip_ws_r(toks_model(toks@), pos as int),
{
    let mut p = pos;
    while p < toks.len() && cur_type(toks, p) == TokenType::Whitespace
        invariant
            pos <= p <= toks@.len(),
            skip_ws_r(toks_model(toks@), pos as int) == skip_ws_r(toks_model(toks@), p as int),
        decreases toks@.len() - p,
    {
        p += 1;
    }
    p
}

fn expect(toks: &Vec<Token>, pos: usize, kind: TokenType) -> (r: Result<usize, ParseError>)
    requires
        pos <= toks@.len(),
        !(kind is Eof),
    ensures
        pos_res(r) == expect_r(toks_model(toks@), pos as int, kind),
        r is Ok ==> r->Ok_0 == pos + 1 && pos < toks@.len() && toks@[pos as int].token_type == kind,
        r is Err ==> r->Err_0 is UnexpectedToken,
{
    if pos < toks.len() && toks[pos].token_type == kind {
        Ok(pos + 1)
    } else {
        Err(unexpected(toks, pos, "Unexpected token"))
    }
}

fn required_ws(toks: &Vec<Token>, pos: usize) -> (r: Result<usize, ParseError>)
    requires
        pos <= toks@.len(),
    ensures
        pos_res(r) == ws_r(toks_model(toks@), pos as int),
        r is Ok ==> pos < r->Ok_0 <= toks@.len(),
{
    if cur_type(toks, pos) != TokenType::Whitespace {
        return Err(unexpected(toks, pos, "Expected whitespace"));
    }
    Ok(skip_ws(toks, pos))
}

fn is_keyword(t: TokenType) -> (r: bool)
    ensures
        r == (t is KwIf || t is KwUnless || t is KwElse || t is KwEach || t is KwAs),
{
    match t {
        TokenType::KwIf | TokenType::KwUnless | TokenType::KwElse | TokenType::KwEach | TokenType::KwAs => true,
        _ => false,
    }
}

/// An identifier token, validated: a keyword or a reserved word fails with
/// `ReservedWord`, a word of the wrong shape with `InvalidIdentifier`.
fn parse_identifier(toks: &Vec<Token>, pos: usize) -> (r: Result<(String, usize), ParseError>)
    requires
        pos <= toks@.len(),
    ensures
        r is Ok ==> valid_ident(r->Ok_0.0@) && r->Ok_0.1 == pos + 1 && pos < toks@.len(),
        word_res(r) == ident_r(toks_model(toks@), pos as int),
{
    let loc = cur_loc(toks, pos);
    if is_keyword(cur_type(toks, pos)) {
        return Err(ParseError::ReservedWord { word: toks[pos].value.clone(), line: loc.line, column: loc.column });
    }
    let q = expect(toks, pos, TokenType::Ident)?;
    let word = chars_of(toks[pos].value.as_str());
    if reserved_chars(word.as_slice()) {
        return Err(ParseError::ReservedWord { word: toks[pos].value.clone(), line: loc.line, column: loc.column });
    }
    if !ident_shape_chars(word.as_slice()) {
        return Err(ParseError::InvalidIdentifier { name: toks[pos].value.clone(), line: loc.line, column: loc.column });
    }
    Ok((toks[pos].value.clone(), q))
}

/// `Ident ( . Ident )*`.
fn parse_path(toks: &Vec<Token>, pos: usize) -> (r: Result<(Path, usize), ParseError>)
    requires
        pos <= toks@.len(),
    ensures
        advanced(r, pos as int, toks@.len() as int, true),
        r is Ok ==> r->Ok_0.0.wf(),
        path_res(r) == path_r(toks_model(toks@), pos as int),
{
    let loc = cur_loc(toks, pos);
    let (first, mut p) = parse_identifier(toks, pos)?;
    let ghost q0 = p as int;
    let mut segments: Vec<String> = Vec::new();
    segments.push(first);
    assert(segments@.map_values(|s: String| s@).drop_first() =~= Seq::<Seq<char>>::empty());
    assert(path_tail_r(toks_model(toks@), q0) == seg_prepend(Seq::empty(), path_tail_r(toks_model(toks@), p as int))) by {
        match path_tail_r(toks_model(toks@), q0) {
            Ok((ws, r)) => { assert(Seq::<Seq<char>>::empty() + ws =~= ws); },
            Err(_) => {},
        }
    }
    while cur_type(toks, p) == TokenType::Dot
        invariant
            pos < p <= toks@.len(),
            segments@.len() > 0,
            segments@[0]@ == value_at(toks_model(toks@), pos as int),
            ident_r(toks_model(toks@), pos as int) == Ok::<(Seq<char>, int), ErrorKind>((segments@[0]@, q0)),
            forall|i: int| 0 <= i < segments@.len() ==> valid_ident(#[trigger] segments@[i]@),
            path_tail_r(toks_model(toks@), q0) == seg_prepend(segments@.map_values(|s: String| s@).drop_first(), path_tail_r(toks_model(toks@), p as int)),
        decreases toks@.len() - p,
    {
        let ghost before = segments@;
        let q = expect(toks, p, TokenType::Dot)?;
        let (seg, q2) = parse_identifier(toks, q)?;
        segments.push(seg);
        proof {
            let pre = before.map_values(|s: String| s@).drop_first();
            let pre2 = segments@.map_values(|s: String| s@).drop_first();
            assert(pre2 =~= pre.push(seg@));
            match path_tail_r(toks_model(toks@), q2 as int) {
                Ok((ws, r)) => { assert(pre + (seq![seg@] + ws) =~= pre2 + ws); },
                Err(_) => {},
            }
        }
        p = q2;
    }
    let path = Path::new(segments, loc);
    proof {
        let m = segments@.map_values(|s: String| s@);
        assert(m =~= seq![segments@[0]@] + m.drop_first());
        assert(path.segs() =~= m);
        assert(m.drop_first() + Seq::<Seq<char>>::empty() =~= m.drop_first());
    }
    Ok((path, p))
}

/// `path modifier? ]}`.
fn parse_variable(toks: &Vec<Token>, pos: usize, location: Location) -> (r: Result<(AstNode, usize), ParseError>)
    requires
        pos <= toks@.len(),
    ensures
        advanced(r, pos as int, toks@.len() as int, true),
        r is Ok ==> node_wf(r->Ok_0.0),
        node_res(r) == variable_r(toks_model(toks@), pos as int, location),
{
    let (path, mut p) = parse_path(toks, pos)?;
    let modifier = match cur_type(toks, p) {
        TokenType::Question => { p = p + 1; Modifier::Nullable },
        TokenType::Exclamation => { p = p + 1; Modifier::Required },
        _ => Modifier::Plain,
    };
    let p = skip_ws(toks, p);
    let p = expect(toks, p, TokenType::Close)?;
    Ok((AstNode::Variable(VariableNode { path, modifier, location }), p))
}

/// `!unsecure ws path ]}`.
fn parse_unsecure(toks: &Vec<Token>, pos: usize, location: Location) -> (r: Result<(AstNode, usize), ParseError>)
    requires
        pos <= toks@.len(),
    ensures
        advanced(r, pos as int, toks@.len() as int, true),
        r is Ok ==> node_wf(r->Ok_0.0),
        node_res(r) == unsecure_r(toks_model(toks@), pos as int, location),
{
    let p = expect(toks, pos, TokenType::BangUnsecure)?;
    let p = required_ws(toks, p)?;
    let (path, p) = parse_path(toks, p)?;
    let p = skip_ws(toks, p);
    let p = expect(toks, p, TokenType::Close)?;
    Ok((AstNode::Unsecure(UnsecureNode { path, location }), p))
}

/// `( / Ident )+`, joined into one name.
fn parse_include_name(toks: &Vec<Token>, pos: usize) -> (r: Result<(String, usize), ParseError>)
    requires
        pos <= toks@.len(),
    ensures
        advanced(r, pos as int, toks@.len() as int, true),
        r is Ok ==> include_name_ok(r->Ok_0.0@),
        word_res(r) == include_name_r(toks_model(toks@), pos as int),
{
    let first_loc = cur_loc(toks, pos);
    if cur_type(toks, pos) != TokenType::Slash {
        return Err(unexpected(toks, pos, "Include name must start with '/'"));
    }
    let mut name: String = String::new();
    let mut p = pos;
    assert(name_tail_r(toks_model(toks@), pos as int) == chars_prepend(name@, name_tail_r(toks_model(toks@), p as int))) by {
        match name_tail_r(toks_model(toks@), pos as int) {
            Ok((n, r)) => { assert(Seq::<char>::empty() + n =~= n); },
            Err(_) => {},
        }
    }
    while cur_type(toks, p) == TokenType::Slash
        invariant
            pos <= p <= toks@.len(),
            p == pos ==> ctype(toks@, p as int) == TokenType::Slash,
            name_tail_r(toks_model(toks@), pos as int) == chars_prepend(name@, name_tail_r(toks_model(toks@), p as int)),
        decreases toks@.len() - p,
    {
        let q = expect(toks, p, TokenType::Slash)?;
        if cur_type(toks, q) != TokenType::Ident {
            return Err(unexpected(toks, q, "Expected identifier after /"));
        }
        let ghost before = name@;
        push_char(&mut name, '/');
        push_str(&mut name, toks[q].value.as_str());
        proof {
            let piece = seq!['/'] + value_at(toks_model(toks@), q as int);
            assert(name@ =~= before + piece);
            match name_tail_r(toks_model(toks@), q + 1) {
                Ok((n, r)) => { assert(before + (piece + n) =~= name@ + n); },
                Err(_) => {},
            }
        }
        p = q + 1;
    }
    assert(name@ + Seq::<char>::empty() =~= name@);
    let chars = chars_of(name.as_str());
    if !include_name_chars(chars.as_slice()) {
        return Err(ParseError::InvalidIdentifier { name, line: first_loc.line, column: first_loc.column });
    }
    Ok((name, p))
}

/// Whether an argument list already holds a key.
fn has_arg(args: &Vec<IncludeArg>, key: &String) -> (r: bool)
    ensures
        r == exists|i: int| 0 <= i < args@.len() && (#[trigger] args@[i]).name@ == key@,
        r == has_key(args_m(args@), key@),
{
    proof {
        if has_key(args_m(args@), key@) {
            let i = choose|i: int| 0 <= i < args_m(args@).len() && (#[trigger] args_m(args@)[i]).name == key@;
            assert(args@[i].name@ == key@);
        }
        if exists|i: int| 0 <= i < args@.len() && (#[trigger] args@[i]).name@ == key@ {
            let i = choose|i: int| 0 <= i < args@.len() && (#[trigger] args@[i]).name@ == key@;
            assert(args_m(args@)[i].name == key@);
        }
    }
    let mut i: usize = 0;
    while i < args.len()
        invariant
            i <= args@.len(),
            forall|j: int| 0 <= j < i ==> (#[trigger] args@[j]).name@ != key@,
        decreases args@.len() - i,
    {
        if str_eq(args[i].name.as_str(), key.as_str()) {
            assert(args_m(args@)[i as int].name == key@);
            return true;
        }
        i += 1;
    }
    false
}

/// `!include ws name ( ws key ws? = ws? path )* ws? ]}`.
fn parse_include(toks: &Vec<Token>, pos: usize, location: Location) -> (r: Result<(AstNode, usize), ParseError>)
    requires
        pos <= toks@.len(),
    ensures
        advanced(r, pos as int, toks@.len() as int, true),
        r is Ok ==> node_wf(r->Ok_0.0),
        node_res(r) == include_r(toks_model(toks@), pos as int, location),
{
    let p1 = expect(toks, pos, TokenType::BangInclude)?;
    let p2 = required_ws(toks, p1)?;
    let (name, mut p) = parse_include_name(toks, p2)?;
    let ghost p0 = p as int;
    let mut args: Vec<IncludeArg> = Vec::new();
    let mut more = true;
    assert(args_m(args@) =~= Seq::<ArgM>::empty());
    while more
        invariant
            pos < p <= toks@.len(),
            pos < p0,
            expect_r(toks_model(toks@), pos as int, TokenType::BangInclude) == Ok::<int, ErrorKind>(p1 as int),
            ws_r(toks_model(toks@), p1 as int) == Ok::<int, ErrorKind>(p2 as int),
            include_name_r(toks_model(toks@), p2 as int) == Ok::<(Seq<char>, int), ErrorKind>((name@, p0)),
            include_name_ok(name@),
            args_wf(args@),
            more ==> args_r(toks_model(toks@), p0, Seq::empty()) == args_r(toks_model(toks@), p as int, args_m(args@)),
            !more ==> args_r(toks_model(toks@), p0, Seq::empty()) == Ok::<(Seq<ArgM>, int), ErrorKind>((args_m(args@), p as int)),
        decreases toks@.len() - p + (if more { 1int } else { 0int }),
    {
        if cur_type(toks, p) != TokenType::Whitespace {
            more = false;
        } else {
            let q = skip_ws(toks, p);
            if cur_type(toks, q) != TokenType::Ident {
                p = q;
                more = false;
            } else {
                let key_loc = cur_loc(toks, q);
                let ghost acc = args_m(args@);
                let ghost qk = q as int;
                let (key, q) = match parse_identifier(toks, q) {
                    Ok(x) => x,
                    Err(e) => {
                        assert(args_r(toks_model(toks@), p as int, acc) == Err::<(Seq<ArgM>, int), ErrorKind>(parse_kind_of(e)));
                        return Err(e);
                    },
                };
                let q = skip_ws(toks, q);
                let q = match expect(toks, q, TokenType::Equal) {
                    Ok(x) => x,
                    Err(e) => {
                        assert(args_r(toks_model(toks@), p as int, acc) == Err::<(Seq<ArgM>, int), ErrorKind>(parse_kind_of(e)));
                        return Err(e);
                    },
                };
                let q = skip_ws(toks, q);
                let (value, q) = match parse_path(toks, q) {
                    Ok(x) => x,
                    Err(e) => {
                        assert(args_r(toks_model(toks@), p as int, acc) == Err::<(Seq<ArgM>, int), ErrorKind>(parse_kind_of(e)));
                        return Err(e);
                    },
                };
                if has_arg(&args, &key) {
                    assert(args_r(toks_model(toks@), p as int, acc) == Err::<(Seq<ArgM>, int), ErrorKind>(ErrorKind::UnexpectedToken));
                    return Err(ParseError::UnexpectedToken {
                        message: "Duplicate include argument".to_owned(),
                        line: key_loc.line,
                        column: key_loc.column,
                    });
                }
                let ghost before = args@;
                args.push(IncludeArg { name: key, value, location: key_loc });
                proof {
                    assert(args_m(args@) =~= args_m(before).push(ArgM { name: key@, value: path_m(value), loc: key_loc }));
                    assert forall|i: int, j: int| 0 <= i < j < args@.len()
                        implies (#[trigger] args@[i]).name@ != (#[trigger] args@[j]).name@ by {
                        if j < before.len() {
                            assert(args@[i] == before[i] && args@[j] == before[j]);
                        } else {
                            assert(args@[i] == before[i]);
                        }
                    }
                    assert forall|i: int| 0 <= i < args@.len()
                        implies valid_ident((#[trigger] args@[i]).name@) && args@[i].value.wf() by {
                        if i < before.len() {
                            assert(args@[i] == before[i]);
                        }
                    }
                }
                p = q;
            }
        }
    }
    let p = skip_ws(toks, p);
    let p = expect(toks, p, TokenType::Close)?;
    Ok((AstNode::Include(IncludeNode { name, args, location }), p))
}

/// The kind of the token after the `/` at `pos` and any whitespace.
fn close_keyword(toks: &Vec<Token>, pos: usize) -> (r: TokenType)
    requires
        pos < toks@.len(),
    ensures
        r == close_kw(toks_model(toks@), pos as int),
{
    let _ = toks.len();
    let p = skip_ws(toks, pos + 1);
    cur_type(toks, p)
}

/// Whether `#else` (possibly `# else`) starts at `pos`.
fn is_else_open(toks: &Vec<Token>, pos: usize) -> (r: bool)
    requires
        pos <= toks@.len(),
    ensures
        r == else_open(toks_model(toks@), pos as int),
{
    if cur_type(toks, pos) != TokenType::Hash {
        return false;
    }
    assert(pos < toks@.len());
    let p = skip_ws(toks, pos + 1);
    cur_type(toks, p) == TokenType::KwElse
}

/// `# else ]}`.
fn consume_else(toks: &Vec<Token>, pos: usize) -> (r: Result<usize, ParseError>)
    requires
        pos <= toks@.len(),
    ensures
        pos_res(r) == else_r(toks_model(toks@), pos as int),
        r is Ok ==> pos < r->Ok_0 <= toks@.len(),
{
    let p = expect(toks, pos, TokenType::Hash)?;
    let p = skip_ws(toks, p);
    let p = expect(toks, p, TokenType::KwElse)?;
    let p = skip_ws(toks, p);
    expect(toks, p, TokenType::Close)
}

/// `/ keyword ]}`.
fn consume_block_close(toks: &Vec<Token>, pos: usize, keyword: TokenType) -> (r: Result<usize, ParseError>)
    requires
        pos <= toks@.len(),
        keyword is KwIf || keyword is KwUnless || keyword is KwEach,
    ensures
        pos_res(r) == block_close_r(toks_model(toks@), pos as int, keyword),
        r is Ok ==> pos < r->Ok_0 <= toks@.len(),
{
    let p = expect(toks, pos, TokenType::Slash)?;
    let p = skip_ws(toks, p);
    let p = expect(toks, p, keyword)?;
    let p = skip_ws(toks, p);
    expect(toks, p, TokenType::Close)
}

/// Nodes up to the end of input (at top level) or up to the close of the
/// enclosing block `closer`; in the then-branch of `#if`, also up to `#else`.
fn parse_nodes(toks: &Vec<Token>, pos: usize, closer: Option<TokenType>, stop_at_else: bool)
    -> (r: Result<(Vec<AstNode>, usize), ParseError>)
    requires
        pos <= toks@.len(),
        stop_at_else ==> closer is Some,
    ensures
        advanced(r, pos as int, toks@.len() as int, false),
        r is Ok ==> nodes_wf(r->Ok_0.0@),
        r is Ok && closer is None ==> ctype(toks@, r->Ok_0.1 as int) == TokenType::Eof,
        nodes_res(r) == nodes_r(toks_model(toks@), pos as int, closer, stop_at_else, Seq::empty()),
    decreases toks@.len() - pos, 5nat,
{
    let mut nodes: Vec<AstNode> = Vec::new();
    let mut p = pos;
    assert(nodes_m(nodes@) =~= Seq::<NodeM>::empty());
    loop
        invariant
            pos <= p <= toks@.len(),
            nodes_wf(nodes@),
            stop_at_else ==> closer is Some,
            nodes_r(toks_model(toks@), pos as int, closer, stop_at_else, Seq::empty())
                == nodes_r(toks_model(toks@), p as int, closer, stop_at_else, nodes_m(nodes@)),
        decreases toks@.len() - p,
    {
        let t = cur_type(toks, p);
        if t == TokenType::Eof {
            if closer.is_none() {
                return Ok((nodes, p));
            }
            return Err(unexpected(toks, p, "Missing block close"));
        }
        if t == TokenType::Slash {
            match closer {
                None => {
                    return Err(unexpected(toks, p, "Unexpected block close"));
                },
                Some(k) => {
                    if close_keyword(toks, p) == k {
                        return Ok((nodes, p));
                    }
                    return Err(unexpected(toks, p, "Mismatched block close"));
                },
            }
        }
        if stop_at_else && is_else_open(toks, p) {
            return Ok((nodes, p));
        }
        let (node, q) = parse_node(toks, p)?;
        proof {
            lemma_nodes_wf_push(nodes@, node);
            lemma_nodes_m_push(nodes@, node);
        }
        nodes.push(node);
        p = q;
    }
}

/// One node: a text token or a tag.
fn parse_node(toks: &Vec<Token>, pos: usize) -> (r: Result<(AstNode, usize), ParseError>)
    requires
        pos <= toks@.len(),
    ensures
        advanced(r, pos as int, toks@.len() as int, true),
        r is Ok ==> node_wf(r->Ok_0.0),
        node_res(r) == node_r(toks_model(toks@), pos as int),
    decreases toks@.len() - pos, 4nat,
{
    match cur_type(toks, pos) {
        TokenType::Text => {
            let content = toks[pos].value.clone();
            let location = toks[pos].location;
            Ok((AstNode::Text(TextNode { content, location }), pos + 1))
        },
        TokenType::Hash | TokenType::Slash | TokenType::BangUnsecure | TokenType::BangInclude
        | TokenType::Ident | TokenType::KwIf | TokenType::KwUnless | TokenType::KwElse
        | TokenType::KwEach | TokenType::KwAs | TokenType::Whitespace | TokenType::Question
        | TokenType::Exclamation | TokenType::Dot | TokenType::Equal | TokenType::Comma => {
            parse_tag_content(toks, pos)
        },
        _ => Err(unexpected(toks, pos, "Unexpected token")),
    }
}

/// The inside of a tag, after `{[`.
fn parse_tag_content(toks: &Vec<Token>, pos: usize) -> (r: Result<(AstNode, usize), ParseError>)
    requires
        pos <= toks@.len(),
    ensures
        advanced(r, pos as int, toks@.len() as int, true),
        r is Ok ==> node_wf(r->Ok_0.0),
        node_res(r) == tag_r(toks_model(toks@), pos as int),
    decreases toks@.len() - pos, 3nat,
{
    let location = tag_start(cur_loc(toks, pos));
    let p = skip_ws(toks, pos);
    if p > pos {
        match cur_type(toks, p) {
            TokenType::Hash | TokenType::Slash | TokenType::BangUnsecure | TokenType::BangInclude => {
                return Err(unexpected(toks, pos, "Whitespace not allowed before a marker after tag open"));
            },
            _ => {},
        }
    }
    match cur_type(toks, p) {
        TokenType::Hash => parse_block_open(toks, p, location),
        TokenType::Slash => Err(unexpected(toks, p, "Unexpected block close")),
        TokenType::BangUnsecure => parse_unsecure(toks, p, location),
        TokenType::BangInclude => parse_include(toks, p, location),
        _ => parse_variable(toks, p, location),
    }
}

/// `# keyword ...`: an `#if`, `#unless` or `#each` block.
fn parse_block_open(toks: &Vec<Token>, pos: usize, location: Location) -> (r: Result<(AstNode, usize), ParseError>)
    requires
        pos <= toks@.len(),
    ensures
        advanced(r, pos as int, toks@.len() as int, true),
        r is Ok ==> node_wf(r->Ok_0.0),
        node_res(r) == block_r(toks_model(toks@), pos as int, location),
    decreases toks@.len() - pos, 2nat,
{
    let p = expect(toks, pos, TokenType::Hash)?;
    let p = skip_ws(toks, p);
    match cur_type(toks, p) {
        TokenType::KwIf => parse_if_block(toks, p, location),
        TokenType::KwUnless => parse_unless_block(toks, p, location),
        TokenType::KwEach => parse_each_block(toks, p, location),
        TokenType::KwElse => Err(unexpected(toks, p, "Unexpected 'else' without 'if'")),
        _ => Err(unexpected(toks, p, "Unexpected token")),
    }
}

/// `if ws path ]} nodes ( #else ]} nodes )? /if ]}`.
fn parse_if_block(toks: &Vec<Token>, pos: usize, location: Location) -> (r: Result<(AstNode, usize), ParseError>)
    requires
        pos <= toks@.len(),
    ensures
        advanced(r, pos as int, toks@.len() as int, true),
        r is Ok ==> node_wf(r->Ok_0.0),
        node_res(r) == if_r(toks_model(toks@), pos as int, location),
    decreases toks@.len() - pos, 1nat,
{
    let p = expect(toks, pos, TokenType::KwIf)?;
    let p = required_ws(toks, p)?;
    let (condition, p) = parse_path(toks, p)?;
    let p = skip_ws(toks, p);
    let p = expect(toks, p, TokenType::Close)?;
    let (then_branch, p) = parse_nodes(toks, p, Some(TokenType::KwIf), true)?;
    let mut else_branch: Option<Vec<AstNode>> = None;
    let mut p = p;
    if is_else_open(toks, p) {
        let q = consume_else(toks, p)?;
        let (nodes, q) = parse_nodes(toks, q, Some(TokenType::KwIf), false)?;
        else_branch = Some(nodes);
        p = q;
    }
    let p = consume_block_close(toks, p, TokenType::KwIf)?;
    Ok((AstNode::If(IfBlock { condition, then_branch, else_branch, location }), p))
}

/// `unless ws path ]} nodes /unless ]}`.
fn parse_unless_block(toks: &Vec<Token>, pos: usize, location: Location) -> (r: Result<(AstNode, usize), ParseError>)
    requires
        pos <= toks@.len(),
    ensures
        advanced(r, pos as int, toks@.len() as int, true),
        r is Ok ==> node_wf(r->Ok_0.0),
        node_res(r) == unless_r(toks_model(toks@), pos as int, location),
    decreases toks@.len() - pos, 1nat,
{
    let p = expect(toks, pos, TokenType::KwUnless)?;
    let p = required_ws(toks, p)?;
    let (condition, p) = parse_path(toks, p)?;
    let p = skip_ws(toks, p);
    let p = expect(toks, p, TokenType::Close)?;
    let (body, p) = parse_nodes(toks, p, Some(TokenType::KwUnless), false)?;
    let p = consume_block_close(toks, p, TokenType::KwUnless)?;
    Ok((AstNode::Unless(UnlessBlock { condition, body, location }), p))
}

/// `each ws path ws as ws ident ]} nodes /each ]}`.
fn parse_each_block(toks: &Vec<Token>, pos: usize, location: Location) -> (r: Result<(AstNode, usize), ParseError>)
    requires
        pos <= toks@.len(),
    ensures
        advanced(r, pos as int, toks@.len() as int, true),
        r is Ok ==> node_wf(r->Ok_0.0),
        node_res(r) == each_r(toks_model(toks@), pos as int, location),
    decreases toks@.len() - pos, 1nat,
{
    let p = expect(toks, pos, TokenType::KwEach)?;
    let p = required_ws(toks, p)?;
    let (collection, p) = parse_path(toks, p)?;
    let p = required_ws(toks, p)?;
    let p = expect(toks, p, TokenType::KwAs)?;
    let p = required_ws(toks, p)?;
    let (item_ident, p) = parse_identifier(toks, p)?;
    let p = skip_ws(toks, p);
    let p = expect(toks, p, TokenType::Close)?;
    let (body, p) = parse_nodes(toks, p, Some(TokenType::KwEach), false)?;
    let p = consume_block_close(toks, p, TokenType::KwEach)?;
    Ok((AstNode::Each(EachBlock { collection, item_ident, body, location }), p))
}

/// A parser over one processed token sequence.
pub struct Parser {
    tokens: Vec<Token>,
    pos: usize,
}

impl Parser {
    /// Parses the whole token sequence into a template whose tree keeps the
    /// invariants: valid identifiers, valid partial names, unique argument keys.
    pub closed spec fn tokens(&self) -> Seq<Token> {
        self.tokens@
    }

    pub closed spec fn position(&self) -> int {
        self.pos as int
    }

    pub fn new(tokens: Vec<Token>) -> (r: Parser)
        ensures
            r.tokens() == tokens@,
            r.position() == 0,
    {
        Parser { tokens, pos: 0 }
    }

    pub fn parse(&mut self) -> (r: Result<Template, ParseError>)
        requires
            old(self).position() == 0,
        ensures
            r is Ok ==> r->Ok_0.wf(),
            template_res(r) == template_r(toks_model(old(self).tokens())),
    {
        let (nodes, p) = parse_nodes(&self.tokens, 0, None, false)?;
        self.pos = p;
        Ok(Template::new(nodes, Location::new(1, 1, 0)))
    }
}

/// Parses a processed token sequence into a template. Every tree it returns
/// keeps the invariants of `Template::wf`.
pub fn parse(tokens: Vec<Token>) -> (r: Result<Template, ParseError>)
    ensures
        r is Ok ==> r->Ok_0.wf(),
        template_res(r) == template_r(toks_model(tokens@)),
{
    let mut parser = Parser::new(tokens);
    parser.parse()
}

} // verus!
