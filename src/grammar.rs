//! The template grammar as spec functions over a token sequence: each rule
//! gives the model of what it derives and the position after it, or the kind
//! of the error that stops it.
use vstd::prelude::*;
use crate::ast::{AstNode, IncludeArg, Modifier, Path, ident_shape, include_name_ok, reserved};
use crate::error::{ErrorKind, Location};
use crate::token::TokenType;
use crate::token_processor::TokModel;

verus! {

broadcast use vstd::std_specs::vec::group_vec_axioms;

/// A path: its segments and where it starts.
pub struct PathM {
    pub segs: Seq<Seq<char>>,
    pub loc: Location,
}

/// One `key=path` argument of a partial.
pub struct ArgM {
    pub name: Seq<char>,
    pub value: PathM,
    pub loc: Location,
}

/// The model of a syntax-tree node.
pub enum NodeM {
    Text(Seq<char>, Location),
    Variable(PathM, Modifier, Location),
    Unsecure(PathM, Location),
    If(PathM, Seq<NodeM>, Option<Seq<NodeM>>, Location),
    Unless(PathM, Seq<NodeM>, Location),
    Each(PathM, Seq<char>, Seq<NodeM>, Location),
    Include(Seq<char>, Seq<ArgM>, Location),
}

pub open spec fn path_m(p: Path) -> PathM {
    PathM { segs: p.segs(), loc: p.spec_location() }
}

pub open spec fn arg_m(a: IncludeArg) -> ArgM {
    ArgM { name: a.name@, value: path_m(a.value), loc: a.location }
}

pub open spec fn args_m(s: Seq<IncludeArg>) -> Seq<ArgM> {
    s.map_values(|a: IncludeArg| arg_m(a))
}

/// The model of a node.
pub open spec fn node_m(n: AstNode) -> NodeM
    decreases n,
{
    match n {
        AstNode::Text(t) => NodeM::Text(t.content@, t.location),
        AstNode::Variable(v) => NodeM::Variable(path_m(v.path), v.modifier, v.location),
        AstNode::Unsecure(u) => NodeM::Unsecure(path_m(u.path), u.location),
        AstNode::If(b) => NodeM::If(
            path_m(b.condition),
            nodes_m(b.then_branch@),
            match b.else_branch {
                Some(e) => Some(nodes_m(e@)),
                None => None,
            },
            b.location,
        ),
        AstNode::Unless(b) => NodeM::Unless(path_m(b.condition), nodes_m(b.body@), b.location),
        AstNode::Each(b) => NodeM::Each(path_m(b.collection), b.item_ident@, nodes_m(b.body@), b.location),
        AstNode::Include(i) => NodeM::Include(i.name@, args_m(i.args@), i.location),
    }
}

/// The models of a node sequence.
pub open spec fn nodes_m(s: Seq<AstNode>) -> Seq<NodeM>
    decreases s,
{
    if s.len() == 0 {
        Seq::empty()
    } else {
        nodes_m(s.subrange(0, s.len() - 1)).push(node_m(s[s.len() - 1]))
    }
}

pub proof fn lemma_nodes_m_push(s: Seq<AstNode>, n: AstNode)
    ensures
        nodes_m(s.push(n)) == nodes_m(s).push(node_m(n)),
{
    assert(s.push(n).subrange(0, s.len() as int) =~= s);
}

pub open spec fn kind_at(toks: Seq<TokModel>, p: int) -> TokenType {
    if 0 <= p < toks.len() { toks[p].0 } else { TokenType::Eof }
}

pub open spec fn loc_at(toks: Seq<TokModel>, p: int) -> Location {
    if 0 <= p < toks.len() { toks[p].2 } else { Location { line: 0, column: 0, byte_offset: 0 } }
}

pub open spec fn value_at(toks: Seq<TokModel>, p: int) -> Seq<char> {
    if 0 <= p < toks.len() { toks[p].1 } else { Seq::empty() }
}

/// The first position from `p` on that holds no whitespace token.
pub open spec fn skip_ws(toks: Seq<TokModel>, p: int) -> int
    decreases toks.len() - p,
{
    if 0 <= p < toks.len() && toks[p].0 is Whitespace { skip_ws(toks, p + 1) } else { p }
}

/// Where a tag whose first token is at `loc` opens: two columns earlier.
pub open spec fn tag_start(loc: Location) -> Location {
    Location {
        line: loc.line,
        column: if loc.column > 2 { (loc.column - 2) as usize } else { 1 },
        byte_offset: if loc.byte_offset >= 2 { (loc.byte_offset - 2) as usize } else { 0 },
    }
}

pub open spec fn is_kw(t: TokenType) -> bool {
    t is KwIf || t is KwUnless || t is KwElse || t is KwEach || t is KwAs
}

/// An identifier: keywords and reserved words are refused, then the shape.
pub open spec fn ident_r(toks: Seq<TokModel>, p: int) -> Result<(Seq<char>, int), ErrorKind> {
    let w = value_at(toks, p);
    if is_kw(kind_at(toks, p)) {
        Err(ErrorKind::ReservedWord)
    } else if !(kind_at(toks, p) is Ident) {
        Err(ErrorKind::UnexpectedToken)
    } else if reserved(w) {
        Err(ErrorKind::ReservedWord)
    } else if !ident_shape(w) {
        Err(ErrorKind::InvalidIdentifier)
    } else {
        Ok((w, p + 1))
    }
}

/// `( . ident )*`.
pub open spec fn path_tail_r(toks: Seq<TokModel>, p: int) -> Result<(Seq<Seq<char>>, int), ErrorKind>
    decreases toks.len() - p,
{
    if kind_at(toks, p) is Dot {
        match ident_r(toks, p + 1) {
            Err(k) => Err(k),
            Ok((w, q)) => if q <= p || q > toks.len() {
                Err(ErrorKind::UnexpectedToken)
            } else {
                match path_tail_r(toks, q) {
                    Err(k) => Err(k),
                    Ok((ws, r)) => Ok((seq![w] + ws, r)),
                }
            },
        }
    } else {
        Ok((Seq::empty(), p))
    }
}

/// `ident ( . ident )*`.
pub open spec fn path_r(toks: Seq<TokModel>, p: int) -> Result<(PathM, int), ErrorKind> {
    match ident_r(toks, p) {
        Err(k) => Err(k),
        Ok((w, q)) => match path_tail_r(toks, q) {
            Err(k) => Err(k),
            Ok((ws, r)) => Ok((PathM { segs: seq![w] + ws, loc: loc_at(toks, p) }, r)),
        },
    }
}

/// Token `k` at `p`.
pub open spec fn expect_r(toks: Seq<TokModel>, p: int, k: TokenType) -> Result<int, ErrorKind> {
    if kind_at(toks, p) == k { Ok(p + 1) } else { Err(ErrorKind::UnexpectedToken) }
}

/// At least one whitespace token.
pub open spec fn ws_r(toks: Seq<TokModel>, p: int) -> Result<int, ErrorKind> {
    if kind_at(toks, p) is Whitespace { Ok(skip_ws(toks, p)) } else { Err(ErrorKind::UnexpectedToken) }
}

/// `path modifier? ws? ]}`.
pub open spec fn variable_r(toks: Seq<TokModel>, p: int, loc: Location) -> Result<(NodeM, int), ErrorKind> {
    match path_r(toks, p) {
        Err(k) => Err(k),
        Ok((pm, q)) => {
            let (m, q2) = if kind_at(toks, q) is Question {
                (Modifier::Nullable, q + 1)
            } else if kind_at(toks, q) is Exclamation {
                (Modifier::Required, q + 1)
            } else {
                (Modifier::Plain, q)
            };
            match expect_r(toks, skip_ws(toks, q2), TokenType::Close) {
                Err(k) => Err(k),
                Ok(r) => Ok((NodeM::Variable(pm, m, loc), r)),
            }
        },
    }
}

/// `!unsecure ws path ws? ]}`.
pub open spec fn unsecure_r(toks: Seq<TokModel>, p: int, loc: Location) -> Result<(NodeM, int), ErrorKind> {
    match expect_r(toks, p, TokenType::BangUnsecure) {
        Err(k) => Err(k),
        Ok(q) => match ws_r(toks, q) {
            Err(k) => Err(k),
            Ok(q) => match path_r(toks, q) {
                Err(k) => Err(k),
                Ok((pm, q)) => match expect_r(toks, skip_ws(toks, q), TokenType::Close) {
                    Err(k) => Err(k),
                    Ok(r) => Ok((NodeM::Unsecure(pm, loc), r)),
                },
            },
        },
    }
}

/// `( / ident )*`, joined.
pub open spec fn name_tail_r(toks: Seq<TokModel>, p: int) -> Result<(Seq<char>, int), ErrorKind>
    decreases toks.len() - p,
{
    if kind_at(toks, p) is Slash {
        if !(kind_at(toks, p + 1) is Ident) {
            Err(ErrorKind::UnexpectedToken)
        } else {
            match name_tail_r(toks, p + 2) {
                Err(k) => Err(k),
                Ok((n, r)) => Ok((seq!['/'] + value_at(toks, p + 1) + n, r)),
            }
        }
    } else {
        Ok((Seq::empty(), p))
    }
}

/// A partial name: `/` first, then valid as a whole.
pub open spec fn include_name_r(toks: Seq<TokModel>, p: int) -> Result<(Seq<char>, int), ErrorKind> {
    if !(kind_at(toks, p) is Slash) {
        Err(ErrorKind::UnexpectedToken)
    } else {
        match name_tail_r(toks, p) {
            Err(k) => Err(k),
            Ok((n, r)) => if include_name_ok(n) { Ok((n, r)) } else { Err(ErrorKind::InvalidIdentifier) },
        }
    }
}

/// Whether an argument list holds a key.
pub open spec fn has_key(acc: Seq<ArgM>, k: Seq<char>) -> bool {
    exists|i: int| 0 <= i < acc.len() && (#[trigger] acc[i]).name == k
}

/// `( ws ident ws? = ws? path )*` after the arguments `acc`; a repeated key
/// is an error.
pub open spec fn args_r(toks: Seq<TokModel>, p: int, acc: Seq<ArgM>) -> Result<(Seq<ArgM>, int), ErrorKind>
    decreases toks.len() - p,
{
    if !(kind_at(toks, p) is Whitespace) {
        Ok((acc, p))
    } else {
        let q = skip_ws(toks, p);
        if !(kind_at(toks, q) is Ident) {
            Ok((acc, q))
        } else {
            match ident_r(toks, q) {
                Err(k) => Err(k),
                Ok((key, q1)) => match expect_r(toks, skip_ws(toks, q1), TokenType::Equal) {
                    Err(k) => Err(k),
                    Ok(q3) => match path_r(toks, skip_ws(toks, q3)) {
                        Err(k) => Err(k),
                        Ok((pm, q5)) => if has_key(acc, key) {
                            Err(ErrorKind::UnexpectedToken)
                        } else if q5 <= p || q5 > toks.len() {
                            Err(ErrorKind::UnexpectedToken)
                        } else {
                            args_r(toks, q5, acc.push(ArgM { name: key, value: pm, loc: loc_at(toks, q) }))
                        },
                    },
                },
            }
        }
    }
}

/// `!include ws name args ws? ]}`.
pub open spec fn include_r(toks: Seq<TokModel>, p: int, loc: Location) -> Result<(NodeM, int), ErrorKind> {
    match expect_r(toks, p, TokenType::BangInclude) {
        Err(k) => Err(k),
        Ok(q) => match ws_r(toks, q) {
            Err(k) => Err(k),
            Ok(q) => match include_name_r(toks, q) {
                Err(k) => Err(k),
                Ok((n, q)) => match args_r(toks, q, Seq::empty()) {
                    Err(k) => Err(k),
                    Ok((args, q)) => match expect_r(toks, skip_ws(toks, q), TokenType::Close) {
                        Err(k) => Err(k),
                        Ok(r) => Ok((NodeM::Include(n, args, loc), r)),
                    },
                },
            },
        },
    }
}

/// The keyword after the `/` at `p`.
pub open spec fn close_kw(toks: Seq<TokModel>, p: int) -> TokenType {
    kind_at(toks, skip_ws(toks, p + 1))
}

/// Whether `#else` starts at `p`.
pub open spec fn else_open(toks: Seq<TokModel>, p: int) -> bool {
    kind_at(toks, p) is Hash && kind_at(toks, skip_ws(toks, p + 1)) is KwElse
}

/// `# ws? else ws? ]}`.
pub open spec fn else_r(toks: Seq<TokModel>, p: int) -> Result<int, ErrorKind> {
    match expect_r(toks, p, TokenType::Hash) {
        Err(k) => Err(k),
        Ok(q) => match expect_r(toks, skip_ws(toks, q), TokenType::KwElse) {
            Err(k) => Err(k),
            Ok(q) => expect_r(toks, skip_ws(toks, q), TokenType::Close),
        },
    }
}

/// `/ ws? keyword ws? ]}`.
pub open spec fn block_close_r(toks: Seq<TokModel>, p: int, kw: TokenType) -> Result<int, ErrorKind> {
    match expect_r(toks, p, TokenType::Slash) {
        Err(k) => Err(k),
        Ok(q) => match expect_r(toks, skip_ws(toks, q), kw) {
            Err(k) => Err(k),
            Ok(q) => expect_r(toks, skip_ws(toks, q), TokenType::Close),
        },
    }
}

/// Nodes from `p` after the nodes `acc`: up to the end of input at top
/// level (`closer` is `None`), or up to the close of block `closer`, or, in
/// the then-branch of `#if`, up to `#else`.
pub open spec fn nodes_r(toks: Seq<TokModel>, p: int, closer: Option<TokenType>, stop_else: bool, acc: Seq<NodeM>)
    -> Result<(Seq<NodeM>, int), ErrorKind>
    decreases toks.len() - p, 5nat,
{
    let t = kind_at(toks, p);
    if t is Eof {
        if closer is None { Ok((acc, p)) } else { Err(ErrorKind::UnexpectedToken) }
    } else if t is Slash {
        match closer {
            None => Err(ErrorKind::UnexpectedToken),
            Some(k) => if close_kw(toks, p) == k { Ok((acc, p)) } else { Err(ErrorKind::UnexpectedToken) },
        }
    } else if stop_else && else_open(toks, p) {
        Ok((acc, p))
    } else if p < 0 {
        Err(ErrorKind::UnexpectedToken)
    } else {
        match node_r(toks, p) {
            Err(k) => Err(k),
            Ok((n, q)) => if q <= p || q > toks.len() {
                Err(ErrorKind::UnexpectedToken)
            } else {
                nodes_r(toks, q, closer, stop_else, acc.push(n))
            },
        }
    }
}

/// One node: a text token, or a tag.
pub open spec fn node_r(toks: Seq<TokModel>, p: int) -> Result<(NodeM, int), ErrorKind>
    decreases toks.len() - p, 4nat,
{
    let t = kind_at(toks, p);
    if t is Text {
        Ok((NodeM::Text(value_at(toks, p), loc_at(toks, p)), p + 1))
    } else if t is Percent || t is Dash || t is Close || t is Eof {
        Err(ErrorKind::UnexpectedToken)
    } else {
        tag_r(toks, p)
    }
}

/// The inside of a tag: no whitespace may come before `#`, `/`, `!unsecure`
/// or `!include`.
pub open spec fn tag_r(toks: Seq<TokModel>, p: int) -> Result<(NodeM, int), ErrorKind>
    decreases toks.len() - p, 3nat,
{
    let loc = tag_start(loc_at(toks, p));
    let q = skip_ws(toks, p);
    let t = kind_at(toks, q);
    if q > p && (t is Hash || t is Slash || t is BangUnsecure || t is BangInclude) {
        Err(ErrorKind::UnexpectedToken)
    } else if q < p {
        Err(ErrorKind::UnexpectedToken)
    } else if t is Hash {
        block_r(toks, q, loc)
    } else if t is Slash {
        Err(ErrorKind::UnexpectedToken)
    } else if t is BangUnsecure {
        unsecure_r(toks, q, loc)
    } else if t is BangInclude {
        include_r(toks, q, loc)
    } else {
        variable_r(toks, q, loc)
    }
}

/// `# ws? (if | unless | each) ...`.
pub open spec fn block_r(toks: Seq<TokModel>, p: int, loc: Location) -> Result<(NodeM, int), ErrorKind>
    decreases toks.len() - p, 2nat,
{
    match expect_r(toks, p, TokenType::Hash) {
        Err(k) => Err(k),
        Ok(q) => {
            let q = skip_ws(toks, q);
            if q <= p {
                Err(ErrorKind::UnexpectedToken)
            } else if kind_at(toks, q) is KwIf {
                if_r(toks, q, loc)
            } else if kind_at(toks, q) is KwUnless {
                unless_r(toks, q, loc)
            } else if kind_at(toks, q) is KwEach {
                each_r(toks, q, loc)
            } else {
                Err(ErrorKind::UnexpectedToken)
            }
        },
    }
}

/// The header of a block: `keyword ws path ws? ]}`.
pub open spec fn cond_header_r(toks: Seq<TokModel>, p: int, kw: TokenType) -> Result<(PathM, int), ErrorKind> {
    match expect_r(toks, p, kw) {
        Err(k) => Err(k),
        Ok(q) => match ws_r(toks, q) {
            Err(k) => Err(k),
            Ok(q) => match path_r(toks, q) {
                Err(k) => Err(k),
                Ok((c, q)) => match expect_r(toks, skip_ws(toks, q), TokenType::Close) {
                    Err(k) => Err(k),
                    Ok(q) => Ok((c, q)),
                },
            },
        },
    }
}

/// `if ws path ]} nodes ( #else ]} nodes )? /if ]}`.
pub open spec fn if_r(toks: Seq<TokModel>, p: int, loc: Location) -> Result<(NodeM, int), ErrorKind>
    decreases toks.len() - p, 1nat,
{
    match cond_header_r(toks, p, TokenType::KwIf) {
        Err(k) => Err(k),
        Ok((c, q)) => if q <= p || q > toks.len() {
            Err(ErrorKind::UnexpectedToken)
        } else {
            match nodes_r(toks, q, Some(TokenType::KwIf), true, Seq::empty()) {
                Err(k) => Err(k),
                Ok((then_b, q2)) => if q2 < q || q2 > toks.len() {
                    Err(ErrorKind::UnexpectedToken)
                } else if else_open(toks, q2) {
                    match else_r(toks, q2) {
                        Err(k) => Err(k),
                        Ok(q3) => if q3 <= q2 || q3 > toks.len() {
                            Err(ErrorKind::UnexpectedToken)
                        } else {
                            match nodes_r(toks, q3, Some(TokenType::KwIf), false, Seq::empty()) {
                                Err(k) => Err(k),
                                Ok((else_b, q4)) => match block_close_r(toks, q4, TokenType::KwIf) {
                                    Err(k) => Err(k),
                                    Ok(r) => Ok((NodeM::If(c, then_b, Some(else_b), loc), r)),
                                },
                            }
                        },
                    }
                } else {
                    match block_close_r(toks, q2, TokenType::KwIf) {
                        Err(k) => Err(k),
                        Ok(r) => Ok((NodeM::If(c, then_b, None, loc), r)),
                    }
                },
            }
        },
    }
}

/// `unless ws path ]} nodes /unless ]}`.
pub open spec fn unless_r(toks: Seq<TokModel>, p: int, loc: Location) -> Result<(NodeM, int), ErrorKind>
    decreases toks.len() - p, 1nat,
{
    match cond_header_r(toks, p, TokenType::KwUnless) {
        Err(k) => Err(k),
        Ok((c, q)) => if q <= p || q > toks.len() {
            Err(ErrorKind::UnexpectedToken)
        } else {
            match nodes_r(toks, q, Some(TokenType::KwUnless), false, Seq::empty()) {
                Err(k) => Err(k),
                Ok((body, q2)) => match block_close_r(toks, q2, TokenType::KwUnless) {
                    Err(k) => Err(k),
                    Ok(r) => Ok((NodeM::Unless(c, body, loc), r)),
                },
            }
        },
    }
}

/// `each ws path ws as ws ident ws? ]} nodes /each ]}`.
pub open spec fn each_r(toks: Seq<TokModel>, p: int, loc: Location) -> Result<(NodeM, int), ErrorKind>
    decreases toks.len() - p, 1nat,
{
    match expect_r(toks, p, TokenType::KwEach) {
        Err(k) => Err(k),
        Ok(q) => match ws_r(toks, q) {
            Err(k) => Err(k),
            Ok(q) => match path_r(toks, q) {
                Err(k) => Err(k),
                Ok((c, q)) => match ws_r(toks, q) {
                    Err(k) => Err(k),
                    Ok(q) => match expect_r(toks, q, TokenType::KwAs) {
                        Err(k) => Err(k),
                        Ok(q) => match ws_r(toks, q) {
                            Err(k) => Err(k),
                            Ok(q) => match ident_r(toks, q) {
                                Err(k) => Err(k),
                                Ok((item, q)) => match expect_r(toks, skip_ws(toks, q), TokenType::Close) {
                                    Err(k) => Err(k),
                                    Ok(q) => if q <= p || q > toks.len() {
                                        Err(ErrorKind::UnexpectedToken)
                                    } else {
                                        match nodes_r(toks, q, Some(TokenType::KwEach), false, Seq::empty()) {
                                            Err(k) => Err(k),
                                            Ok((body, q2)) => match block_close_r(toks, q2, TokenType::KwEach) {
                                                Err(k) => Err(k),
                                                Ok(r) => Ok((NodeM::Each(c, item, body, loc), r)),
                                            },
                                        }
                                    },
                                },
                            },
                        },
                    },
                },
            },
        },
    }
}

/// The whole token sequence as a template: its nodes, or the first error.
pub open spec fn template_r(toks: Seq<TokModel>) -> Result<Seq<NodeM>, ErrorKind> {
    match nodes_r(toks, 0, None, false, Seq::empty()) {
        Err(k) => Err(k),
        Ok((ns, _)) => Ok(ns),
    }
}

/// The tokens the lexer's rules give, as the processor sees them.
pub open spec fn lexeme_toks(ls: Seq<crate::lexer::Lexeme>, s: Seq<char>) -> Seq<TokModel> {
    ls.map_values(|l: crate::lexer::Lexeme| (l.kind, l.value, crate::lexer::location_at(s, l.pos)))
}

/// What a template source parses to: lexing, then whitespace control and
/// comments, then the grammar; or the kind of the first stage's error.
pub open spec fn source_r(s: Seq<char>) -> Result<Seq<NodeM>, ErrorKind> {
    match crate::lexer::lex(s, 0, false) {
        Err(p) => if p < s.len() { Err(ErrorKind::Syntax) } else { Err(ErrorKind::UnexpectedToken) },
        Ok(ls) => match crate::token_processor::processed(lexeme_toks(ls, s)) {
            Err(_) => Err(ErrorKind::UnclosedComment),
            Ok(ts) => template_r(ts),
        },
    }
}

} // verus!
