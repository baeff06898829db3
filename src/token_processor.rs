//! Resolves whitespace-control dashes and strips comment tags from the raw
//! token stream.
use vstd::prelude::*;
use crate::error::{Location, ParseError};
use crate::text::{chars_of, string_of};
use crate::token::{Token, TokenType};

verus! {

/// A token as the processing rules see it: kind, text, location.
pub type TokModel = (TokenType, Seq<char>, Location);

pub open spec fn tok_model(t: Token) -> TokModel {
    (t.token_type, t.value@, t.location)
}

pub open spec fn toks_model(ts: Seq<Token>) -> Seq<TokModel> {
    ts.map_values(|t: Token| tok_model(t))
}

pub open spec fn is_blank(c: char) -> bool {
    c == ' ' || c == '\t'
}

/// The index just after the last line break (`\n` or `\r`) of `v`; 0 if none.
pub open spec fn line_start(v: Seq<char>) -> int
    decreases v.len(),
{
    if v.len() == 0 {
        0
    } else if v.last() == '\n' || v.last() == '\r' {
        v.len() as int
    } else {
        line_start(v.drop_last())
    }
}

/// Whether every character of `v` from `i` on is a space or tab.
pub open spec fn blank_from(v: Seq<char>, i: int) -> bool {
    forall|j: int| i <= j < v.len() ==> is_blank(#[trigger] v[j])
}

/// Left trim: drops the trailing spaces and tabs of `v` when they fill its
/// last line, keeping the line break. A text with no line break fills a line
/// only when it starts one (`starts_line`).
pub open spec fn strip_trailing_blank(v: Seq<char>, starts_line: bool) -> Seq<char> {
    let ls = line_start(v);
    if (ls > 0 || starts_line) && blank_from(v, ls) {
        v.subrange(0, ls)
    } else {
        v
    }
}

/// The length of the run of spaces and tabs that starts `v`.
pub open spec fn blank_prefix(v: Seq<char>, i: int) -> int
    decreases v.len() - i,
{
    if 0 <= i < v.len() && is_blank(v[i]) { blank_prefix(v, i + 1) } else { i }
}

/// Right trim: drops a leading run of spaces and tabs with one following
/// line terminator (`\n`, `\r\n` or `\r`), when the run reaches a line
/// terminator or the end; otherwise `v` is kept.
pub open spec fn strip_leading_blank(v: Seq<char>) -> Seq<char> {
    let k = blank_prefix(v, 0);
    if k >= v.len() {
        Seq::empty()
    } else if v[k] == '\n' {
        v.subrange(k + 1, v.len() as int)
    } else if v[k] == '\r' {
        if k + 1 < v.len() && v[k + 1] == '\n' {
            v.subrange(k + 2, v.len() as int)
        } else {
            v.subrange(k + 1, v.len() as int)
        }
    } else {
        v
    }
}

/// The processing state after some prefix of the tokens.
pub struct Proc {
    pub out: Seq<TokModel>,
    pub strip_next: bool,
    pub in_comment: bool,
    pub comment_loc: Location,
    /// Some token of the current tag has been seen.
    pub in_tag: bool,
    /// Some token other than `-` of the current tag has been seen.
    pub content_seen: bool,
}

pub open spec fn initial_proc() -> Proc {
    Proc {
        out: Seq::empty(),
        strip_next: false,
        in_comment: false,
        comment_loc: Location { line: 0, column: 0, byte_offset: 0 },
        in_tag: false,
        content_seen: false,
    }
}

/// The output after a leading `-`: the last emitted token, if it is text,
/// left-trimmed, and dropped if that empties it.
pub open spec fn left_trim(out: Seq<TokModel>) -> Seq<TokModel> {
    if out.len() > 0 && out.last().0 is Text {
        let (k, v, loc) = out.last();
        let w = strip_trailing_blank(v, loc.column == 1);
        if w.len() == 0 {
            out.drop_last()
        } else {
            out.drop_last().push((k, w, loc))
        }
    } else {
        out
    }
}

/// One step of processing: the state after token `t`, where `next_close`
/// tells whether the token after it is `]}`.
pub open spec fn proc_step(st: Proc, t: TokModel, next_close: bool) -> Proc {
    let (k, v, loc) = t;
    if st.in_comment {
        let sn = if k is Dash && next_close { true } else { st.strip_next };
        if k is Close {
            Proc { strip_next: sn, in_comment: false, in_tag: false, content_seen: false, ..st }
        } else {
            Proc { strip_next: sn, ..st }
        }
    } else if k is Percent && !st.content_seen {
        Proc { in_comment: true, comment_loc: loc, in_tag: true, content_seen: true, ..st }
    } else if k is Dash {
        Proc {
            out: if !st.in_tag { left_trim(st.out) } else { st.out },
            strip_next: st.strip_next || next_close,
            in_tag: true,
            ..st
        }
    } else if k is Close {
        Proc { out: st.out.push(t), in_tag: false, content_seen: false, ..st }
    } else if k is Text {
        let w = if st.strip_next { strip_leading_blank(v) } else { v };
        Proc {
            out: if w.len() > 0 { st.out.push((k, w, loc)) } else { st.out },
            strip_next: false,
            in_tag: false,
            content_seen: false,
            ..st
        }
    } else {
        Proc { out: st.out.push(t), in_tag: true, content_seen: true, ..st }
    }
}

/// Processing from token `i` on in state `st`: the output tokens, or the
/// location of a comment left open at the end.
pub open spec fn proc_from(ts: Seq<TokModel>, i: int, st: Proc) -> Result<Seq<TokModel>, Location>
    decreases ts.len() - i,
{
    if i < 0 || i >= ts.len() {
        if st.in_comment { Err(st.comment_loc) } else { Ok(st.out) }
    } else {
        let next_close = i + 1 < ts.len() && ts[i + 1].0 is Close;
        proc_from(ts, i + 1, proc_step(st, ts[i], next_close))
    }
}

/// The processed form of a token sequence.
pub open spec fn processed(ts: Seq<TokModel>) -> Result<Seq<TokModel>, Location> {
    proc_from(ts, 0, initial_proc())
}

/// Left trim on a string; `starts_line` tells whether it starts a line.
fn strip_trailing_from(value: &str, starts_line: bool) -> (r: String)
    ensures
        r@ == strip_trailing_blank(value@, starts_line),
{
    let v = chars_of(value);
    let mut ls: usize = v.len();
    assert(v@.subrange(0, v@.len() as int) =~= v@);
    while ls > 0 && v[ls - 1] != '\n' && v[ls - 1] != '\r'
        invariant
            ls <= v@.len(),
            line_start(v@) == line_start(v@.subrange(0, ls as int)),
        decreases ls,
    {
        assert(v@.subrange(0, ls as int).drop_last() =~= v@.subrange(0, ls - 1));
        ls -= 1;
    }
    proof {
        if ls > 0 {
            assert(v@.subrange(0, ls as int).last() == v@[ls - 1]);
        }
        assert(line_start(v@) == ls);
    }
    let mut j: usize = ls;
    while j < v.len()
        invariant
            ls <= j <= v@.len(),
            line_start(v@) == ls,
            v@ == value@,
            forall|t: int| ls <= t < j ==> is_blank(#[trigger] v@[t]),
        decreases v@.len() - j,
    {
        if v[j] != ' ' && v[j] != '\t' {
            assert(!is_blank(v@[j as int]));
            return string_of(v.as_slice());
        }
        j += 1;
    }
    if ls > 0 || starts_line {
        string_of(vstd::slice::slice_subrange(v.as_slice(), 0, ls))
    } else {
        string_of(v.as_slice())
    }
}

/// Right trim on a string.
pub fn strip_leading_whitespace_if_blank_line(text: &str) -> (r: String)
    ensures
        r@ == strip_leading_blank(text@),
{
    let v = chars_of(text);
    let mut k: usize = 0;
    while k < v.len() && (v[k] == ' ' || v[k] == '\t')
        invariant
            k <= v@.len(),
            blank_prefix(v@, 0) == blank_prefix(v@, k as int),
        decreases v@.len() - k,
    {
        k += 1;
    }
    if k >= v.len() {
        return String::new();
    }
    if v[k] == '\n' {
        string_of(vstd::slice::slice_subrange(v.as_slice(), k + 1, v.len()))
    } else if v[k] == '\r' {
        if k + 1 < v.len() && v[k + 1] == '\n' {
            string_of(vstd::slice::slice_subrange(v.as_slice(), k + 2, v.len()))
        } else {
            string_of(vstd::slice::slice_subrange(v.as_slice(), k + 1, v.len()))
        }
    } else {
        string_of(v.as_slice())
    }
}

fn copy_token(t: &Token) -> (r: Token)
    ensures
        tok_model(r) == tok_model(*t),
{
    Token::new(t.token_type, t.value.clone(), t.location)
}

/// The processor's state over one token sequence.
struct TokenProcessor {
    result: Vec<Token>,
    strip_next_text: bool,
    in_comment: bool,
    comment_start: Location,
    in_tag: bool,
    content_seen: bool,
}

impl TokenProcessor {
    spec fn model(&self) -> Proc {
        Proc {
            out: toks_model(self.result@),
            strip_next: self.strip_next_text,
            in_comment: self.in_comment,
            comment_loc: self.comment_start,
            in_tag: self.in_tag,
            content_seen: self.content_seen,
        }
    }

    fn new() -> (r: TokenProcessor)
        ensures
            r.model() == initial_proc(),
    {
        let r = TokenProcessor {
            result: Vec::new(),
            strip_next_text: false,
            in_comment: false,
            comment_start: Location::new(0, 0, 0),
            in_tag: false,
            content_seen: false,
        };
        assert(toks_model(r.result@) =~= Seq::<TokModel>::empty());
        r
    }

    /// A leading `-` left-trims the last emitted token when it is text.
    fn strip_trailing_from_last_text_if_blank_line(&mut self)
        ensures
            final(self).model() == (Proc { out: left_trim(old(self).model().out), ..old(self).model() }),
    {
        let n = self.result.len();
        if n == 0 {
            return;
        }
        match self.result[n - 1].token_type {
            TokenType::Text => {},
            _ => { return; },
        }
        let last = self.result.pop().unwrap();
        let stripped = strip_trailing_from(last.value.as_str(), last.location.column == 1);
        let ghost popped = self.result@;
        proof {
            assert(old(self).result@ =~= popped.push(last));
            assert(toks_model(old(self).result@).drop_last() =~= toks_model(popped));
        }
        if stripped.as_str().is_empty() {
            return;
        }
        self.result.push(Token::new(TokenType::Text, stripped, last.location));
        assert(toks_model(self.result@) =~= toks_model(popped).push((TokenType::Text, stripped@, last.location)));
    }

    fn handle_text(&mut self, token: &Token)
        requires
            token.token_type is Text,
            !old(self).in_comment,
        ensures
            final(self).model() == proc_step(old(self).model(), tok_model(*token), false),
    {
        let text_value = if self.strip_next_text {
            strip_leading_whitespace_if_blank_line(token.value.as_str())
        } else {
            token.value.clone()
        };
        self.strip_next_text = false;
        self.in_tag = false;
        self.content_seen = false;
        if !text_value.as_str().is_empty() {
            let ghost before = self.result@;
            self.result.push(Token::new(TokenType::Text, text_value, token.location));
            assert(toks_model(self.result@) =~= toks_model(before).push((TokenType::Text, text_value@, token.location)));
        }
    }

    fn handle_comment_content(&mut self, token: &Token, next_close: bool)
        requires
            old(self).in_comment,
        ensures
            final(self).model() == proc_step(old(self).model(), tok_model(*token), next_close),
    {
        match token.token_type {
            TokenType::Dash => {
                if next_close {
                    self.strip_next_text = true;
                }
            },
            TokenType::Close => {
                self.in_comment = false;
                self.in_tag = false;
                self.content_seen = false;
            },
            _ => {},
        }
    }

    fn push_token(&mut self, token: &Token)
        ensures
            final(self).result@.len() == old(self).result@.len() + 1,
            final(self).model() == (Proc { out: old(self).model().out.push(tok_model(*token)), ..old(self).model() }),
    {
        let ghost before = self.result@;
        self.result.push(copy_token(token));
        assert(toks_model(self.result@) =~= toks_model(before).push(tok_model(*token)));
    }

    /// Runs the processing over all tokens.
    fn process(&mut self, tokens: &Vec<Token>) -> (r: Result<Vec<Token>, ParseError>)
        requires
            old(self).model() == initial_proc(),
        ensures
            match processed(toks_model(tokens@)) {
                Ok(out) => r is Ok && toks_model(r->Ok_0@) == out,
                Err(loc) => r == Err::<Vec<Token>, ParseError>(ParseError::UnclosedComment {
                    line: loc.line,
                    column: loc.column,
                }),
            },
    {
        let ghost ts = toks_model(tokens@);
        let mut idx: usize = 0;
        while idx < tokens.len()
            invariant
                idx <= tokens@.len(),
                ts == toks_model(tokens@),
                ts.len() == tokens@.len(),
                processed(ts) == proc_from(ts, idx as int, self.model()),
            decreases tokens@.len() - idx,
        {
            let token = &tokens[idx];
            let next_close = idx + 1 < tokens.len() && match tokens[idx + 1].token_type {
                TokenType::Close => true,
                _ => false,
            };
            assert(ts[idx as int] == tok_model(*token));
            assert(next_close == (idx + 1 < ts.len() && ts[idx + 1].0 is Close));
            let ghost st = self.model();
            if self.in_comment {
                self.handle_comment_content(token, next_close);
            } else {
                match token.token_type {
                    TokenType::Percent if !self.content_seen => {
                        self.in_comment = true;
                        self.comment_start = token.location;
                        self.in_tag = true;
                        self.content_seen = true;
                    },
                    TokenType::Dash => {
                        if !self.in_tag {
                            self.strip_trailing_from_last_text_if_blank_line();
                        }
                        if next_close {
                            self.strip_next_text = true;
                        }
                        self.in_tag = true;
                    },
                    TokenType::Close => {
                        self.push_token(token);
                        self.in_tag = false;
                        self.content_seen = false;
                    },
                    TokenType::Text => {
                        self.handle_text(token);
                    },
                    _ => {
                        self.push_token(token);
                        self.in_tag = true;
                        self.content_seen = true;
                    },
                }
            }
            assert(self.model() == proc_step(st, ts[idx as int], next_close));
            idx += 1;
        }
        if self.in_comment {
            return Err(ParseError::UnclosedComment {
                line: self.comment_start.line,
                column: self.comment_start.column,
            });
        }
        let mut out: Vec<Token> = Vec::new();
        std::mem::swap(&mut out, &mut self.result);
        Ok(out)
    }
}

/// Applies whitespace control and removes comments. A leading `-` left-trims
/// the text emitted just before the tag, a `-` before `]}` right-trims the next
/// text, and a tag whose first token other than `-` is `%` is dropped whole.
/// A comment still open at the end fails with `UnclosedComment` at its `%`.
pub fn process(tokens: Vec<Token>) -> (r: Result<Vec<Token>, ParseError>)
    ensures
        match processed(toks_model(tokens@)) {
            Ok(out) => r is Ok && toks_model(r->Ok_0@) == out,
            Err(loc) => r == Err::<Vec<Token>, ParseError>(ParseError::UnclosedComment {
                line: loc.line,
                column: loc.column,
            }),
        },
{
    let mut processor = TokenProcessor::new();
    processor.process(&tokens)
}

} // verus!
