//! The two-mode lexer: text mode gathers raw text up to `{[`, tag mode
//! splits the inside of a tag into tokens.
use vstd::prelude::*;
use crate::error::{Location, ParseError};
use crate::text::{chars_of, string_of};
use crate::token::{Token, TokenType};

verus! {

/// A token as the lexing rules define it: kind, text and starting index.
pub struct Lexeme {
    pub kind: TokenType,
    pub value: Seq<char>,
    pub pos: int,
}

/// The number of bytes of a character in UTF-8.
pub open spec fn len8(c: char) -> nat {
    if (c as u32) < 0x80 { 1 } else if (c as u32) < 0x800 { 2 } else if (c as u32) < 0x10000 { 3 } else { 4 }
}

/// Line, column and byte offset reached after the first `p` characters:
/// a line feed starts a new line at column 1, any other character moves
/// the column on by its byte length.
pub open spec fn loc_at(s: Seq<char>, p: int) -> (nat, nat, nat)
    decreases p,
{
    if p <= 0 || p > s.len() {
        (1, 1, 0)
    } else {
        let (l, c, b) = loc_at(s, p - 1);
        if s[p - 1] == '\n' {
            (l + 1, 1, b + len8(s[p - 1]))
        } else {
            (l, c + len8(s[p - 1]), b + len8(s[p - 1]))
        }
    }
}

/// The location of index `p` of the source.
pub open spec fn location_at(s: Seq<char>, p: int) -> Location {
    let (l, c, b) = loc_at(s, p);
    Location { line: l as usize, column: c as usize, byte_offset: b as usize }
}

/// Whether `lit` occurs in `s` at index `p`.
pub open spec fn at(s: Seq<char>, p: int, lit: Seq<char>) -> bool {
    0 <= p && p + lit.len() <= s.len() && s.subrange(p, p + lit.len()) == lit
}

pub open spec fn open_chars() -> Seq<char> {
    seq!['{', '[']
}

pub open spec fn escape_chars() -> Seq<char> {
    seq!['{', '[', '{', ']', '}']
}

/// The text gathered from index `p` in text mode, and where it stops: at the
/// end, or at a `{[` that is not the escape `{[{]}`; each escape adds `{[`.
pub open spec fn text_run(s: Seq<char>, p: int) -> (Seq<char>, int)
    decreases s.len() - p,
{
    if p < 0 || p >= s.len() {
        (Seq::empty(), p)
    } else if at(s, p, escape_chars()) {
        let r = text_run(s, p + 5);
        (open_chars() + r.0, r.1)
    } else if at(s, p, open_chars()) {
        (Seq::empty(), p)
    } else {
        let r = text_run(s, p + 1);
        (seq![s[p]] + r.0, r.1)
    }
}

pub open spec fn is_ws(c: char) -> bool {
    c == ' ' || c == '\t' || c == '\r' || c == '\n'
}

pub open spec fn is_alpha(c: char) -> bool {
    ('A' <= c && c <= 'Z') || ('a' <= c && c <= 'z')
}

pub open spec fn is_ident_continue(c: char) -> bool {
    is_alpha(c) || ('0' <= c && c <= '9') || c == '_'
}

/// The end of the run of whitespace that starts at `p`.
pub open spec fn ws_end(s: Seq<char>, p: int) -> int
    decreases s.len() - p,
{
    if 0 <= p < s.len() && is_ws(s[p]) { ws_end(s, p + 1) } else { p }
}

/// The end of the run of identifier characters that starts at `p`.
pub open spec fn ident_end(s: Seq<char>, p: int) -> int
    decreases s.len() - p,
{
    if 0 <= p < s.len() && is_ident_continue(s[p]) { ident_end(s, p + 1) } else { p }
}

/// The kind of a word: one of the five keywords, else an identifier.
pub open spec fn keyword_kind(w: Seq<char>) -> TokenType {
    if w == seq!['i', 'f'] {
        TokenType::KwIf
    } else if w == seq!['u', 'n', 'l', 'e', 's', 's'] {
        TokenType::KwUnless
    } else if w == seq!['e', 'l', 's', 'e'] {
        TokenType::KwElse
    } else if w == seq!['e', 'a', 'c', 'h'] {
        TokenType::KwEach
    } else if w == seq!['a', 's'] {
        TokenType::KwAs
    } else {
        TokenType::Ident
    }
}

/// The kind of a one-character fixed token.
pub open spec fn single_kind(c: char) -> Option<TokenType> {
    if c == '%' { Some(TokenType::Percent) }
    else if c == '-' { Some(TokenType::Dash) }
    else if c == '#' { Some(TokenType::Hash) }
    else if c == '/' { Some(TokenType::Slash) }
    else if c == '.' { Some(TokenType::Dot) }
    else if c == ',' { Some(TokenType::Comma) }
    else if c == '=' { Some(TokenType::Equal) }
    else if c == '?' { Some(TokenType::Question) }
    else { None }
}

/// Whether a bang keyword of kind `k` stands at `p`, not followed by an
/// identifier character.
pub open spec fn bang_word_at(s: Seq<char>, p: int, k: TokenType) -> bool {
    let lit = crate::token::literal_chars(k);
    at(s, p, lit) && !(p + lit.len() < s.len() && is_ident_continue(s[p + lit.len()]))
}

/// One step of tag mode at index `p`: the token found there and the index
/// after it, or `None` for a character that starts no token.
pub open spec fn tag_step(s: Seq<char>, p: int) -> Option<(TokenType, Seq<char>, int)> {
    let c = s[p];
    if c == ']' && at(s, p, seq![']', '}']) {
        Some((TokenType::Close, seq![']', '}'], p + 2))
    } else if single_kind(c) is Some {
        Some((single_kind(c)->Some_0, seq![c], p + 1))
    } else if c == '!' {
        if bang_word_at(s, p, TokenType::BangUnsecure) {
            Some((TokenType::BangUnsecure, crate::token::literal_chars(TokenType::BangUnsecure), p + 9))
        } else if bang_word_at(s, p, TokenType::BangInclude) {
            Some((TokenType::BangInclude, crate::token::literal_chars(TokenType::BangInclude), p + 8))
        } else {
            Some((TokenType::Exclamation, seq!['!'], p + 1))
        }
    } else if is_ws(c) {
        Some((TokenType::Whitespace, s.subrange(p, ws_end(s, p)), ws_end(s, p)))
    } else if is_alpha(c) {
        let w = s.subrange(p, ident_end(s, p));
        Some((keyword_kind(w), w, ident_end(s, p)))
    } else {
        None
    }
}

/// Whether the characters just before index `p` are a tag opening `{[`
/// followed only by dashes: a tag with nothing in it yet.
pub open spec fn open_then_dashes(s: Seq<char>, p: int) -> bool
    decreases p,
{
    if p < 2 || p > s.len() {
        false
    } else if s[p - 2] == '{' && s[p - 1] == '[' {
        true
    } else if s[p - 1] == '-' {
        open_then_dashes(s, p - 1)
    } else {
        false
    }
}

/// Prepends `pre` to a successful result.
pub open spec fn prepend(pre: Seq<Lexeme>, r: Result<Seq<Lexeme>, int>) -> Result<Seq<Lexeme>, int> {
    match r {
        Ok(t) => Ok(pre + t),
        Err(e) => Err(e),
    }
}

/// The tokens of `s` from index `p` in the given mode, ending with `Eof`;
/// or the index of the first character that starts no token, or the end
/// of input when it comes inside a tag that holds nothing but dashes.
pub open spec fn lex(s: Seq<char>, p: int, in_tag: bool) -> Result<Seq<Lexeme>, int>
    decreases s.len() - p,
{
    if p < 0 || p >= s.len() {
        if in_tag && open_then_dashes(s, p) {
            Err(p)
        } else {
            Ok(seq![Lexeme { kind: TokenType::Eof, value: Seq::empty(), pos: p }])
        }
    } else if !in_tag {
        let (t, q) = text_run(s, p);
        let head = if t.len() > 0 {
            seq![Lexeme { kind: TokenType::Text, value: t, pos: p }]
        } else {
            Seq::empty()
        };
        let next = if q < s.len() { q + 2 } else { q };
        if next <= p || next > s.len() {
            Err(p)
        } else {
            prepend(head, lex(s, next, q < s.len()))
        }
    } else {
        match tag_step(s, p) {
            None => Err(p),
            Some((k, v, q)) => if q <= p || q > s.len() {
                Err(p)
            } else {
                prepend(seq![Lexeme { kind: k, value: v, pos: p }], lex(s, q, !(k is Close)))
            },
        }
    }
}

/// Whether an emitted token is the lexeme at its place in source `s`.
pub open spec fn token_is(t: Token, l: Lexeme, s: Seq<char>) -> bool {
    t.token_type == l.kind && t.value@ == l.value && t.location == location_at(s, l.pos)
}

/// Whether emitted tokens are the given lexemes, one for one.
pub open spec fn tokens_are(ts: Seq<Token>, ls: Seq<Lexeme>, s: Seq<char>) -> bool {
    ts.len() == ls.len() && forall|i: int| 0 <= i < ts.len() ==> token_is(#[trigger] ts[i], ls[i], s)
}

/// The result of lexing source `s`, against the rules.
pub open spec fn lexed(r: Result<Vec<Token>, ParseError>, s: Seq<char>) -> bool {
    match lex(s, 0, false) {
        Ok(ls) => r is Ok && tokens_are(r->Ok_0@, ls, s),
        Err(p) => if p < s.len() {
            r is Err && r->Err_0 == (ParseError::SyntaxError {
                line: location_at(s, p).line,
                column: location_at(s, p).column,
                byte_start: location_at(s, p).byte_offset,
                byte_end: (location_at(s, p).byte_offset + 1) as usize,
            })
        } else {
            &&& r is Err
            &&& r->Err_0 is UnexpectedToken
            &&& r->Err_0->UnexpectedToken_line == location_at(s, p).line
            &&& r->Err_0->UnexpectedToken_column == location_at(s, p).column
        },
    }
}

/// The largest source, in characters, whose byte offsets fit in `usize`.
pub open spec fn source_fits(s: Seq<char>) -> bool {
    4 * s.len() + 8 <= usize::MAX
}

pub proof fn lemma_loc_bounds(s: Seq<char>, p: int)
    requires
        0 <= p <= s.len(),
    ensures
        loc_at(s, p).0 <= p + 1,
        loc_at(s, p).1 <= loc_at(s, p).2 + 1,
        loc_at(s, p).2 <= 4 * p,
    decreases p,
{
    if p > 0 {
        lemma_loc_bounds(s, p - 1);
    }
}

pub proof fn lemma_text_run(s: Seq<char>, p: int)
    requires
        0 <= p <= s.len(),
    ensures
        p <= text_run(s, p).1 <= s.len(),
        text_run(s, p).1 < s.len() ==> at(s, text_run(s, p).1, open_chars()),
        text_run(s, p).1 == p && p < s.len() ==> at(s, p, open_chars()),
    decreases s.len() - p,
{
    if p < s.len() {
        if at(s, p, escape_chars()) {
            lemma_text_run(s, p + 5);
        } else if at(s, p, open_chars()) {
        } else {
            lemma_text_run(s, p + 1);
        }
    }
}

pub proof fn lemma_ws_end(s: Seq<char>, p: int)
    requires
        0 <= p <= s.len(),
    ensures
        p <= ws_end(s, p) <= s.len(),
        p < s.len() && is_ws(s[p]) ==> p < ws_end(s, p),
    decreases s.len() - p,
{
    if p < s.len() && is_ws(s[p]) {
        lemma_ws_end(s, p + 1);
    }
}

pub proof fn lemma_ident_end(s: Seq<char>, p: int)
    requires
        0 <= p <= s.len(),
    ensures
        p <= ident_end(s, p) <= s.len(),
        p < s.len() && is_ident_continue(s[p]) ==> p < ident_end(s, p),
    decreases s.len() - p,
{
    if p < s.len() && is_ident_continue(s[p]) {
        lemma_ident_end(s, p + 1);
    }
}

/// The lexer's state over one source.
pub struct Lexer {
    chars: Vec<char>,
    pos: usize,
    line: usize,
    col: usize,
    byte: usize,
    in_tag: bool,
}

impl Lexer {
    /// The characters being lexed.
    pub closed spec fn source(&self) -> Seq<char> {
        self.chars@
    }

    /// Whether the position is in range and the counters match it.
    pub closed spec fn wf(&self) -> bool {
        &&& self.pos <= self.chars@.len()
        &&& source_fits(self.chars@)
        &&& loc_at(self.chars@, self.pos as int) == (self.line as nat, self.col as nat, self.byte as nat)
    }

    pub closed spec fn position(&self) -> int {
        self.pos as int
    }

    pub closed spec fn in_tag_mode(&self) -> bool {
        self.in_tag
    }

    /// A lexer at the start of `source`, in text mode.
    pub fn new(source: &str) -> (r: Lexer)
        requires
            source_fits(source@),
        ensures
            r.wf(),
            r.source() == source@,
            r.position() == 0,
            !r.in_tag_mode(),
    {
        Lexer { chars: chars_of(source), pos: 0, line: 1, col: 1, byte: 0, in_tag: false }
    }

    fn location(&self) -> (r: Location)
        requires
            self.wf(),
        ensures
            r == location_at(self.chars@, self.pos as int),
    {
        Location::new(self.line, self.col, self.byte)
    }

    fn advance_one(&mut self)
        requires
            old(self).wf(),
            old(self).pos < old(self).chars@.len(),
        ensures
            final(self).wf(),
            final(self).pos == old(self).pos + 1,
            final(self).chars == old(self).chars,
            final(self).in_tag == old(self).in_tag,
    {
        proof {
            lemma_loc_bounds(self.chars@, self.pos as int);
            lemma_loc_bounds(self.chars@, self.pos + 1);
        }
        let c = self.chars[self.pos];
        let n: usize = if (c as u32) < 0x80 { 1 } else if (c as u32) < 0x800 { 2 } else if (c as u32) < 0x10000 { 3 } else { 4 };
        assert(n == len8(c));
        if c == '\n' {
            self.line = self.line + 1;
            self.col = 1;
        } else {
            self.col = self.col + n;
        }
        self.byte = self.byte + n;
        self.pos = self.pos + 1;
    }

    fn advance_n(&mut self, n: usize)
        requires
            old(self).wf(),
            old(self).pos + n <= old(self).chars@.len(),
        ensures
            final(self).wf(),
            final(self).pos == old(self).pos + n,
            final(self).chars == old(self).chars,
            final(self).in_tag == old(self).in_tag,
    {
        let mut k: usize = 0;
        while k < n
            invariant
                self.wf(),
                k <= n,
                self.pos == old(self).pos + k,
                self.chars == old(self).chars,
                self.in_tag == old(self).in_tag,
                old(self).pos + n <= old(self).chars@.len(),
            decreases n - k,
        {
            self.advance_one();
            k += 1;
        }
    }

    /// Whether the source ends with `{[` and then only dashes.
    fn open_then_dashes_at_end(&self) -> (r: bool)
        requires
            self.wf(),
            self.pos == self.chars@.len(),
        ensures
            r == open_then_dashes(self.chars@, self.pos as int),
    {
        let mut k: usize = self.pos;
        while k >= 2
            invariant
                k <= self.chars@.len(),
                self.pos == self.chars@.len(),
                open_then_dashes(self.chars@, self.pos as int) == open_then_dashes(self.chars@, k as int),
            decreases k,
        {
            if self.chars[k - 2] == '{' && self.chars[k - 1] == '[' {
                return true;
            }
            if self.chars[k - 1] != '-' {
                return false;
            }
            k -= 1;
        }
        false
    }

    /// Whether `lit` stands at the current position.
    fn looking_at(&self, lit: &[char]) -> (r: bool)
        requires
            self.wf(),
        ensures
            r == at(self.chars@, self.pos as int, lit@),
    {
        if lit.len() > self.chars.len() - self.pos {
            return false;
        }
        let mut i: usize = 0;
        while i < lit.len()
            invariant
                self.wf(),
                self.pos + lit@.len() <= self.chars@.len(),
                i <= lit@.len(),
                forall|j: int| 0 <= j < i ==> self.chars@[self.pos + j] == lit@[j],
            decreases lit@.len() - i,
        {
            if self.chars[self.pos + i] != lit[i] {
                assert(self.chars@.subrange(self.pos as int, self.pos + lit@.len())[i as int] != lit@[i as int]);
                return false;
            }
            i += 1;
        }
        assert(self.chars@.subrange(self.pos as int, self.pos + lit@.len()) =~= lit@);
        true
    }

    fn is_ident_continue_at(&self, p: usize) -> (r: bool)
        ensures
            r == (p < self.chars@.len() && is_ident_continue(self.chars@[p as int])),
    {
        if p >= self.chars.len() {
            return false;
        }
        let c = self.chars[p];
        ('A' <= c && c <= 'Z') || ('a' <= c && c <= 'z') || ('0' <= c && c <= '9') || c == '_'
    }

    /// Text mode: gathers text up to a tag opening, emits it if not empty,
    /// and enters tag mode past the `{[`.
    fn tokenize_text(&mut self, tokens: &mut Vec<Token>)
        requires
            old(self).wf(),
            !old(self).in_tag,
            old(self).pos < old(self).chars@.len(),
        ensures
            final(self).wf(),
            final(self).chars == old(self).chars,
            ({
                let s = old(self).chars@;
                let p = old(self).pos as int;
                let (t, q) = text_run(s, p);
                let head = if t.len() > 0 {
                    seq![Lexeme { kind: TokenType::Text, value: t, pos: p }]
                } else {
                    Seq::empty()
                };
                &&& final(self).pos == (if q < s.len() { q + 2 } else { q })
                &&& final(self).in_tag == (q < s.len())
                &&& final(tokens)@.len() >= old(tokens)@.len()
                &&& final(tokens)@.subrange(0, old(tokens)@.len() as int) == old(tokens)@
                &&& tokens_are(final(tokens)@.subrange(old(tokens)@.len() as int, final(tokens)@.len() as int), head, s)
            }),
    {
        let ghost s = self.chars@;
        let ghost p0 = self.pos as int;
        let start_loc = self.location();
        let esc: [char; 5] = ['{', '[', '{', ']', '}'];
        let open: [char; 2] = ['{', '['];
        proof {
            assert(esc@ =~= escape_chars());
            assert(open@ =~= open_chars());
        }
        let mut text: Vec<char> = Vec::new();
        while self.pos < self.chars.len()
            invariant
                self.wf(),
                self.chars@ == s,
                self.chars == old(self).chars,
                !self.in_tag,
                p0 <= self.pos,
                text_run(s, p0) == (text@ + text_run(s, self.pos as int).0, text_run(s, self.pos as int).1),
                esc@ == escape_chars(),
                open@ == open_chars(),
            ensures
                text_run(s, self.pos as int) == (Seq::<char>::empty(), self.pos as int),
            decreases s.len() - self.pos,
        {
            if self.looking_at(&esc) {
                text.push('{');
                text.push('[');
                let ghost before = text_run(s, self.pos as int);
                self.advance_n(5);
                proof {
                    assert(before.0 == open_chars() + text_run(s, self.pos as int).0);
                    assert(text@.subrange(0, text@.len() - 2) + open_chars() =~= text@);
                    assert(text@.subrange(0, text@.len() - 2) + (open_chars() + text_run(s, self.pos as int).0)
                        =~= text@ + text_run(s, self.pos as int).0);
                }
                continue;
            }
            if self.looking_at(&open) {
                break;
            }
            let c = self.chars[self.pos];
            text.push(c);
            let ghost before = text_run(s, self.pos as int);
            self.advance_one();
            proof {
                assert(before.0 == seq![c] + text_run(s, self.pos as int).0);
                assert(text@.subrange(0, text@.len() - 1) + (seq![c] + text_run(s, self.pos as int).0)
                    =~= text@ + text_run(s, self.pos as int).0);
            }
        }
        proof {
            assert(text_run(s, self.pos as int).0 =~= Seq::<char>::empty());
            assert(text@ + Seq::<char>::empty() =~= text@);
        }
        let ghost old_tokens = tokens@;
        if text.len() > 0 {
            let value = string_of(text.as_slice());
            tokens.push(Token::new(TokenType::Text, value, start_loc));
        }
        proof {
            let (t, q) = text_run(s, p0);
            let head = if t.len() > 0 {
                seq![Lexeme { kind: TokenType::Text, value: t, pos: p0 }]
            } else {
                Seq::<Lexeme>::empty()
            };
            assert(tokens@.subrange(0, old_tokens.len() as int) =~= old_tokens);
            let added = tokens@.subrange(old_tokens.len() as int, tokens@.len() as int);
            if t.len() > 0 {
                assert(added.len() == 1);
                assert(added[0] == tokens@[old_tokens.len() as int]);
                assert(token_is(added[0], head[0], s));
            }
            assert(tokens_are(added, head, s));
        }
        if self.looking_at(&open) {
            self.advance_n(2);
            self.in_tag = true;
        }
    }

    fn emit_fixed(&mut self, tokens: &mut Vec<Token>, kind: TokenType, lit: &[char])
        requires
            old(self).wf(),
            at(old(self).chars@, old(self).pos as int, lit@),
        ensures
            final(self).wf(),
            final(self).chars == old(self).chars,
            final(self).in_tag == old(self).in_tag,
            final(self).pos == old(self).pos + lit@.len(),
            final(tokens)@ == old(tokens)@.push(Token {
                token_type: kind,
                value: final(tokens)@.last().value,
                location: location_at(old(self).chars@, old(self).pos as int),
            }),
            final(tokens)@.last().value@ == lit@,
    {
        let loc = self.location();
        let value = string_of(lit);
        tokens.push(Token::new(kind, value, loc));
        self.advance_n(lit.len());
    }

    /// Tag mode: emits the one token that starts at the current position.
    fn tokenize_tag(&mut self, tokens: &mut Vec<Token>) -> (r: Result<(), ParseError>)
        requires
            old(self).wf(),
            old(self).in_tag,
            old(self).pos < old(self).chars@.len(),
        ensures
            final(self).wf(),
            final(self).chars == old(self).chars,
            ({
                let s = old(self).chars@;
                let p = old(self).pos as int;
                match tag_step(s, p) {
                    None => r is Err && r->Err_0 == (ParseError::SyntaxError {
                        line: location_at(s, p).line,
                        column: location_at(s, p).column,
                        byte_start: location_at(s, p).byte_offset,
                        byte_end: (location_at(s, p).byte_offset + 1) as usize,
                    }),
                    Some((k, v, q)) => {
                        &&& r is Ok
                        &&& q > p
                        &&& final(self).pos == q
                        &&& final(self).in_tag == !(k is Close)
                        &&& final(tokens)@.len() == old(tokens)@.len() + 1
                        &&& final(tokens)@.subrange(0, old(tokens)@.len() as int) == old(tokens)@
                        &&& token_is(final(tokens)@.last(), Lexeme { kind: k, value: v, pos: p }, s)
                    },
                }
            }),
    {
        let ghost s = self.chars@;
        let ghost p = self.pos as int;
        let ghost old_tokens = tokens@;
        let loc = self.location();
        let c = self.chars[self.pos];
        let close: [char; 2] = [']', '}'];
        assert(close@ =~= seq![']', '}']);
        if c == ']' && self.looking_at(&close) {
            self.emit_fixed(tokens, TokenType::Close, &close);
            self.in_tag = false;
            assert(tokens@.subrange(0, old_tokens.len() as int) =~= old_tokens);
            return Ok(());
        }
        let single: Option<TokenType> = if c == '%' { Some(TokenType::Percent) }
            else if c == '-' { Some(TokenType::Dash) }
            else if c == '#' { Some(TokenType::Hash) }
            else if c == '/' { Some(TokenType::Slash) }
            else if c == '.' { Some(TokenType::Dot) }
            else if c == ',' { Some(TokenType::Comma) }
            else if c == '=' { Some(TokenType::Equal) }
            else if c == '?' { Some(TokenType::Question) }
            else { None };
        assert(single == single_kind(c));
        if let Some(kind) = single {
            let one: [char; 1] = [c];
            assert(one@ =~= seq![c]);
            assert(s.subrange(p, p + 1) =~= seq![c]);
            self.emit_fixed(tokens, kind, &one);
            assert(tokens@.subrange(0, old_tokens.len() as int) =~= old_tokens);
            return Ok(());
        }
        if c == '!' {
            let unsecure: [char; 9] = ['!', 'u', 'n', 's', 'e', 'c', 'u', 'r', 'e'];
            let inc: [char; 8] = ['!', 'i', 'n', 'c', 'l', 'u', 'd', 'e'];
            assert(unsecure@ =~= crate::token::literal_chars(TokenType::BangUnsecure));
            assert(inc@ =~= crate::token::literal_chars(TokenType::BangInclude));
            if self.looking_at(&unsecure) && !self.is_ident_continue_at(self.pos + 9) {
                self.emit_fixed(tokens, TokenType::BangUnsecure, &unsecure);
            } else if self.looking_at(&inc) && !self.is_ident_continue_at(self.pos + 8) {
                self.emit_fixed(tokens, TokenType::BangInclude, &inc);
            } else {
                let one: [char; 1] = ['!'];
                assert(one@ =~= seq!['!']);
                assert(s.subrange(p, p + 1) =~= seq!['!']);
                self.emit_fixed(tokens, TokenType::Exclamation, &one);
            }
            assert(tokens@.subrange(0, old_tokens.len() as int) =~= old_tokens);
            return Ok(());
        }
        if c == ' ' || c == '\t' || c == '\r' || c == '\n' {
            proof { lemma_ws_end(s, p); }
            let mut run: Vec<char> = Vec::new();
            while self.pos < self.chars.len()
                && (self.chars[self.pos] == ' ' || self.chars[self.pos] == '\t'
                    || self.chars[self.pos] == '\r' || self.chars[self.pos] == '\n')
                invariant
                    self.wf(),
                    self.chars@ == s,
                    self.chars == old(self).chars,
                    self.in_tag,
                    p <= self.pos <= ws_end(s, p),
                    ws_end(s, self.pos as int) == ws_end(s, p),
                    run@ == s.subrange(p, self.pos as int),
                decreases s.len() - self.pos,
            {
                proof { lemma_ws_end(s, self.pos + 1); }
                run.push(self.chars[self.pos]);
                self.advance_one();
                assert(run@ =~= s.subrange(p, self.pos as int));
            }
            let value = string_of(run.as_slice());
            tokens.push(Token::new(TokenType::Whitespace, value, loc));
            assert(tokens@.subrange(0, old_tokens.len() as int) =~= old_tokens);
            return Ok(());
        }
        if ('A' <= c && c <= 'Z') || ('a' <= c && c <= 'z') {
            proof { lemma_ident_end(s, p); }
            let mut word: Vec<char> = Vec::new();
            while self.is_ident_continue_at(self.pos)
                invariant
                    self.wf(),
                    self.chars@ == s,
                    self.chars == old(self).chars,
                    self.in_tag,
                    p <= self.pos <= ident_end(s, p),
                    ident_end(s, self.pos as int) == ident_end(s, p),
                    word@ == s.subrange(p, self.pos as int),
                decreases s.len() - self.pos,
            {
                proof { lemma_ident_end(s, self.pos + 1); }
                word.push(self.chars[self.pos]);
                self.advance_one();
                assert(word@ =~= s.subrange(p, self.pos as int));
            }
            let kind = keyword_of_chars(word.as_slice());
            let value = string_of(word.as_slice());
            tokens.push(Token::new(kind, value, loc));
            assert(tokens@.subrange(0, old_tokens.len() as int) =~= old_tokens);
            return Ok(());
        }
        proof { lemma_loc_bounds(s, p); }
        Err(ParseError::SyntaxError {
            line: loc.line,
            column: loc.column,
            byte_start: loc.byte_offset,
            byte_end: loc.byte_offset + 1,
        })
    }

    /// Lexes the whole source; the token list ends with `Eof`.
    pub fn tokenize(&mut self) -> (r: Result<Vec<Token>, ParseError>)
        requires
            old(self).wf(),
            old(self).position() == 0,
            !old(self).in_tag_mode(),
        ensures
            lexed(r, old(self).source()),
    {
        let ghost s = self.chars@;
        let mut tokens: Vec<Token> = Vec::new();
        let ghost mut done: Seq<Lexeme> = Seq::empty();
        proof {
            assert(prepend(done, lex(s, 0, false)) =~= lex(s, 0, false)) by {
                match lex(s, 0, false) {
                    Ok(t) => { assert(done + t =~= t); },
                    Err(_) => {},
                }
            }
        }
        while self.pos < self.chars.len()
            invariant
                self.wf(),
                self.chars@ == s,
                s == old(self).chars@,
                tokens_are(tokens@, done, s),
                lex(s, 0, false) == prepend(done, lex(s, self.pos as int, self.in_tag)),
            decreases s.len() - self.pos,
        {
            let ghost p = self.pos as int;
            let ghost was_tag = self.in_tag;
            let ghost before = tokens@;
            if self.in_tag {
                let r = self.tokenize_tag(&mut tokens);
                match r {
                    Err(e) => {
                        proof {
                            assert(lex(s, p, true) == Err::<Seq<Lexeme>, int>(p));
                        }
                        return Err(e);
                    },
                    Ok(()) => {
                        proof {
                            let (k, v, q) = tag_step(s, p)->Some_0;
                            let l = Lexeme { kind: k, value: v, pos: p };
                            let nd = done.push(l);
                            assert(tokens@ =~= before.push(tokens@.last()));
                            assert(tokens_are(tokens@, nd, s)) by {
                                assert forall|i: int| 0 <= i < tokens@.len() implies token_is(#[trigger] tokens@[i], nd[i], s) by {
                                    if i < before.len() {
                                        assert(tokens@[i] == before[i]);
                                    }
                                }
                            }
                            match lex(s, q, !(k is Close)) {
                                Ok(t) => { assert(done + (seq![l] + t) =~= nd + t); },
                                Err(_) => {},
                            }
                            done = nd;
                        }
                    },
                }
            } else {
                proof { lemma_text_run(s, p); }
                self.tokenize_text(&mut tokens);
                proof {
                    let (t, q) = text_run(s, p);
                    let head = if t.len() > 0 {
                        seq![Lexeme { kind: TokenType::Text, value: t, pos: p }]
                    } else {
                        Seq::<Lexeme>::empty()
                    };
                    let nd = done + head;
                    let added = tokens@.subrange(before.len() as int, tokens@.len() as int);
                    assert(tokens@.subrange(0, before.len() as int) == before);
                    assert(tokens@ =~= tokens@.subrange(0, before.len() as int) + added);
                    assert(tokens_are(tokens@, nd, s)) by {
                        assert forall|i: int| 0 <= i < tokens@.len() implies token_is(#[trigger] tokens@[i], nd[i], s) by {
                            if i < before.len() {
                                assert(tokens@[i] == before[i]);
                            } else {
                                assert(tokens@[i] == added[i - before.len()]);
                            }
                        }
                    }
                    let next = if q < s.len() { q + 2 } else { q };
                    match lex(s, next, q < s.len()) {
                        Ok(r) => { assert(done + (head + r) =~= nd + r); },
                        Err(_) => {},
                    }
                    done = nd;
                }
            }
        }
        let eof_loc = self.location();
        if self.in_tag && self.open_then_dashes_at_end() {
            return Err(ParseError::UnexpectedToken {
                message: "Unexpected end of input inside a tag".to_owned(),
                line: eof_loc.line,
                column: eof_loc.column,
            });
        }
        let ghost before = tokens@;
        tokens.push(Token::new(TokenType::Eof, String::new(), eof_loc));
        proof {
            let l = Lexeme { kind: TokenType::Eof, value: Seq::empty(), pos: self.pos as int };
            assert(tokens_are(tokens@, done.push(l), s)) by {
                assert forall|i: int| 0 <= i < tokens@.len() implies token_is(#[trigger] tokens@[i], done.push(l)[i], s) by {
                    if i < before.len() {
                        assert(tokens@[i] == before[i]);
                    }
                }
            }
            assert(done + seq![l] =~= done.push(l));
        }
        Ok(tokens)
    }
}

/// The kind of a word of identifier characters.
pub fn keyword_of_chars(w: &[char]) -> (r: TokenType)
    ensures
        r == keyword_kind(w@),
{
    let kw_if: [char; 2] = ['i', 'f'];
    let kw_unless: [char; 6] = ['u', 'n', 'l', 'e', 's', 's'];
    let kw_else: [char; 4] = ['e', 'l', 's', 'e'];
    let kw_each: [char; 4] = ['e', 'a', 'c', 'h'];
    let kw_as: [char; 2] = ['a', 's'];
    assert(kw_if@ =~= seq!['i', 'f']);
    assert(kw_unless@ =~= seq!['u', 'n', 'l', 'e', 's', 's']);
    assert(kw_else@ =~= seq!['e', 'l', 's', 'e']);
    assert(kw_each@ =~= seq!['e', 'a', 'c', 'h']);
    assert(kw_as@ =~= seq!['a', 's']);
    if crate::text::chars_eq(w, &kw_if) {
        TokenType::KwIf
    } else if crate::text::chars_eq(w, &kw_unless) {
        TokenType::KwUnless
    } else if crate::text::chars_eq(w, &kw_else) {
        TokenType::KwElse
    } else if crate::text::chars_eq(w, &kw_each) {
        TokenType::KwEach
    } else if crate::text::chars_eq(w, &kw_as) {
        TokenType::KwAs
    } else {
        TokenType::Ident
    }
}

/// Lexes a template source into tokens ending with `Eof`, or fails with a
/// syntax error at the first character in a tag that starts no token.
pub fn tokenize(source: &str) -> (r: Result<Vec<Token>, ParseError>)
    requires
        source_fits(source@),
    ensures
        lexed(r, source@),
{
    let mut lexer = Lexer::new(source);
    lexer.tokenize()
}

} // verus!
