//! Laws of the language, proved over the evaluation and lexing rules.
use vstd::prelude::*;
use crate::ast::{AstNode, Modifier};
use crate::context::{resolve_path, visible};
use crate::error::{ErrorKind, NatsuzoraError};
use crate::html_escape::{escape_seq, is_markup_special, lemma_escape_leaves_no_markup, lemma_escape_plain};
use crate::renderer::{Env, eval_each, eval_node, eval_nodes, rendered, then_concat};
use crate::template_loader::{PartialModel, load_model, lookup_partial};
use crate::value::{Json, truthy};
use crate::lexer::{Lexeme, at, escape_chars, lex, open_chars, text_run};
use crate::token::TokenType;
use crate::token_processor::{Proc, TokModel, left_trim, proc_from, proc_step};

verus! {

/// A string printed through `{[ p ]}` comes out escaped, with no raw `<`,
/// `>`, `"` or `'`, and each `&` in it opens an entity; when it holds none of the five special characters the
/// output holds none of them either. Through `{[!unsecure p ]}` it comes out
/// exactly as it is.
pub proof fn law_escape_coverage(n: AstNode, env: Env, fuel: nat, s: Seq<char>)
    requires
        (n is Variable && n->Variable_0.modifier == Modifier::Plain
            && resolve_path(env.scopes, env.root, n->Variable_0.path.segs()) == Ok::<Json, ErrorKind>(Json::Str(s)))
        || (n is Unsecure && resolve_path(env.scopes, env.root, n->Unsecure_0.path.segs()) == Ok::<Json, ErrorKind>(Json::Str(s))),
    ensures
        n is Variable ==> {
            &&& eval_node(n, env, fuel) == Ok::<Seq<char>, ErrorKind>(escape_seq(s))
            &&& forall|i: int| 0 <= i < escape_seq(s).len() ==> {
                let c = #[trigger] escape_seq(s)[i];
                c != '<' && c != '>' && c != '"' && c != '\''
            }
            &&& forall|i: int| 0 <= i < escape_seq(s).len() && #[trigger] escape_seq(s)[i] == '&'
                ==> crate::html_escape::entity_at(escape_seq(s), i)
            &&& (forall|i: int| 0 <= i < s.len() ==> !is_markup_special(#[trigger] s[i]))
                ==> forall|i: int| 0 <= i < escape_seq(s).len() ==> !is_markup_special(#[trigger] escape_seq(s)[i])
        },
        n is Unsecure ==> eval_node(n, env, fuel) == Ok::<Seq<char>, ErrorKind>(s),
{
    lemma_escape_leaves_no_markup(s);
    if forall|i: int| 0 <= i < s.len() ==> !is_markup_special(#[trigger] s[i]) {
        lemma_escape_plain(s);
    }
}

/// Null under each modifier: `{[ p ]}` and `{[ p! ]}` fail with a type
/// error, `{[ p? ]}` prints nothing.
pub proof fn law_null_policy(n: AstNode, env: Env, fuel: nat)
    requires
        n is Variable,
        resolve_path(env.scopes, env.root, n->Variable_0.path.segs()) == Ok::<Json, ErrorKind>(Json::Null),
    ensures
        n->Variable_0.modifier == Modifier::Plain ==> eval_node(n, env, fuel) == Err::<Seq<char>, ErrorKind>(ErrorKind::Type),
        n->Variable_0.modifier == Modifier::Nullable ==> eval_node(n, env, fuel) == Ok::<Seq<char>, ErrorKind>(Seq::empty()),
        n->Variable_0.modifier == Modifier::Required ==> eval_node(n, env, fuel) == Err::<Seq<char>, ErrorKind>(ErrorKind::Type),
{
    assert(escape_seq(Seq::<char>::empty()) =~= Seq::<char>::empty());
}

/// The empty string under each modifier: `{[ p ]}` and `{[ p? ]}` print
/// nothing, `{[ p! ]}` fails with a type error.
pub proof fn law_empty_string_policy(n: AstNode, env: Env, fuel: nat)
    requires
        n is Variable,
        resolve_path(env.scopes, env.root, n->Variable_0.path.segs()) == Ok::<Json, ErrorKind>(Json::Str(Seq::empty())),
    ensures
        n->Variable_0.modifier == Modifier::Plain ==> eval_node(n, env, fuel) == Ok::<Seq<char>, ErrorKind>(Seq::empty()),
        n->Variable_0.modifier == Modifier::Nullable ==> eval_node(n, env, fuel) == Ok::<Seq<char>, ErrorKind>(Seq::empty()),
        n->Variable_0.modifier == Modifier::Required ==> eval_node(n, env, fuel) == Err::<Seq<char>, ErrorKind>(ErrorKind::Type),
{
    assert(escape_seq(Seq::<char>::empty()) =~= Seq::<char>::empty());
}

/// `#if p` renders its then-branch exactly when `p` is truthy, and an
/// `#unless p` over the same body renders it exactly when `#if p` does not.
pub proof fn law_truthiness(i: AstNode, u: AstNode, env: Env, fuel: nat, j: Json)
    requires
        i is If,
        i->If_0.else_branch is None,
        u is Unless,
        u->Unless_0.condition.segs() == i->If_0.condition.segs(),
        u->Unless_0.body@ == i->If_0.then_branch@,
        resolve_path(env.scopes, env.root, i->If_0.condition.segs()) == Ok::<Json, ErrorKind>(j),
    ensures
        truthy(j) ==> eval_node(i, env, fuel) == eval_nodes(i->If_0.then_branch@, env, fuel)
            && eval_node(u, env, fuel) == Ok::<Seq<char>, ErrorKind>(Seq::empty()),
        !truthy(j) ==> eval_node(u, env, fuel) == eval_nodes(i->If_0.then_branch@, env, fuel)
            && eval_node(i, env, fuel) == Ok::<Seq<char>, ErrorKind>(Seq::empty()),
{
}

/// The concatenation of a sequence of outputs.
pub open spec fn concat_all(outs: Seq<Seq<char>>) -> Seq<char>
    decreases outs.len(),
{
    if outs.len() == 0 {
        Seq::empty()
    } else {
        outs[0] + concat_all(outs.drop_first())
    }
}

/// `#each` over an array of `n` items renders the body `n` times, the
/// `i`-th time with the item name bound to item `i`, in ascending order;
/// the output is the outputs of the iterations, concatenated.
pub proof fn law_each(body: Seq<AstNode>, name: Seq<char>, items: Seq<Json>, env: Env, fuel: nat, outs: Seq<Seq<char>>)
    requires
        !visible(env.scopes, env.root, name),
        outs.len() == items.len(),
        forall|i: int| 0 <= i < items.len() ==> eval_nodes(body,
            Env { scopes: env.scopes.push(seq![(name, #[trigger] items[i])]), ..env }, fuel)
            == Ok::<Seq<char>, ErrorKind>(outs[i]),
    ensures
        eval_each(body, name, items, 0, env, fuel) == Ok::<Seq<char>, ErrorKind>(concat_all(outs)),
{
    lemma_each_from(body, name, items, env, fuel, outs, 0);
    assert(outs.subrange(0, outs.len() as int) =~= outs);
}

proof fn lemma_each_from(body: Seq<AstNode>, name: Seq<char>, items: Seq<Json>, env: Env, fuel: nat, outs: Seq<Seq<char>>, k: int)
    requires
        0 <= k <= items.len(),
        !visible(env.scopes, env.root, name),
        outs.len() == items.len(),
        forall|i: int| 0 <= i < items.len() ==> eval_nodes(body,
            Env { scopes: env.scopes.push(seq![(name, #[trigger] items[i])]), ..env }, fuel)
            == Ok::<Seq<char>, ErrorKind>(outs[i]),
    ensures
        eval_each(body, name, items, k, env, fuel) == Ok::<Seq<char>, ErrorKind>(concat_all(outs.subrange(k, outs.len() as int))),
    decreases items.len() - k,
{
    if k < items.len() {
        lemma_each_from(body, name, items, env, fuel, outs, k + 1);
        let sub = outs.subrange(k, outs.len() as int);
        assert(sub.drop_first() =~= outs.subrange(k + 1, outs.len() as int));
        assert(sub[0] == outs[k]);
    } else {
        assert(outs.subrange(k, outs.len() as int) =~= Seq::<Seq<char>>::empty());
    }
}

/// An `#each` over a non-empty array whose item name already resolves, in
/// a scope or in the root, fails with a shadowing error naming the item.
pub proof fn law_each_shadowing(n: AstNode, env: Env, fuel: nat, items: Seq<Json>)
    requires
        n is Each,
        resolve_path(env.scopes, env.root, n->Each_0.collection.segs()) == Ok::<Json, ErrorKind>(Json::Array(items)),
        items.len() > 0,
        visible(env.scopes, env.root, n->Each_0.item_ident@),
    ensures
        eval_node(n, env, fuel) == Err::<Seq<char>, ErrorKind>(ErrorKind::Shadowing(n->Each_0.item_ident@)),
{
}

/// Partial arguments may hide visible names: once the partial is loaded and
/// its arguments evaluated, its nodes render in a scope of the arguments,
/// whatever names they share with the enclosing scopes.
pub proof fn law_include_may_shadow(n: AstNode, env: Env, fuel: nat, pnodes: Seq<AstNode>, bs: Seq<(Seq<char>, Json)>)
    requires
        n is Include,
        env.partials is Some,
        fuel > 0,
        load_model(env.partials->Some_0, env.stack, n->Include_0.name@) == Ok::<Seq<AstNode>, ErrorKind>(pnodes),
        crate::renderer::eval_args(n->Include_0.args@, env) == Ok::<Seq<(Seq<char>, Json)>, ErrorKind>(bs),
    ensures
        eval_node(n, env, fuel) == eval_nodes(pnodes, Env {
            scopes: env.scopes.push(bs),
            stack: env.stack.push(n->Include_0.name@),
            ..env
        }, (fuel - 1) as nat),
{
}

/// A partial whose name is already on the stack of partials being rendered
/// fails with an include error, without rendering anything.
pub proof fn law_recursion_guard(n: AstNode, env: Env, fuel: nat)
    requires
        n is Include,
        env.stack.contains(n->Include_0.name@),
    ensures
        eval_node(n, env, fuel) == Err::<Seq<char>, ErrorKind>(ErrorKind::Include),
{
}

/// A partial recorded as failed (outside the include root, missing,
/// unreadable, unparsable) fails with that failure's kind when included.
pub proof fn law_failed_partial(entries: Seq<(Seq<char>, PartialModel)>, stack: Seq<Seq<char>>, name: Seq<char>, k: ErrorKind)
    requires
        crate::ast::include_name_ok(name),
        !stack.contains(name),
        lookup_partial(entries, name) == Some(Err::<Seq<AstNode>, ErrorKind>(k)),
    ensures
        load_model(entries, stack, name) == Err::<Seq<AstNode>, ErrorKind>(k),
{
}

/// Two renders of the same template with equal data and the same partials
/// give the same result: equal output, or errors of the same kind.
pub proof fn law_determinism(
    r1: Result<String, NatsuzoraError>,
    r2: Result<String, NatsuzoraError>,
    nodes: Seq<AstNode>,
    data: Json,
    partials: Option<Seq<(Seq<char>, PartialModel)>>,
)
    requires
        rendered(r1, nodes, data, partials),
        rendered(r2, nodes, data, partials),
    ensures
        r1 is Ok <==> r2 is Ok,
        r1 is Ok ==> r1->Ok_0@ == r2->Ok_0@,
        r1 is Err ==> crate::error::kind_of(r1->Err_0) == crate::error::kind_of(r2->Err_0),
{
}

/// Whether `{[` starts nowhere in `a` (it may not straddle its end either).
pub open spec fn no_open(a: Seq<char>) -> bool {
    forall|i: int| 0 <= i < a.len() - 1 ==> !(#[trigger] a[i] == '{' && a[i + 1] == '[')
}

proof fn lemma_text_run_plain(s: Seq<char>, p: int, q: int)
    requires
        0 <= p <= q <= s.len(),
        forall|i: int| p <= i < q ==> !at(s, i, open_chars()),
    ensures
        text_run(s, p) == (s.subrange(p, q) + text_run(s, q).0, text_run(s, q).1),
    decreases q - p,
{
    if p == q {
        assert(s.subrange(p, q) + text_run(s, q).0 =~= text_run(s, q).0);
    } else {
        assert(!at(s, p, open_chars()));
        assert(!at(s, p, escape_chars())) by {
            if at(s, p, escape_chars()) {
                assert(s[p] == s.subrange(p, p + 5)[0]);
                assert(s[p + 1] == s.subrange(p, p + 5)[1]);
                assert(s.subrange(p, p + 2) =~= open_chars());
            }
        }
        lemma_text_run_plain(s, p + 1, q);
        assert(seq![s[p]] + (s.subrange(p + 1, q) + text_run(s, q).0) =~= s.subrange(p, q) + text_run(s, q).0);
    }
}

/// The escape `{[{]}` between two runs of plain text lexes as text: the whole
/// source is one text token holding `{[` in place of the escape, followed by
/// the end of input. No tag is opened.
pub proof fn law_escape_is_text(a: Seq<char>, b: Seq<char>)
    requires
        no_open(a),
        no_open(b),
    ensures
        lex(a + escape_chars() + b, 0, false) == Ok::<Seq<Lexeme>, int>(seq![
            Lexeme { kind: TokenType::Text, value: a + open_chars() + b, pos: 0 },
            Lexeme { kind: TokenType::Eof, value: Seq::empty(), pos: (a.len() + 5 + b.len()) as int },
        ]),
{
    let s = a + escape_chars() + b;
    let la = a.len() as int;
    let n = s.len() as int;
    assert forall|i: int| 0 <= i < la implies !at(s, i, open_chars()) by {
        if at(s, i, open_chars()) {
            assert(s.subrange(i, i + 2)[0] == s[i] && s.subrange(i, i + 2)[1] == s[i + 1]);
            if i < la - 1 {
                assert(s[i] == a[i] && s[i + 1] == a[i + 1]);
            } else {
                assert(s[i + 1] == '{');
            }
        }
    }
    assert forall|i: int| la + 5 <= i < n implies !at(s, i, open_chars()) by {
        if at(s, i, open_chars()) {
            assert(s.subrange(i, i + 2)[0] == s[i] && s.subrange(i, i + 2)[1] == s[i + 1]);
            assert(s[i] == b[i - la - 5] && s[i + 1] == b[i + 1 - la - 5]);
        }
    }
    lemma_text_run_plain(s, 0, la);
    lemma_text_run_plain(s, la + 5, n);
    assert(s.subrange(la, la + 5) =~= escape_chars());
    assert(at(s, la, escape_chars()));
    assert(text_run(s, n) == (Seq::<char>::empty(), n));
    assert(text_run(s, la + 5) == (s.subrange(la + 5, n) + Seq::<char>::empty(), n));
    assert(s.subrange(la + 5, n) =~= b);
    assert(s.subrange(0, la) =~= a);
    assert(text_run(s, 0).0 =~= a + open_chars() + b);
    assert(text_run(s, 0).1 == n);
    assert(lex(s, n, false) == Ok::<Seq<Lexeme>, int>(seq![Lexeme { kind: TokenType::Eof, value: Seq::empty(), pos: n }]));
    assert(seq![Lexeme { kind: TokenType::Text, value: a + open_chars() + b, pos: 0 }]
        + seq![Lexeme { kind: TokenType::Eof, value: Seq::<char>::empty(), pos: n }]
        =~= seq![
            Lexeme { kind: TokenType::Text, value: a + open_chars() + b, pos: 0 },
            Lexeme { kind: TokenType::Eof, value: Seq::empty(), pos: n },
        ]);
}

proof fn lemma_proc_shift(x: Seq<TokModel>, y: Seq<TokModel>, j: int, st: Proc)
    requires
        0 <= j <= y.len(),
    ensures
        proc_from(x + y, x.len() + j, st) == proc_from(y, j, st),
    decreases y.len() - j,
{
    if j < y.len() {
        let z = x + y;
        assert(z[x.len() + j] == y[j]);
        if j + 1 < y.len() {
            assert(z[x.len() + j + 1] == y[j + 1]);
        }
        let nc = j + 1 < y.len() && y[j + 1].0 is Close;
        lemma_proc_shift(x, y, j + 1, proc_step(st, y[j], nc));
    }
}

proof fn lemma_comment_body(z: Seq<TokModel>, i: int, j: int, st: Proc)
    requires
        0 <= i <= j <= z.len(),
        st.in_comment,
        forall|k: int| i <= k < j ==> !((#[trigger] z[k]).0 is Dash) && !(z[k].0 is Close),
    ensures
        proc_from(z, i, st) == proc_from(z, j, st),
    decreases j - i,
{
    if i < j {
        let nc = i + 1 < z.len() && z[i + 1].0 is Close;
        assert(proc_step(st, z[i], nc) == st);
        lemma_comment_body(z, i + 1, j, st);
    }
}

proof fn lemma_comment_loc_irrelevant(b: Seq<TokModel>, j: int, st: Proc, loc: crate::error::Location)
    requires
        0 <= j <= b.len(),
        !st.in_comment,
    ensures
        proc_from(b, j, st) == proc_from(b, j, Proc { comment_loc: loc, ..st }),
    decreases b.len() - j,
{
    if j < b.len() {
        let nc = j + 1 < b.len() && b[j + 1].0 is Close;
        let st2 = Proc { comment_loc: loc, ..st };
        let a1 = proc_step(st, b[j], nc);
        let a2 = proc_step(st2, b[j], nc);
        if a1.in_comment {
            assert(a1 == a2);
        } else {
            assert(a2 == Proc { comment_loc: loc, ..a1 });
            lemma_comment_loc_irrelevant(b, j + 1, a1, loc);
        }
    }
}

/// A comment tag at a tag boundary, optionally with trim markers
/// (`{[-% ... -]}`), followed by tokens `b`, processes as `b` alone after the
/// trims its markers ask for: a leading `-` left-trims the text before, a
/// trailing `-` right-trims the text after. Without markers the comment is
/// simply gone.
pub proof fn law_comment_transparent(
    lead: Seq<TokModel>,
    pct: TokModel,
    mid: Seq<TokModel>,
    trail: Seq<TokModel>,
    close: TokModel,
    b: Seq<TokModel>,
    st: Proc,
)
    requires
        !st.in_comment,
        !st.in_tag,
        !st.content_seen,
        lead.len() <= 1,
        lead.len() == 1 ==> lead[0].0 is Dash,
        pct.0 is Percent,
        forall|k: int| 0 <= k < mid.len() ==> !((#[trigger] mid[k]).0 is Dash) && !(mid[k].0 is Close),
        trail.len() <= 1,
        trail.len() == 1 ==> trail[0].0 is Dash,
        close.0 is Close,
    ensures
        proc_from(lead + seq![pct] + mid + trail + seq![close] + b, 0, st) == proc_from(b, 0, Proc {
            out: if lead.len() == 1 { left_trim(st.out) } else { st.out },
            strip_next: st.strip_next || trail.len() == 1,
            ..st
        }),
{
    let c = lead + seq![pct] + mid + trail + seq![close];
    let z = c + b;
    let l = lead.len() as int;
    let m = mid.len() as int;
    let t = trail.len() as int;
    assert(c.len() == l + 1 + m + t + 1);
    assert forall|k: int| 0 <= k < c.len() implies #[trigger] z[k] == c[k] by {}
    let st_a = if l == 1 {
        Proc { out: left_trim(st.out), in_tag: true, ..st }
    } else {
        st
    };
    if l == 1 {
        assert(z[0] == lead[0]);
        assert(z[1] == pct);
        assert(proc_from(z, 0, st) == proc_from(z, 1, st_a));
    }
    assert(proc_from(z, 0, st) == proc_from(z, l, st_a));
    assert(z[l] == pct);
    let st_b = Proc { in_comment: true, comment_loc: pct.2, in_tag: true, content_seen: true, ..st_a };
    assert(proc_step(st_a, z[l], l + 1 < z.len() && z[l + 1].0 is Close) == st_b);
    assert(proc_from(z, l, st_a) == proc_from(z, l + 1, st_b));
    assert forall|k: int| l + 1 <= k < l + 1 + m implies !((#[trigger] z[k]).0 is Dash) && !(z[k].0 is Close) by {
        assert(z[k] == mid[k - l - 1]);
    }
    lemma_comment_body(z, l + 1, l + 1 + m, st_b);
    let st_c = if t == 1 { Proc { strip_next: true, ..st_b } } else { st_b };
    if t == 1 {
        assert(z[l + 1 + m] == trail[0]);
        assert(z[l + 2 + m] == close);
        assert(proc_from(z, l + 1 + m, st_b) == proc_from(z, l + 2 + m, st_c));
    }
    assert(proc_from(z, l + 1 + m, st_b) == proc_from(z, l + 1 + m + t, st_c));
    assert(z[l + 1 + m + t] == close);
    let st_d = Proc { in_comment: false, in_tag: false, content_seen: false, ..st_c };
    assert(proc_from(z, l + 1 + m + t, st_c) == proc_from(z, c.len() as int, st_d));
    lemma_proc_shift(c, b, 0, st_d);
    let target = Proc {
        out: if l == 1 { left_trim(st.out) } else { st.out },
        strip_next: st.strip_next || t == 1,
        ..st
    };
    assert(st_d == Proc { comment_loc: pct.2, ..target });
    lemma_comment_loc_irrelevant(b, 0, target, pct.2);
}

/// The escape `{[{]}` between two runs of plain text parses to a single text
/// node holding `{[` in its place: it never opens a tag.
pub proof fn law_escape_round_trip(a: Seq<char>, b: Seq<char>)
    requires
        no_open(a),
        no_open(b),
    ensures
        crate::grammar::source_r(a + escape_chars() + b) == Ok::<Seq<crate::grammar::NodeM>, ErrorKind>(seq![
            crate::grammar::NodeM::Text(a + open_chars() + b, crate::error::Location { line: 1, column: 1, byte_offset: 0 }),
        ]),
{
    let s = a + escape_chars() + b;
    let n = s.len() as int;
    let t = a + open_chars() + b;
    law_escape_is_text(a, b);
    let ls = seq![
        Lexeme { kind: TokenType::Text, value: t, pos: 0 },
        Lexeme { kind: TokenType::Eof, value: Seq::empty(), pos: n },
    ];
    let loc0 = crate::lexer::location_at(s, 0);
    assert(loc0 == crate::error::Location { line: 1, column: 1, byte_offset: 0 });
    let tk = crate::grammar::lexeme_toks(ls, s);
    let t0: TokModel = (TokenType::Text, t, loc0);
    let t1: TokModel = (TokenType::Eof, Seq::empty(), crate::lexer::location_at(s, n));
    assert(tk =~= seq![t0, t1]);
    assert(t.len() > 0) by { assert(t[a.len() as int] == '{'); }
    let st0 = crate::token_processor::initial_proc();
    let st1 = proc_step(st0, t0, false);
    assert(st1.out =~= seq![t0]);
    let st2 = proc_step(st1, t1, false);
    assert(st2.out =~= seq![t0, t1]);
    assert(tk[0] == t0 && tk[1] == t1 && tk.len() == 2);
    assert(proc_from(tk, 2, st2) == Ok::<Seq<TokModel>, crate::error::Location>(st2.out));
    assert(proc_from(tk, 1, st1) == proc_from(tk, 2, st2));
    assert(proc_from(tk, 0, st0) == proc_from(tk, 1, st1));
    assert(crate::token_processor::processed(tk) == Ok::<Seq<TokModel>, crate::error::Location>(seq![t0, t1]));
    let ts = seq![t0, t1];
    let node = crate::grammar::NodeM::Text(t, loc0);
    assert(crate::grammar::node_r(ts, 0) == Ok::<(crate::grammar::NodeM, int), ErrorKind>((node, 1)));
    assert(crate::grammar::nodes_r(ts, 1, None, false, seq![node]) == Ok::<(Seq<crate::grammar::NodeM>, int), ErrorKind>((seq![node], 1)));
    assert(Seq::<crate::grammar::NodeM>::empty().push(node) =~= seq![node]);
    assert(crate::grammar::nodes_r(ts, 0, None, false, Seq::empty()) == Ok::<(Seq<crate::grammar::NodeM>, int), ErrorKind>((seq![node], 1)));
}

proof fn lemma_nodes_m_len(s: Seq<AstNode>)
    ensures
        crate::grammar::nodes_m(s).len() == s.len(),
        forall|j: int| 0 <= j < s.len() ==> #[trigger] crate::grammar::nodes_m(s)[j] == crate::grammar::node_m(s[j]),
    decreases s.len(),
{
    if s.len() > 0 {
        lemma_nodes_m_len(s.subrange(0, s.len() - 1));
    }
}

/// A template that parsed from `a {[{]} b` (plain `a` and `b`) renders as
/// `a`, then the two characters `{[`, then `b`, whatever the root object and
/// the partials.
pub proof fn law_escape_renders_literally(
    a: Seq<char>,
    b: Seq<char>,
    nodes: Seq<AstNode>,
    data: Json,
    partials: Option<Seq<(Seq<char>, PartialModel)>>,
)
    requires
        no_open(a),
        no_open(b),
        crate::grammar::source_r(a + escape_chars() + b) == Ok::<Seq<crate::grammar::NodeM>, ErrorKind>(crate::grammar::nodes_m(nodes)),
        data is Object,
    ensures
        crate::renderer::render_spec(nodes, data, partials) == Ok::<Seq<char>, ErrorKind>(a + open_chars() + b),
{
    law_escape_round_trip(a, b);
    lemma_nodes_m_len(nodes);
    let t = a + open_chars() + b;
    assert(crate::grammar::nodes_m(nodes)[0] == crate::grammar::NodeM::Text(t, crate::error::Location { line: 1, column: 1, byte_offset: 0 }));
    assert(nodes.len() == 1);
    let n = nodes[0];
    assert(n is Text) by {
        assert(crate::grammar::node_m(n) is Text);
        match n {
            AstNode::Text(_) => {},
            _ => {},
        }
    }
    assert(n->Text_0.content@ == t);
    let env = Env {
        scopes: Seq::empty(),
        root: data->Object_0,
        partials,
        stack: Seq::empty(),
    };
    let fuel = crate::renderer::initial_fuel(partials);
    assert(nodes.subrange(0, 0) =~= Seq::<AstNode>::empty());
    assert(eval_node(n, env, fuel) == Ok::<Seq<char>, ErrorKind>(t));
    assert(Seq::<char>::empty() + t =~= t);
    assert(nodes.subrange(0, nodes.len() - 1) =~= Seq::<AstNode>::empty());
    assert(eval_nodes(Seq::<AstNode>::empty(), env, fuel) == Ok::<Seq<char>, ErrorKind>(Seq::empty()));
    assert(nodes[nodes.len() - 1] == n);
    assert(eval_nodes(nodes, env, fuel) == then_concat(Ok(Seq::empty()), Ok(t)));
    assert(eval_nodes(nodes, env, fuel) == Ok::<Seq<char>, ErrorKind>(t));
}

} // verus!
