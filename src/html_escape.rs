//! HTML escaping of the five characters that are special in markup.
use vstd::prelude::*;
use crate::text::{chars_of, string_of};

verus! {

/// What one character becomes in escaped output.
pub open spec fn escape_char(c: char) -> Seq<char> {
    if c == '&' {
        seq!['&', 'a', 'm', 'p', ';']
    } else if c == '<' {
        seq!['&', 'l', 't', ';']
    } else if c == '>' {
        seq!['&', 'g', 't', ';']
    } else if c == '"' {
        seq!['&', 'q', 'u', 'o', 't', ';']
    } else if c == '\'' {
        seq!['&', '#', '3', '9', ';']
    } else {
        seq![c]
    }
}

/// The escaped form of a character sequence: each character replaced by
/// its `escape_char`, in order.
pub open spec fn escape_seq(s: Seq<char>) -> Seq<char>
    decreases s.len(),
{
    if s.len() == 0 {
        Seq::empty()
    } else {
        escape_seq(s.drop_last()) + escape_char(s.last())
    }
}

/// One of the five characters that escaping replaces.
pub open spec fn is_markup_special(c: char) -> bool {
    c == '&' || c == '<' || c == '>' || c == '"' || c == '\''
}

/// Appends the escaped form of `c` to `out`.
fn push_escaped(out: &mut Vec<char>, c: char)
    ensures
        final(out)@ == old(out)@ + escape_char(c),
{
    if c == '&' {
        out.push('&'); out.push('a'); out.push('m'); out.push('p'); out.push(';');
    } else if c == '<' {
        out.push('&'); out.push('l'); out.push('t'); out.push(';');
    } else if c == '>' {
        out.push('&'); out.push('g'); out.push('t'); out.push(';');
    } else if c == '"' {
        out.push('&'); out.push('q'); out.push('u'); out.push('o'); out.push('t'); out.push(';');
    } else if c == '\'' {
        out.push('&'); out.push('#'); out.push('3'); out.push('9'); out.push(';');
    } else {
        out.push(c);
    }
    assert(final(out)@ =~= old(out)@ + escape_char(c));
}

/// Escapes a character sequence held in a vector.
pub fn escape_chars(input: &[char]) -> (r: Vec<char>)
    ensures
        r@ == escape_seq(input@),
{
    let mut out: Vec<char> = Vec::new();
    let mut i: usize = 0;
    while i < input.len()
        invariant
            i <= input@.len(),
            out@ == escape_seq(input@.subrange(0, i as int)),
        decreases input@.len() - i,
    {
        let c = input[i];
        push_escaped(&mut out, c);
        proof {
            let pre = input@.subrange(0, i as int + 1);
            assert(pre.drop_last() =~= input@.subrange(0, i as int));
        }
        i += 1;
    }
    assert(input@.subrange(0, input@.len() as int) =~= input@);
    out
}

/// Escapes `&`, `<`, `>`, `"` and `'` as `&amp;`, `&lt;`, `&gt;`, `&quot;`
/// and `&#39;`; every other character passes through unchanged.
pub fn escape(input: &str) -> (r: String)
    ensures
        r@ == escape_seq(input@),
{
    let cs = chars_of(input);
    let out = escape_chars(cs.as_slice());
    string_of(out.as_slice())
}

/// Whether `e` occurs in `t` at index `i`.
pub open spec fn occurs_at(t: Seq<char>, i: int, e: Seq<char>) -> bool {
    0 <= i && i + e.len() <= t.len() && t.subrange(i, i + e.len()) == e
}

/// Whether one of the five entities starts at index `i` of `t`.
pub open spec fn entity_at(t: Seq<char>, i: int) -> bool {
    occurs_at(t, i, escape_char('&')) || occurs_at(t, i, escape_char('<')) || occurs_at(t, i, escape_char('>'))
        || occurs_at(t, i, escape_char('"')) || occurs_at(t, i, escape_char('\''))
}

proof fn lemma_occurs_in_prefix(p: Seq<char>, q: Seq<char>, i: int, e: Seq<char>)
    requires
        occurs_at(p, i, e),
    ensures
        occurs_at(p + q, i, e),
{
    assert((p + q).subrange(i, i + e.len()) =~= p.subrange(i, i + e.len()));
}

/// Every `&` of escaped output opens one of the five entities.
proof fn lemma_escape_entities(s: Seq<char>)
    ensures
        forall|i: int| 0 <= i < escape_seq(s).len() && #[trigger] escape_seq(s)[i] == '&' ==> entity_at(escape_seq(s), i),
    decreases s.len(),
{
    if s.len() > 0 {
        let p = escape_seq(s.drop_last());
        let c = s.last();
        let q = escape_char(c);
        lemma_escape_entities(s.drop_last());
        assert(escape_seq(s) == p + q);
        assert forall|i: int| 0 <= i < escape_seq(s).len() && #[trigger] escape_seq(s)[i] == '&' implies entity_at(escape_seq(s), i) by {
            if i < p.len() {
                assert(escape_seq(s)[i] == p[i]);
                assert(entity_at(p, i));
                if occurs_at(p, i, escape_char('&')) { lemma_occurs_in_prefix(p, q, i, escape_char('&')); }
                if occurs_at(p, i, escape_char('<')) { lemma_occurs_in_prefix(p, q, i, escape_char('<')); }
                if occurs_at(p, i, escape_char('>')) { lemma_occurs_in_prefix(p, q, i, escape_char('>')); }
                if occurs_at(p, i, escape_char('"')) { lemma_occurs_in_prefix(p, q, i, escape_char('"')); }
                if occurs_at(p, i, escape_char('\'')) { lemma_occurs_in_prefix(p, q, i, escape_char('\'')); }
            } else {
                assert(escape_seq(s)[i] == q[i - p.len()]);
                assert(i == p.len());
                assert((p + q).subrange(i, i + q.len()) =~= q);
                assert(occurs_at(p + q, i, escape_char(c)));
            }
        }
    }
}

/// Escaped output never holds a raw `<`, `>`, `"` or `'`, and each `&` in it
/// opens one of the five entities.
pub proof fn lemma_escape_leaves_no_markup(s: Seq<char>)
    ensures
        forall|i: int| 0 <= i < escape_seq(s).len() ==> {
            let c = #[trigger] escape_seq(s)[i];
            c != '<' && c != '>' && c != '"' && c != '\''
        },
        forall|i: int| 0 <= i < escape_seq(s).len() && #[trigger] escape_seq(s)[i] == '&' ==> entity_at(escape_seq(s), i),
    decreases s.len(),
{
    lemma_escape_entities(s);
    if s.len() > 0 {
        lemma_escape_leaves_no_markup(s.drop_last());
        let e = escape_seq(s);
        let p = escape_seq(s.drop_last());
        assert forall|i: int| 0 <= i < e.len() implies {
            let c = #[trigger] e[i];
            c != '<' && c != '>' && c != '"' && c != '\''
        } by {
            if i < p.len() {
                assert(e[i] == p[i]);
            } else {
                assert(e[i] == escape_char(s.last())[i - p.len()]);
            }
        }
    }
}

/// A string with none of the five special characters escapes to itself, so
/// its escaped form holds none of them either.
pub proof fn lemma_escape_plain(s: Seq<char>)
    requires
        forall|i: int| 0 <= i < s.len() ==> !is_markup_special(#[trigger] s[i]),
    ensures
        escape_seq(s) == s,
        forall|i: int| 0 <= i < escape_seq(s).len() ==> !is_markup_special(#[trigger] escape_seq(s)[i]),
    decreases s.len(),
{
    if s.len() > 0 {
        lemma_escape_plain(s.drop_last());
        assert(s.drop_last().push(s.last()) =~= s);
        assert(escape_seq(s) =~= s);
    } else {
        assert(escape_seq(s) =~= s);
    }
}

} // verus!
