//! Partials: name validation, the mapping from names to files, the cache of
//! parsed partials and the recursion guard.
//!
//! Reading files is left to the caller: it asks `next_missing` which partial
//! a template still needs, maps the name with `partial_path`, checks the
//! sandbox with `within_root`, and hands back the file's text with
//! `store_source` or the failure with `store_failure`.
use vstd::prelude::*;
use crate::ast::{AstNode, Template, include_name_ok};
use crate::error::{ErrorKind, NatsuzoraError, kind_of};
use crate::text::{chars_of, push_char, push_str, str_eq};
use crate::validator::validate_include_name_runtime;

verus! {

broadcast use vstd::std_specs::vec::group_vec_axioms;

/// What a partial resolved to: its nodes, or the kind of its failure.
pub type PartialModel = Result<Seq<AstNode>, ErrorKind>;

pub open spec fn partial_model(p: Result<Template, NatsuzoraError>) -> PartialModel {
    match p {
        Ok(t) => Ok(t.spec_nodes()),
        Err(e) => Err(kind_of(e)),
    }
}

/// The first cached entry for `name`.
pub open spec fn lookup_partial(entries: Seq<(Seq<char>, PartialModel)>, name: Seq<char>) -> Option<PartialModel>
    decreases entries.len(),
{
    if entries.len() == 0 {
        None
    } else if entries[0].0 == name {
        Some(entries[0].1)
    } else {
        lookup_partial(entries.drop_first(), name)
    }
}

/// The first cached entry for `name`, as stored.
pub open spec fn lookup_stored(cache: Seq<(String, Result<Template, NatsuzoraError>)>, name: Seq<char>)
    -> Option<Result<Template, NatsuzoraError>>
    decreases cache.len(),
{
    if cache.len() == 0 {
        None
    } else if cache[0].0@ == name {
        Some(cache[0].1)
    } else {
        lookup_stored(cache.drop_first(), name)
    }
}

proof fn lemma_lookup_stored_push(c: Seq<(String, Result<Template, NatsuzoraError>)>, x: (String, Result<Template, NatsuzoraError>), name: Seq<char>)
    requires
        lookup_stored(c, name) is None,
        x.0@ == name,
    ensures
        lookup_stored(c.push(x), name) == Some(x.1),
    decreases c.len(),
{
    if c.len() > 0 {
        assert(c.push(x).drop_first() =~= c.drop_first().push(x));
        lemma_lookup_stored_push(c.drop_first(), x, name);
    } else {
        assert(c.push(x)[0] == x);
    }
}

/// Whether a stored entry is an include error with message `msg`.
pub open spec fn include_failure(r: Option<Result<Template, NatsuzoraError>>, msg: Seq<char>) -> bool {
    match r {
        Some(Err(NatsuzoraError::IncludeError { message })) => message@ == msg,
        _ => false,
    }
}

/// The characters of each name of a stack.
pub open spec fn names_model(s: Seq<String>) -> Seq<Seq<char>> {
    s.map_values(|n: String| n@)
}

/// What loading `name` gives against a cache and a stack of partials being
/// rendered: an invalid name, a name already on the stack and a name never
/// stored are include errors.
pub open spec fn load_model(entries: Seq<(Seq<char>, PartialModel)>, stack: Seq<Seq<char>>, name: Seq<char>) -> PartialModel {
    if !include_name_ok(name) {
        Err(ErrorKind::Include)
    } else if stack.contains(name) {
        Err(ErrorKind::Include)
    } else {
        match lookup_partial(entries, name) {
            None => Err(ErrorKind::Include),
            Some(p) => p,
        }
    }
}

/// Whether every valid partial name that node `n` refers to is stored.
pub open spec fn node_refs_stored(entries: Seq<(Seq<char>, PartialModel)>, n: AstNode) -> bool
    decreases n,
{
    match n {
        AstNode::Include(i) => include_name_ok(i.name@) ==> lookup_partial(entries, i.name@) is Some,
        AstNode::If(b) => refs_stored(entries, b.then_branch@) && match b.else_branch {
            Some(e) => refs_stored(entries, e@),
            None => true,
        },
        AstNode::Unless(b) => refs_stored(entries, b.body@),
        AstNode::Each(b) => refs_stored(entries, b.body@),
        _ => true,
    }
}

/// Whether every valid partial name that a node sequence refers to is stored.
pub open spec fn refs_stored(entries: Seq<(Seq<char>, PartialModel)>, s: Seq<AstNode>) -> bool
    decreases s,
{
    if s.len() == 0 {
        true
    } else {
        refs_stored(entries, s.subrange(0, s.len() - 1)) && node_refs_stored(entries, s[s.len() - 1])
    }
}

proof fn lemma_lookup_partial_push(c: Seq<(Seq<char>, PartialModel)>, x: (Seq<char>, PartialModel), name: Seq<char>)
    requires
        lookup_partial(c, name) is None,
        x.0 == name,
    ensures
        lookup_partial(c.push(x), name) == Some(x.1),
    decreases c.len(),
{
    if c.len() > 0 {
        assert(c.push(x).drop_first() =~= c.drop_first().push(x));
        lemma_lookup_partial_push(c.drop_first(), x, name);
    } else {
        assert(c.push(x)[0] == x);
    }
}

/// An exact copy of an error.
pub fn copy_error(e: &NatsuzoraError) -> (r: NatsuzoraError)
    ensures
        r == *e,
{
    match e {
        NatsuzoraError::ParseError { message, location } =>
            NatsuzoraError::ParseError { message: message.clone(), location: *location },
        NatsuzoraError::ReservedWordError { word, location } =>
            NatsuzoraError::ReservedWordError { word: word.clone(), location: *location },
        NatsuzoraError::UndefinedVariable { name, location } =>
            NatsuzoraError::UndefinedVariable { name: name.clone(), location: *location },
        NatsuzoraError::TypeError { message } => NatsuzoraError::TypeError { message: message.clone() },
        NatsuzoraError::IncludeError { message } => NatsuzoraError::IncludeError { message: message.clone() },
        NatsuzoraError::ShadowingError { name } => NatsuzoraError::ShadowingError { name: name.clone() },
        NatsuzoraError::IoError { message } => NatsuzoraError::IoError { message: message.clone() },
    }
}

fn include_error(message: &str) -> (r: NatsuzoraError)
    ensures
        r is IncludeError,
        r->IncludeError_message@ == message@,
{
    NatsuzoraError::IncludeError { message: message.to_owned() }
}

/// Whether a stack of names holds `name`.
fn stack_contains(stack: &Vec<String>, name: &str) -> (r: bool)
    ensures
        r == names_model(stack@).contains(name@),
{
    let mut i: usize = 0;
    while i < stack.len()
        invariant
            i <= stack@.len(),
            forall|j: int| 0 <= j < i ==> stack@[j]@ != name@,
        decreases stack@.len() - i,
    {
        if str_eq(stack[i].as_str(), name) {
            assert(names_model(stack@)[i as int] == name@);
            return true;
        }
        i += 1;
    }
    proof {
        if names_model(stack@).contains(name@) {
            let k = choose|k: int| 0 <= k < names_model(stack@).len() && names_model(stack@)[k] == name@;
            assert(stack@[k]@ == name@);
        }
    }
    false
}

/// Loads partials by name from a cache filled by the caller.
pub struct TemplateLoader {
    include_root: String,
    cache: Vec<(String, Result<Template, NatsuzoraError>)>,
    include_stack: Vec<String>,
}

impl TemplateLoader {
    /// The cache's model: each stored name with what it resolved to.
    pub closed spec fn entries(&self) -> Seq<(Seq<char>, PartialModel)> {
        self.cache@.map_values(|e: (String, Result<Template, NatsuzoraError>)| (e.0@, partial_model(e.1)))
    }

    /// The names on the loader's own include stack.
    pub closed spec fn stack(&self) -> Seq<Seq<char>> {
        names_model(self.include_stack@)
    }

    /// What is stored for `name`: a template or a failure.
    pub closed spec fn stored(&self, name: Seq<char>) -> Option<Result<Template, NatsuzoraError>> {
        lookup_stored(self.cache@, name)
    }

    /// The directory that partial paths are formed under.
    pub closed spec fn root(&self) -> Seq<char> {
        self.include_root@
    }

    /// Whether every stored template keeps the tree invariants.
    pub closed spec fn wf(&self) -> bool {
        forall|i: int| 0 <= i < self.cache@.len() && (#[trigger] self.cache@[i]).1 is Ok ==> self.cache@[i].1->Ok_0.wf()
    }

    /// A loader with an empty cache over an include root (already made
    /// absolute by the caller).
    pub fn new(include_root: String) -> (r: TemplateLoader)
        ensures
            r.wf(),
            r.entries().len() == 0,
            r.stack().len() == 0,
            r.root() == include_root@,
    {
        let r = TemplateLoader { include_root, cache: Vec::new(), include_stack: Vec::new() };
        assert(r.entries() =~= Seq::<(Seq<char>, PartialModel)>::empty());
        assert(r.stack() =~= Seq::<Seq<char>>::empty());
        r
    }

    /// The number of stored partials.
    pub fn cached_count(&self) -> (r: usize)
        ensures
            r == self.entries().len(),
    {
        self.cache.len()
    }

    /// The index of the first cache entry for `name`.
    fn find(&self, name: &str) -> (r: Option<usize>)
        ensures
            match r {
                Some(i) => i < self.cache@.len() && lookup_partial(self.entries(), name@) == Some(self.entries()[i as int].1)
                    && self.stored(name@) == Some(self.cache@[i as int].1),
                None => lookup_partial(self.entries(), name@) is None && self.stored(name@) is None,
            },
    {
        let ghost m = self.entries();
        let ghost c = self.cache@;
        assert(m.subrange(0, m.len() as int) =~= m);
        assert(c.subrange(0, c.len() as int) =~= c);
        let mut i: usize = 0;
        while i < self.cache.len()
            invariant
                i <= self.cache@.len(),
                m == self.entries(),
                m.len() == self.cache@.len(),
                lookup_partial(m, name@) == lookup_partial(m.subrange(i as int, m.len() as int), name@),
                c == self.cache@,
                lookup_stored(c, name@) == lookup_stored(c.subrange(i as int, c.len() as int), name@),
            decreases self.cache@.len() - i,
        {
            let ghost tail = m.subrange(i as int, m.len() as int);
            let ghost ctail = c.subrange(i as int, c.len() as int);
            assert(tail[0] == m[i as int]);
            assert(ctail[0] == c[i as int]);
            assert(m[i as int].0 == self.cache@[i as int].0@);
            if str_eq(self.cache[i].0.as_str(), name) {
                return Some(i);
            }
            assert(tail.drop_first() =~= m.subrange(i + 1, m.len() as int));
            assert(ctail.drop_first() =~= c.subrange(i + 1, c.len() as int));
            i += 1;
        }
        None
    }

    /// Resolves `name` against the cache, with `stack` as the partials
    /// being rendered: the stored template, or an include error for an
    /// invalid name, a recursion, or a name never stored.
    pub fn load_for<'a>(&'a self, name: &str, stack: &Vec<String>) -> (r: Result<&'a Template, NatsuzoraError>)
        ensures
            match load_model(self.entries(), names_model(stack@), name@) {
                Ok(ns) => r is Ok && r->Ok_0.spec_nodes() == ns && (self.wf() ==> r->Ok_0.wf()),
                Err(k) => r is Err && kind_of(r->Err_0) == k,
            },
            include_name_ok(name@) && names_model(stack@).contains(name@) ==> r is Err
                && r->Err_0 is IncludeError && r->Err_0->IncludeError_message@ == "Circular include detected"@,
            include_name_ok(name@) && !names_model(stack@).contains(name@) ==> match self.stored(name@) {
                None => r is Err && r->Err_0 is IncludeError && r->Err_0->IncludeError_message@ == "Include file not found"@,
                Some(Err(e)) => r is Err && r->Err_0 == e,
                Some(Ok(t)) => r is Ok && *r->Ok_0 == t,
            },
    {
        validate_include_name_runtime(name)?;
        if stack_contains(stack, name) {
            return Err(include_error("Circular include detected"));
        }
        match self.find(name) {
            None => Err(include_error("Include file not found")),
            Some(i) => {
                let entry = &self.cache[i];
                match &entry.1 {
                    Ok(t) => Ok(t),
                    Err(e) => Err(copy_error(e)),
                }
            },
        }
    }

    /// Resolves `name` against the cache and the loader's own include stack.
    pub fn load(&self, name: &str) -> (r: Result<&Template, NatsuzoraError>)
        ensures
            match load_model(self.entries(), self.stack(), name@) {
                Ok(ns) => r is Ok && r->Ok_0.spec_nodes() == ns,
                Err(k) => r is Err && kind_of(r->Err_0) == k,
            },
            include_name_ok(name@) && self.stack().contains(name@) ==> r is Err
                && r->Err_0 is IncludeError && r->Err_0->IncludeError_message@ == "Circular include detected"@,
            include_name_ok(name@) && !self.stack().contains(name@) ==> match self.stored(name@) {
                None => r is Err && r->Err_0 is IncludeError && r->Err_0->IncludeError_message@ == "Include file not found"@,
                Some(Err(e)) => r is Err && r->Err_0 == e,
                Some(Ok(t)) => r is Ok && *r->Ok_0 == t,
            },
    {
        self.load_for(name, &self.include_stack)
    }

    /// Records that `name` is being rendered.
    pub fn push_include(&mut self, name: &str)
        ensures
            final(self).stack() == old(self).stack().push(name@),
            final(self).entries() == old(self).entries(),
            final(self).wf() == old(self).wf(),
    {
        self.include_stack.push(name.to_owned());
        assert(self.stack() =~= old(self).stack().push(name@));
    }

    /// Records that the newest partial has been rendered.
    pub fn pop_include(&mut self)
        ensures
            final(self).stack() == if old(self).stack().len() == 0 {
                old(self).stack()
            } else {
                old(self).stack().drop_last()
            },
            final(self).entries() == old(self).entries(),
            final(self).wf() == old(self).wf(),
    {
        let _ = self.include_stack.pop();
        assert(self.stack() =~= if old(self).stack().len() == 0 {
            old(self).stack()
        } else {
            old(self).stack().drop_last()
        });
    }

    /// Stores what `name` resolved to, unless the name is already stored.
    fn store(&mut self, name: String, partial: Result<Template, NatsuzoraError>)
        requires
            old(self).wf(),
            partial is Ok ==> partial->Ok_0.wf(),
        ensures
            final(self).wf(),
            final(self).stack() == old(self).stack(),
            final(self).root() == old(self).root(),
            lookup_partial(old(self).entries(), name@) is Some ==> final(self).entries() == old(self).entries(),
            lookup_partial(old(self).entries(), name@) is None
                ==> final(self).entries() == old(self).entries().push((name@, partial_model(partial))),
            old(self).stored(name@) is Some ==> final(self).stored(name@) == old(self).stored(name@),
            old(self).stored(name@) is None ==> final(self).stored(name@) == Some(partial),
    {
        if self.find(name.as_str()).is_some() {
            return;
        }
        let ghost before = self.cache@;
        proof { lemma_lookup_stored_push(before, (name, partial), name@); }
        self.cache.push((name, partial));
        assert(self.entries() =~= old(self).entries().push((name@, partial_model(partial))));
        assert forall|i: int| 0 <= i < self.cache@.len() && (#[trigger] self.cache@[i]).1 is Ok
            implies self.cache@[i].1->Ok_0.wf() by {
            if i < before.len() {
                assert(self.cache@[i] == before[i]);
            }
        }
    }

    /// Parses the text of partial `name` and stores the template, or an
    /// include error when it does not parse.
    pub fn store_source(&mut self, name: String, source: &str)
        requires
            old(self).wf(),
        ensures
            final(self).wf(),
            final(self).stack() == old(self).stack(),
            final(self).root() == old(self).root(),
            lookup_partial(old(self).entries(), name@) is Some ==> final(self).entries() == old(self).entries(),
            lookup_partial(old(self).entries(), name@) is None ==> final(self).entries().len() == old(self).entries().len() + 1
                && final(self).entries().drop_last() == old(self).entries()
                && final(self).entries().last().0 == name@
                && (crate::lexer::source_fits(source@) ==> match crate::grammar::source_r(source@) {
                    Ok(ns) => final(self).entries().last().1 is Ok
                        && crate::grammar::nodes_m(final(self).entries().last().1->Ok_0) == ns,
                    Err(_) => final(self).entries().last().1 == Err::<Seq<AstNode>, ErrorKind>(ErrorKind::Include),
                }),
            old(self).stored(name@) is None && final(self).stored(name@) is Some && final(self).stored(name@)->Some_0 is Err
                ==> exists|e: crate::error::ParseError| {
                    &&& include_failure(final(self).stored(name@),
                        "Failed to parse include '"@ + name@ + "': "@ + crate::error::error_text(e))
                    &&& (crate::lexer::source_fits(source@) ==> crate::grammar::source_r(source@)
                        == Err::<Seq<crate::grammar::NodeM>, ErrorKind>(crate::error::parse_kind_of(e)))
                },
    {
        let parsed = match crate::parse(source) {
            Ok(t) => Ok(t),
            Err(e) => {
                let mut message = String::new();
                push_str(&mut message, "Failed to parse include '");
                push_str(&mut message, name.as_str());
                push_str(&mut message, "': ");
                let text = crate::parse_error_message(&e);
                push_str(&mut message, text.as_str());
                proof {
                    assert(message@ =~= "Failed to parse include '"@ + name@ + "': "@ + crate::error::error_text(e));
                    assert(include_failure(Some(Err::<Template, NatsuzoraError>(NatsuzoraError::IncludeError { message })),
                        "Failed to parse include '"@ + name@ + "': "@ + crate::error::error_text(e)));
                }
                Err(NatsuzoraError::IncludeError { message })
            },
        };
        self.store(name, parsed);
        proof {
            if lookup_partial(old(self).entries(), name@) is None {
                assert(self.entries().drop_last() =~= old(self).entries());
                assert(self.entries().last() == (name@, partial_model(parsed)));
            }
        }
    }

    /// Checks that the resolved (canonical) path of partial `name` stays under
    /// the include root; when it does not, stores a path-traversal failure
    /// for `name` and answers false.
    pub fn admit_path(&mut self, name: String, resolved: &str) -> (r: bool)
        requires
            old(self).wf(),
        ensures
            final(self).wf(),
            r == path_within(resolved@, old(self).root()),
            final(self).stack() == old(self).stack(),
            final(self).root() == old(self).root(),
            r ==> final(self).entries() == old(self).entries(),
            !r && old(self).stored(name@) is None ==> include_failure(final(self).stored(name@), "Path traversal detected"@),
            !r ==> lookup_partial(final(self).entries(), name@) is Some,
    {
        if within_root(resolved, self.include_root.as_str()) {
            return true;
        }
        let ghost known = lookup_partial(self.entries(), name@) is Some;
        self.store(name, Err(include_error("Path traversal detected")));
        proof {
            if !known {
                crate::template_loader::lemma_lookup_partial_push(old(self).entries(), (name@, Err(ErrorKind::Include)), name@);
            }
        }
        false
    }

    /// Stores, for partial `name`, that no file holds it.
    pub fn store_missing(&mut self, name: String)
        requires
            old(self).wf(),
        ensures
            final(self).wf(),
            final(self).stack() == old(self).stack(),
            final(self).root() == old(self).root(),
            old(self).stored(name@) is None ==> include_failure(final(self).stored(name@), "Include file not found"@),
            lookup_partial(final(self).entries(), name@) is Some,
    {
        let ghost known = lookup_partial(self.entries(), name@) is Some;
        self.store(name, Err(include_error("Include file not found")));
        proof {
            if !known {
                crate::template_loader::lemma_lookup_partial_push(old(self).entries(), (name@, Err(ErrorKind::Include)), name@);
            }
        }
    }

    /// Stores a failure to obtain partial `name` (missing file, unreadable
    /// file, path outside the root).
    pub fn store_failure(&mut self, name: String, error: NatsuzoraError)
        requires
            old(self).wf(),
        ensures
            final(self).wf(),
            final(self).stack() == old(self).stack(),
            lookup_partial(old(self).entries(), name@) is Some ==> final(self).entries() == old(self).entries(),
            lookup_partial(old(self).entries(), name@) is None
                ==> final(self).entries() == old(self).entries().push((name@, Err(kind_of(error)))),
    {
        self.store(name, Err(error));
    }

    /// The first partial name that `template`, or a stored partial, refers
    /// to and that is valid but not stored yet.
    pub fn next_missing(&self, template: &Template) -> (r: Option<String>)
        ensures
            r is Some ==> include_name_ok(r->Some_0@) && lookup_partial(self.entries(), r->Some_0@) is None,
            r is None ==> refs_stored(self.entries(), template.spec_nodes())
                && forall|i: int| 0 <= i < self.entries().len() && (#[trigger] self.entries()[i]).1 is Ok
                    ==> refs_stored(self.entries(), self.entries()[i].1->Ok_0),
    {
        if let Some(n) = self.missing_in(template.nodes()) {
            return Some(n);
        }
        let mut i: usize = 0;
        while i < self.cache.len()
            invariant
                i <= self.cache@.len(),
                refs_stored(self.entries(), template.spec_nodes()),
                forall|j: int| 0 <= j < i && (#[trigger] self.entries()[j]).1 is Ok
                    ==> refs_stored(self.entries(), self.entries()[j].1->Ok_0),
            decreases self.cache@.len() - i,
        {
            match &self.cache[i].1 {
                Ok(t) => {
                    if let Some(n) = self.missing_in(t.nodes()) {
                        return Some(n);
                    }
                },
                Err(_) => {},
            }
            assert(self.entries()[i as int] == (self.cache@[i as int].0@, partial_model(self.cache@[i as int].1)));
            i += 1;
        }
        None
    }

    /// The first valid, unstored partial name referred to in `nodes`.
    fn missing_in(&self, nodes: &[AstNode]) -> (r: Option<String>)
        ensures
            r is Some ==> include_name_ok(r->Some_0@) && lookup_partial(self.entries(), r->Some_0@) is None,
            r is None ==> refs_stored(self.entries(), nodes@),
        decreases nodes@,
    {
        let mut i: usize = 0;
        assert(nodes@.subrange(0, 0) =~= Seq::<AstNode>::empty());
        while i < nodes.len()
            invariant
                i <= nodes@.len(),
                refs_stored(self.entries(), nodes@.subrange(0, i as int)),
            decreases nodes@.len() - i,
        {
            let found = match &nodes[i] {
                AstNode::Include(inc) => {
                    let chars = chars_of(inc.name.as_str());
                    let valid = crate::validator::include_name_chars(chars.as_slice());
                    if valid && self.find(inc.name.as_str()).is_none() {
                        Some(inc.name.clone())
                    } else {
                        assert(node_refs_stored(self.entries(), nodes@[i as int]));
                        None
                    }
                },
                AstNode::If(b) => {
                    proof {
                        assert(decreases_to!(nodes@ => nodes@[i as int]));
                        assert(decreases_to!(nodes@[i as int] => b.then_branch));
                        assert(decreases_to!(b.then_branch => b.then_branch@));
                    }
                    match self.missing_in(b.then_branch.as_slice()) {
                        Some(n) => Some(n),
                        None => match &b.else_branch {
                            Some(e) => {
                                proof {
                                    assert(decreases_to!(nodes@[i as int] => b.else_branch));
                                    assert(decreases_to!(b.else_branch => *e));
                                    assert(decreases_to!(*e => e@));
                                }
                                let r = self.missing_in(e.as_slice());
                                proof {
                                    if r is None {
                                        assert(node_refs_stored(self.entries(), nodes@[i as int]));
                                    }
                                }
                                r
                            },
                            None => {
                                assert(node_refs_stored(self.entries(), nodes@[i as int]));
                                None
                            },
                        },
                    }
                },
                AstNode::Unless(b) => {
                    proof {
                        assert(decreases_to!(nodes@ => nodes@[i as int]));
                        assert(decreases_to!(nodes@[i as int] => b.body));
                        assert(decreases_to!(b.body => b.body@));
                    }
                    let r = self.missing_in(b.body.as_slice());
                    proof {
                        if r is None {
                            assert(node_refs_stored(self.entries(), nodes@[i as int]));
                        }
                    }
                    r
                },
                AstNode::Each(b) => {
                    proof {
                        assert(decreases_to!(nodes@ => nodes@[i as int]));
                        assert(decreases_to!(nodes@[i as int] => b.body));
                        assert(decreases_to!(b.body => b.body@));
                    }
                    let r = self.missing_in(b.body.as_slice());
                    proof {
                        if r is None {
                            assert(node_refs_stored(self.entries(), nodes@[i as int]));
                        }
                    }
                    r
                },
                _ => {
                    assert(node_refs_stored(self.entries(), nodes@[i as int]));
                    None
                },
            };
            if found.is_some() {
                return found;
            }
            proof {
                let sub = nodes@.subrange(0, i + 1);
                assert(sub.subrange(0, i as int) =~= nodes@.subrange(0, i as int));
                assert(sub[i as int] == nodes@[i as int]);
            }
            i += 1;
        }
        assert(nodes@.subrange(0, nodes@.len() as int) =~= nodes@);
        None
    }

    /// The file that holds partial `name`: its segments joined under the
    /// include root, the last one prefixed with `_` and given the `.ntzr`
    /// extension. `/components/card` under `/r` is `/r/components/_card.ntzr`.
    pub fn partial_path(&self, name: &str) -> (r: String)
        ensures
            r@ == partial_path_of(self.root(), name@),
    {
        let n = chars_of(name);
        let mut last_slash: usize = 0;
        let mut found = false;
        let mut i: usize = 0;
        while i < n.len()
            invariant
                i <= n@.len(),
                last_slash_before(n@, i as int) == (if found { last_slash as int } else { -1 }),
                found ==> last_slash < i,
            decreases n@.len() - i,
        {
            if n[i] == '/' {
                last_slash = i;
                found = true;
            }
            i += 1;
        }
        let ghost ls: int = if found { last_slash as int } else { -1 };
        let ghost w = with_marker(n@, ls);
        assert(ls == last_slash_of(n@));
        let mut out = self.include_root.clone();
        let mut j: usize = 0;
        assert(w.subrange(0, 0) =~= Seq::<char>::empty());
        assert(out@ =~= self.include_root@ + w.subrange(0, 0));
        while j < n.len()
            invariant
                j <= n@.len(),
                -1 <= ls < n@.len(),
                ls == (if found { last_slash as int } else { -1 }),
                w == with_marker(n@, ls),
                out@ == self.include_root@ + w.subrange(0, marked_len(n@, j as int, ls)),
            decreases n@.len() - j,
        {
            proof { lemma_with_marker_prefix(n@, ls, j as int); }
            let ghost k = marked_len(n@, j as int, ls);
            push_char(&mut out, n[j]);
            if found && j == last_slash {
                push_char(&mut out, '_');
                assert(w.subrange(0, k + 2) =~= w.subrange(0, k).push(w[k]).push(w[k + 1]));
            } else {
                assert(w.subrange(0, k + 1) =~= w.subrange(0, k).push(w[k]));
            }
            j += 1;
        }
        proof {
            lemma_with_marker_len(n@, ls);
            assert(w.subrange(0, marked_len(n@, n@.len() as int, ls)) =~= w);
        }
        push_str(&mut out, ".ntzr");
        proof { reveal_strlit(".ntzr"); }
        out
    }
}

/// The index of the last `/` among the first `i` characters; -1 if none.
pub open spec fn last_slash_before(n: Seq<char>, i: int) -> int
    decreases i,
{
    if i <= 0 || i > n.len() {
        -1
    } else if n[i - 1] == '/' {
        i - 1
    } else {
        last_slash_before(n, i - 1)
    }
}

pub open spec fn last_slash_of(n: Seq<char>) -> int {
    last_slash_before(n, n.len() as int)
}

/// `n` with `_` inserted after index `ls` (nothing inserted when `ls` is -1).
pub open spec fn with_marker(n: Seq<char>, ls: int) -> Seq<char> {
    if 0 <= ls < n.len() {
        n.subrange(0, ls + 1) + seq!['_'] + n.subrange(ls + 1, n.len() as int)
    } else {
        n
    }
}

/// How many characters of `with_marker(n, ls)` the first `j` of `n` make.
pub open spec fn marked_len(n: Seq<char>, j: int, ls: int) -> int {
    if 0 <= ls < j { j + 1 } else { j }
}

/// The file path of partial `name` under `root`.
pub open spec fn partial_path_of(root: Seq<char>, name: Seq<char>) -> Seq<char> {
    root + with_marker(name, last_slash_of(name)) + seq!['.', 'n', 't', 'z', 'r']
}

proof fn lemma_with_marker_prefix(n: Seq<char>, ls: int, j: int)
    requires
        0 <= j < n.len(),
        -1 <= ls < n.len(),
    ensures
        ({
            let w = with_marker(n, ls);
            let k = marked_len(n, j, ls);
            let k2 = marked_len(n, j + 1, ls);
            &&& 0 <= k <= k2 <= w.len()
            &&& w[k] == n[j]
            &&& j == ls ==> k2 == k + 2 && w[k + 1] == '_'
            &&& j != ls ==> k2 == k + 1
        }),
{
}

proof fn lemma_with_marker_len(n: Seq<char>, ls: int)
    requires
        -1 <= ls < n.len(),
    ensures
        marked_len(n, n.len() as int, ls) == with_marker(n, ls).len(),
{
}

/// Whether path `c` is `r` or lies under directory `r`, comparing whole
/// components.
pub open spec fn path_within(c: Seq<char>, r: Seq<char>) -> bool {
    c == r || (r.len() < c.len() && c.subrange(0, r.len() as int) == r
        && ((r.len() > 0 && r.last() == '/') || c[r.len() as int] == '/'))
}

/// Whether a resolved (canonical) partial path stays inside the canonical
/// include root. A path outside it is a path traversal.
pub fn within_root(candidate: &str, root: &str) -> (r: bool)
    ensures
        r == path_within(candidate@, root@),
{
    let c = chars_of(candidate);
    let rt = chars_of(root);
    if crate::text::chars_eq(c.as_slice(), rt.as_slice()) {
        return true;
    }
    if rt.len() >= c.len() {
        return false;
    }
    let mut i: usize = 0;
    while i < rt.len()
        invariant
            i <= rt@.len(),
            rt@.len() < c@.len(),
            c@ == candidate@,
            rt@ == root@,
            forall|j: int| 0 <= j < i ==> c@[j] == rt@[j],
        decreases rt@.len() - i,
    {
        if c[i] != rt[i] {
            assert(c@.subrange(0, rt@.len() as int)[i as int] != rt@[i as int]);
            return false;
        }
        i += 1;
    }
    assert(c@.subrange(0, rt@.len() as int) =~= rt@);
    (rt.len() > 0 && rt[rt.len() - 1] == '/') || c[rt.len()] == '/'
}

} // verus!
