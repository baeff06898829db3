//! The syntax tree of a parsed template, and the invariants every parsed
//! tree holds.
use vstd::prelude::*;
use crate::error::Location;
use crate::text::push_str;

verus! {

broadcast use vstd::std_specs::vec::group_vec_axioms;

/// A parsed template: its nodes in source order.
#[derive(Debug)]
pub struct Template {
    pub(crate) nodes: Vec<AstNode>,
    pub(crate) location: Location,
}

/// One node of the tree.
#[derive(Debug)]
pub enum AstNode {
    Text(TextNode),
    Variable(VariableNode),
    Unsecure(UnsecureNode),
    If(IfBlock),
    Unless(UnlessBlock),
    Each(EachBlock),
    Include(IncludeNode),
}

/// Literal text, with escapes already resolved.
#[derive(Debug)]
pub struct TextNode {
    pub content: String,
    pub location: Location,
}

/// `{[ path ]}`, `{[ path? ]}` or `{[ path! ]}`: escaped output.
#[derive(Debug)]
pub struct VariableNode {
    pub path: Path,
    pub modifier: Modifier,
    pub location: Location,
}

/// `{[!unsecure path ]}`: output without escaping.
#[derive(Debug)]
pub struct UnsecureNode {
    pub path: Path,
    pub location: Location,
}

/// `{[#if c]} ... {[#else]} ... {[/if]}`.
#[derive(Debug)]
pub struct IfBlock {
    pub condition: Path,
    pub then_branch: Vec<AstNode>,
    pub else_branch: Option<Vec<AstNode>>,
    pub location: Location,
}

/// `{[#unless c]} ... {[/unless]}`.
#[derive(Debug)]
pub struct UnlessBlock {
    pub condition: Path,
    pub body: Vec<AstNode>,
    pub location: Location,
}

/// `{[#each collection as item]} ... {[/each]}`.
#[derive(Debug)]
pub struct EachBlock {
    pub collection: Path,
    pub item_ident: String,
    pub body: Vec<AstNode>,
    pub location: Location,
}

/// `{[!include /name key=path ...]}`.
#[derive(Debug)]
pub struct IncludeNode {
    pub name: String,
    pub args: Vec<IncludeArg>,
    pub location: Location,
}

/// One `key=path` argument of a partial.
#[derive(Debug)]
pub struct IncludeArg {
    pub name: String,
    pub value: Path,
    pub location: Location,
}

/// The null and empty-string policy of a variable reference.
#[derive(Debug, Clone, Copy, PartialEq, Eq, Structural)]
pub enum Modifier {
    /// No suffix: null fails.
    Plain,
    /// `?`: null renders as the empty string.
    Nullable,
    /// `!`: null and the empty string fail.
    Required,
}

/// A dot-separated path such as `user.profile.name`.
#[derive(Debug)]
pub struct Path {
    pub(crate) segments: Vec<String>,
    pub(crate) location: Location,
}

/// Words that can never be identifiers.
pub open spec fn reserved(w: Seq<char>) -> bool {
    w == seq!['i', 'f'] || w == seq!['u', 'n', 'l', 'e', 's', 's'] || w == seq!['e', 'l', 's', 'e']
        || w == seq!['e', 'a', 'c', 'h'] || w == seq!['a', 's']
        || w == seq!['u', 'n', 's', 'e', 'c', 'u', 'r', 'e'] || w == seq!['t', 'r', 'u', 'e']
        || w == seq!['f', 'a', 'l', 's', 'e'] || w == seq!['n', 'u', 'l', 'l']
        || w == seq!['i', 'n', 'c', 'l', 'u', 'd', 'e'] || w == seq!['i', 'n'] || w == seq!['o', 'f']
}

/// `[A-Za-z][A-Za-z0-9_]*`.
pub open spec fn ident_shape(w: Seq<char>) -> bool {
    &&& w.len() > 0
    &&& crate::lexer::is_alpha(w[0])
    &&& forall|i: int| 0 <= i < w.len() ==> crate::lexer::is_ident_continue(#[trigger] w[i])
}

/// A valid identifier: the right shape and not reserved.
pub open spec fn valid_ident(w: Seq<char>) -> bool {
    ident_shape(w) && !reserved(w)
}

/// A valid partial name: one or more `/segment`, each segment of identifier
/// shape. Such a name holds no `..`, `//`, `\`, `:` and no segment starting with `_`.
pub open spec fn include_name_ok(n: Seq<char>) -> bool {
    &&& n.len() > 0
    &&& n[0] == '/'
    &&& forall|i: int| 0 <= i < n.len() && #[trigger] n[i] == '/' ==> i + 1 < n.len() && crate::lexer::is_alpha(n[i + 1])
    &&& forall|i: int| 0 <= i < n.len() && #[trigger] n[i] != '/' ==> crate::lexer::is_ident_continue(n[i])
}

impl Path {
    pub open(crate) spec fn seg_strings(&self) -> Seq<String> {
        self.segments@
    }

    pub open(crate) spec fn segs(&self) -> Seq<Seq<char>> {
        self.segments@.map_values(|s: String| s@)
    }

    pub open(crate) spec fn spec_location(&self) -> Location {
        self.location
    }

    /// A path is well formed when it has segments and each is a valid identifier.
    pub open(crate) spec fn wf(&self) -> bool {
        self.segments@.len() > 0 && forall|i: int| 0 <= i < self.segments@.len() ==> valid_ident(#[trigger] self.segments@[i]@)
    }

    pub fn new(segments: Vec<String>, location: Location) -> (r: Path)
        ensures
            r.seg_strings() == segments@,
            r.spec_location() == location,
    {
        Path { segments, location }
    }

    pub fn segments(&self) -> (r: &[String])
        ensures
            r@ == self.seg_strings(),
    {
        self.segments.as_slice()
    }

    pub fn is_empty(&self) -> (r: bool)
        ensures
            r == (self.seg_strings().len() == 0),
    {
        self.segments.len() == 0
    }

    pub fn location(&self) -> (r: Location)
        ensures
            r == self.spec_location(),
    {
        self.location
    }

    /// The segments joined with `.`.
    pub fn as_str(&self) -> (r: String)
        ensures
            r@ == join_dots(self.segs()),
    {
        let mut out = String::new();
        let mut i: usize = 0;
        while i < self.segments.len()
            invariant
                i <= self.segments@.len(),
                out@ == join_dots(self.segs().subrange(0, i as int)),
            decreases self.segments@.len() - i,
        {
            if i > 0 {
                push_str(&mut out, ".");
                proof { reveal_strlit("."); }
            }
            push_str(&mut out, self.segments[i].as_str());
            proof {
                let sub = self.segs().subrange(0, i + 1);
                assert(sub.drop_last() =~= self.segs().subrange(0, i as int));
                assert(sub.last() == self.segments@[i as int]@);
            }
            i += 1;
        }
        assert(self.segs().subrange(0, self.segments@.len() as int) =~= self.segs());
        out
    }
}

/// Segments joined with `.`.
pub open spec fn join_dots(s: Seq<Seq<char>>) -> Seq<char>
    decreases s.len(),
{
    if s.len() == 0 {
        Seq::empty()
    } else if s.len() == 1 {
        s[0]
    } else {
        join_dots(s.drop_last()) + seq!['.'] + s.last()
    }
}

/// Whether no two arguments share a key.
pub open spec fn args_unique(args: Seq<IncludeArg>) -> bool {
    forall|i: int, j: int| 0 <= i < j < args.len() ==> (#[trigger] args[i]).name@ != (#[trigger] args[j]).name@
}

/// Whether every argument has a valid key and a well-formed path.
pub open spec fn args_wf(args: Seq<IncludeArg>) -> bool {
    args_unique(args) && forall|i: int| 0 <= i < args.len() ==> valid_ident((#[trigger] args[i]).name@) && args[i].value.wf()
}

/// The tree invariants of one node and, through `nodes_wf`, of its children.
pub open spec fn node_wf(n: AstNode) -> bool
    decreases n,
{
    match n {
        AstNode::Text(_) => true,
        AstNode::Variable(v) => v.path.wf(),
        AstNode::Unsecure(u) => u.path.wf(),
        AstNode::If(b) => b.condition.wf() && nodes_wf(b.then_branch@) && match b.else_branch {
            Some(e) => nodes_wf(e@),
            None => true,
        },
        AstNode::Unless(b) => b.condition.wf() && nodes_wf(b.body@),
        AstNode::Each(b) => b.collection.wf() && valid_ident(b.item_ident@) && nodes_wf(b.body@),
        AstNode::Include(i) => include_name_ok(i.name@) && args_wf(i.args@),
    }
}

/// The tree invariants of each node of a sequence.
pub open spec fn nodes_wf(s: Seq<AstNode>) -> bool
    decreases s,
{
    if s.len() == 0 {
        true
    } else {
        nodes_wf(s.subrange(0, s.len() - 1)) && node_wf(s[s.len() - 1])
    }
}

pub proof fn lemma_nodes_wf_push(s: Seq<AstNode>, n: AstNode)
    ensures
        nodes_wf(s.push(n)) == (nodes_wf(s) && node_wf(n)),
{
    assert(s.push(n).subrange(0, s.len() as int) =~= s);
}

impl Template {
    pub open(crate) spec fn spec_nodes(&self) -> Seq<AstNode> {
        self.nodes@
    }

    pub open(crate) spec fn spec_location(&self) -> Location {
        self.location
    }

    /// Whether every node of the tree keeps the invariants.
    pub open(crate) spec fn wf(&self) -> bool {
        nodes_wf(self.nodes@)
    }

    pub fn new(nodes: Vec<AstNode>, location: Location) -> (r: Template)
        ensures
            r.spec_nodes() == nodes@,
            r.spec_location() == location,
    {
        Template { nodes, location }
    }

    pub fn nodes(&self) -> (r: &[AstNode])
        ensures
            r@ == self.spec_nodes(),
    {
        self.nodes.as_slice()
    }

    pub fn location(&self) -> (r: Location)
        ensures
            r == self.spec_location(),
    {
        self.location
    }
}

impl AstNode {
    pub fn location(&self) -> (r: Location)
        ensures
            r == match *self {
                AstNode::Text(n) => n.location,
                AstNode::Variable(n) => n.location,
                AstNode::Unsecure(n) => n.location,
                AstNode::If(n) => n.location,
                AstNode::Unless(n) => n.location,
                AstNode::Each(n) => n.location,
                AstNode::Include(n) => n.location,
            },
    {
        match self {
            AstNode::Text(n) => n.location,
            AstNode::Variable(n) => n.location,
            AstNode::Unsecure(n) => n.location,
            AstNode::If(n) => n.location,
            AstNode::Unless(n) => n.location,
            AstNode::Each(n) => n.location,
            AstNode::Include(n) => n.location,
        }
    }
}

} // verus!
