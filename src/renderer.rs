//! The tree-walking evaluator.
use vstd::prelude::*;
use crate::ast::{AstNode, EachBlock, IncludeNode, Modifier, Template, UnsecureNode, VariableNode};
use crate::context::{Context, Scopes, resolve_path, seg_models, visible};
use crate::error::{ErrorKind, NatsuzoraError, kind_of};
use crate::html_escape::{escape, escape_seq};
use crate::template_loader::{PartialModel, TemplateLoader, load_model, names_model};
use crate::text::push_str;
use crate::value::{Json, Value, nullable_text, plain_text, required_text, truthy};

verus! {

broadcast use vstd::std_specs::vec::group_vec_axioms;

/// Everything evaluation reads besides the nodes: the scopes, the root
/// object, the partial cache (when partials are configured) and the stack of
/// partials being rendered.
pub struct Env {
    pub scopes: Scopes,
    pub root: Seq<(Seq<char>, Json)>,
    pub partials: Option<Seq<(Seq<char>, PartialModel)>>,
    pub stack: Seq<Seq<char>>,
}

/// The text a variable prints under its modifier's policy.
pub open spec fn policy_text(m: Modifier, v: Json) -> Option<Seq<char>> {
    match m {
        Modifier::Plain => plain_text(v),
        Modifier::Nullable => nullable_text(v),
        Modifier::Required => required_text(v),
    }
}

/// Sequencing of two evaluations: the first error wins, outputs concatenate.
pub open spec fn then_concat(a: Result<Seq<char>, ErrorKind>, b: Result<Seq<char>, ErrorKind>) -> Result<Seq<char>, ErrorKind> {
    match a {
        Err(k) => Err(k),
        Ok(x) => match b {
            Err(k) => Err(k),
            Ok(y) => Ok(x + y),
        },
    }
}

/// The values of include arguments, in source order, as bindings.
pub open spec fn eval_args(args: Seq<crate::ast::IncludeArg>, env: Env) -> Result<Seq<(Seq<char>, Json)>, ErrorKind>
    decreases args.len(),
{
    if args.len() == 0 {
        Ok(Seq::empty())
    } else {
        match eval_args(args.drop_last(), env) {
            Err(k) => Err(k),
            Ok(bs) => match resolve_path(env.scopes, env.root, args.last().value.segs()) {
                Err(k) => Err(k),
                Ok(v) => Ok(bs.push((args.last().name@, v))),
            },
        }
    }
}

/// The output of one node, or the kind of the first error. `fuel` bounds
/// the depth of partials: a chain longer than the partials known is a
/// recursion.
pub open spec fn eval_node(n: AstNode, env: Env, fuel: nat) -> Result<Seq<char>, ErrorKind>
    decreases fuel, n, 0nat,
{
    match n {
        AstNode::Text(t) => Ok(t.content@),
        AstNode::Variable(v) => match resolve_path(env.scopes, env.root, v.path.segs()) {
            Err(k) => Err(k),
            Ok(j) => match policy_text(v.modifier, j) {
                Some(s) => Ok(escape_seq(s)),
                None => Err(ErrorKind::Type),
            },
        },
        AstNode::Unsecure(u) => match resolve_path(env.scopes, env.root, u.path.segs()) {
            Err(k) => Err(k),
            Ok(j) => match plain_text(j) {
                Some(s) => Ok(s),
                None => Err(ErrorKind::Type),
            },
        },
        AstNode::If(b) => match resolve_path(env.scopes, env.root, b.condition.segs()) {
            Err(k) => Err(k),
            Ok(j) => if truthy(j) {
                eval_nodes(b.then_branch@, env, fuel)
            } else {
                match b.else_branch {
                    Some(e) => eval_nodes(e@, env, fuel),
                    None => Ok(Seq::empty()),
                }
            },
        },
        AstNode::Unless(b) => match resolve_path(env.scopes, env.root, b.condition.segs()) {
            Err(k) => Err(k),
            Ok(j) => if truthy(j) { Ok(Seq::empty()) } else { eval_nodes(b.body@, env, fuel) },
        },
        AstNode::Each(b) => match resolve_path(env.scopes, env.root, b.collection.segs()) {
            Err(k) => Err(k),
            Ok(Json::Array(items)) => eval_each(b.body@, b.item_ident@, items, 0, env, fuel),
            Ok(_) => Err(ErrorKind::Type),
        },
        AstNode::Include(i) => match env.partials {
            None => Err(ErrorKind::Include),
            Some(entries) => if fuel == 0 {
                Err(ErrorKind::Include)
            } else {
                match load_model(entries, env.stack, i.name@) {
                    Err(k) => Err(k),
                    Ok(pnodes) => match eval_args(i.args@, env) {
                        Err(k) => Err(k),
                        Ok(bs) => eval_nodes(pnodes, Env {
                            scopes: env.scopes.push(bs),
                            stack: env.stack.push(i.name@),
                            ..env
                        }, (fuel - 1) as nat),
                    },
                }
            },
        },
    }
}

/// The output of the iterations of an `#each` body from item `i` on: each
/// iteration binds `name` to the item in a new scope, refused when `name`
/// already resolves.
pub open spec fn eval_each(body: Seq<AstNode>, name: Seq<char>, items: Seq<Json>, i: int, env: Env, fuel: nat) -> Result<Seq<char>, ErrorKind>
    decreases fuel, body, items.len() - i,
{
    if i < 0 || i >= items.len() {
        Ok(Seq::empty())
    } else if visible(env.scopes, env.root, name) {
        Err(ErrorKind::Shadowing(name))
    } else {
        then_concat(
            eval_nodes(body, Env { scopes: env.scopes.push(seq![(name, items[i])]), ..env }, fuel),
            eval_each(body, name, items, i + 1, env, fuel),
        )
    }
}

/// The output of a node sequence: the outputs in order, or the first error.
pub open spec fn eval_nodes(ns: Seq<AstNode>, env: Env, fuel: nat) -> Result<Seq<char>, ErrorKind>
    decreases fuel, ns, 0nat,
{
    if ns.len() == 0 {
        Ok(Seq::empty())
    } else {
        then_concat(eval_nodes(ns.subrange(0, ns.len() - 1), env, fuel), eval_node(ns[ns.len() - 1], env, fuel))
    }
}

/// The fuel a render starts with: the number of partials known, the
/// longest chain of distinct partials there can be.
pub open spec fn initial_fuel(partials: Option<Seq<(Seq<char>, PartialModel)>>) -> nat {
    match partials {
        Some(e) => e.len(),
        None => 0,
    }
}

/// The output of a whole render of `nodes` with root data `data`.
pub open spec fn render_spec(nodes: Seq<AstNode>, data: Json, partials: Option<Seq<(Seq<char>, PartialModel)>>) -> Result<Seq<char>, ErrorKind> {
    match data {
        Json::Object(root) => eval_nodes(nodes, Env { scopes: Seq::empty(), root, partials, stack: Seq::empty() }, initial_fuel(partials)),
        _ => Err(ErrorKind::Type),
    }
}

/// Whether a render result matches the modelled render.
pub open spec fn rendered(r: Result<String, NatsuzoraError>, nodes: Seq<AstNode>, data: Json, partials: Option<Seq<(Seq<char>, PartialModel)>>) -> bool {
    match r {
        Ok(s) => render_spec(nodes, data, partials) == Ok::<Seq<char>, ErrorKind>(s@),
        Err(e) => render_spec(nodes, data, partials) == Err::<Seq<char>, ErrorKind>(kind_of(e)),
    }
}

/// Whether an exec result matches a modelled result.
pub open spec fn matches_model(r: Result<String, NatsuzoraError>, m: Result<Seq<char>, ErrorKind>) -> bool {
    match r {
        Ok(s) => m == Ok::<Seq<char>, ErrorKind>(s@),
        Err(e) => m == Err::<Seq<char>, ErrorKind>(kind_of(e)),
    }
}

/// The environment a context, a loader and a stack of names describe.
pub open spec fn env_of(ctx: Context, loader: Option<&TemplateLoader>, stack: Seq<String>) -> Env {
    Env {
        scopes: ctx.scopes(),
        root: ctx.root_model(),
        partials: match loader {
            Some(l) => Some(l.entries()),
            None => None,
        },
        stack: names_model(stack),
    }
}

fn type_error(message: &str) -> (r: NatsuzoraError)
    ensures
        kind_of(r) == ErrorKind::Type,
{
    NatsuzoraError::TypeError { message: message.to_owned() }
}

/// Renders templates against data, resolving partials through a loader.
pub struct Renderer<'a> {
    template_loader: Option<&'a TemplateLoader>,
}

impl<'a> Renderer<'a> {
    pub closed spec fn loader(&self) -> Option<&'a TemplateLoader> {
        self.template_loader
    }

    pub fn new(template_loader: Option<&'a TemplateLoader>) -> (r: Renderer<'a>)
        ensures
            r.loader() == template_loader,
    {
        Renderer { template_loader }
    }

    /// Renders `template` with root `data`, which must be an object.
    pub fn render(&mut self, template: &Template, data: Value) -> (r: Result<String, NatsuzoraError>)
        ensures
            rendered(r, template.spec_nodes(), data.model(), match old(self).loader() {
                Some(l) => Some(l.entries()),
                None => None,
            }),
    {
        let ghost dm = data.model();
        let mut context = Context::new(data)?;
        let mut stack: Vec<String> = Vec::new();
        let fuel: usize = match self.template_loader {
            Some(l) => l.cached_count(),
            None => 0,
        };
        proof {
            assert(names_model(stack@) =~= Seq::<Seq<char>>::empty());
            assert(context.scopes() =~= Seq::<Seq<(Seq<char>, Json)>>::empty());
        }
        render_nodes(self.template_loader, template.nodes(), &mut context, &mut stack, fuel)
    }
}


/// An error in a prefix of a node sequence is the error of the whole.
proof fn lemma_eval_nodes_prefix_err(ns: Seq<AstNode>, j: int, env: Env, fuel: nat)
    requires
        0 <= j <= ns.len(),
        eval_nodes(ns.subrange(0, j), env, fuel) is Err,
    ensures
        eval_nodes(ns, env, fuel) == eval_nodes(ns.subrange(0, j), env, fuel),
    decreases ns.len(),
{
    if j == ns.len() {
        assert(ns.subrange(0, j) =~= ns);
    } else {
        let pre = ns.subrange(0, ns.len() - 1);
        assert(pre.subrange(0, j) =~= ns.subrange(0, j));
        lemma_eval_nodes_prefix_err(pre, j, env, fuel);
    }
}

/// An error in a prefix of an argument list is the error of the whole.
proof fn lemma_eval_args_prefix_err(args: Seq<crate::ast::IncludeArg>, j: int, env: Env)
    requires
        0 <= j <= args.len(),
        eval_args(args.subrange(0, j), env) is Err,
    ensures
        eval_args(args, env) == eval_args(args.subrange(0, j), env),
    decreases args.len(),
{
    if j == args.len() {
        assert(args.subrange(0, j) =~= args);
    } else {
        let pre = args.drop_last();
        assert(pre.subrange(0, j) =~= args.subrange(0, j));
        lemma_eval_args_prefix_err(pre, j, env);
    }
}

proof fn lemma_then_concat_assoc(a: Seq<char>, b: Seq<char>, rest: Result<Seq<char>, ErrorKind>)
    ensures
        then_concat(Ok(a), then_concat(Ok(b), rest)) == then_concat(Ok(a + b), rest),
{
    match rest {
        Ok(y) => { assert(a + (b + y) =~= (a + b) + y); },
        Err(_) => {},
    }
}

/// Renders a node sequence: the outputs in order, stopping at the first error.
pub fn render_nodes(loader: Option<&TemplateLoader>, nodes: &[AstNode], ctx: &mut Context, stack: &mut Vec<String>, fuel: usize)
    -> (r: Result<String, NatsuzoraError>)
    ensures
        matches_model(r, eval_nodes(nodes@, env_of(*old(ctx), loader, old(stack)@), fuel as nat)),
        r is Ok ==> final(ctx).scopes() == old(ctx).scopes() && final(ctx).root_model() == old(ctx).root_model()
            && final(stack)@ == old(stack)@,
    decreases fuel, nodes@, 0nat,
{
    let ghost env = env_of(*ctx, loader, stack@);
    let mut output = String::new();
    let mut i: usize = 0;
    assert(nodes@.subrange(0, 0) =~= Seq::<AstNode>::empty());
    while i < nodes.len()
        invariant
            i <= nodes@.len(),
            env == env_of(*old(ctx), loader, old(stack)@),
            ctx.scopes() == old(ctx).scopes(),
            ctx.root_model() == old(ctx).root_model(),
            stack@ == old(stack)@,
            eval_nodes(nodes@.subrange(0, i as int), env, fuel as nat) == Ok::<Seq<char>, ErrorKind>(output@),
        decreases nodes@.len() - i,
    {
        proof {
            let sub = nodes@.subrange(0, i + 1);
            assert(sub.subrange(0, i as int) =~= nodes@.subrange(0, i as int));
            assert(sub[i as int] == nodes@[i as int]);
            assert(decreases_to!(nodes@ => nodes@[i as int]));
        }
        let piece = match render_node(loader, &nodes[i], ctx, stack, fuel) {
            Ok(p) => p,
            Err(e) => {
                proof { lemma_eval_nodes_prefix_err(nodes@, i + 1, env, fuel as nat); }
                return Err(e);
            },
        };
        let ghost before = output@;
        push_str(&mut output, piece.as_str());
        i += 1;
    }
    assert(nodes@.subrange(0, nodes@.len() as int) =~= nodes@);
    Ok(output)
}

/// Renders one node.
pub fn render_node(loader: Option<&TemplateLoader>, node: &AstNode, ctx: &mut Context, stack: &mut Vec<String>, fuel: usize)
    -> (r: Result<String, NatsuzoraError>)
    ensures
        matches_model(r, eval_node(*node, env_of(*old(ctx), loader, old(stack)@), fuel as nat)),
        r is Ok ==> final(ctx).scopes() == old(ctx).scopes() && final(ctx).root_model() == old(ctx).root_model()
            && final(stack)@ == old(stack)@,
    decreases fuel, *node, 0nat,
{
    match node {
        AstNode::Text(t) => Ok(t.content.clone()),
        AstNode::Variable(v) => render_variable(v, ctx),
        AstNode::Unsecure(u) => render_unsecure(u, ctx),
        AstNode::If(b) => {
            let value = ctx.resolve(b.condition.segments(), b.location)?;
            if value.is_truthy() {
                proof {
                    assert(decreases_to!(*node => node->If_0));
                    assert(decreases_to!(node->If_0 => b.then_branch));
                    assert(decreases_to!(b.then_branch => b.then_branch@));
                }
                render_nodes(loader, b.then_branch.as_slice(), ctx, stack, fuel)
            } else {
                match &b.else_branch {
                    Some(e) => {
                        proof {
                            assert(decreases_to!(*node => node->If_0));
                            assert(decreases_to!(node->If_0 => b.else_branch));
                            assert(decreases_to!(b.else_branch => b.else_branch->Some_0));
                            assert(decreases_to!(*e => e@));
                        }
                        render_nodes(loader, e.as_slice(), ctx, stack, fuel)
                    },
                    None => Ok(String::new()),
                }
            }
        },
        AstNode::Unless(b) => {
            let value = ctx.resolve(b.condition.segments(), b.location)?;
            if value.is_truthy() {
                Ok(String::new())
            } else {
                proof {
                    assert(decreases_to!(*node => node->Unless_0));
                    assert(decreases_to!(node->Unless_0 => b.body));
                    assert(decreases_to!(b.body => b.body@));
                }
                render_nodes(loader, b.body.as_slice(), ctx, stack, fuel)
            }
        },
        AstNode::Each(b) => {
            proof {
                assert(decreases_to!(*node => node->Each_0));
                assert(decreases_to!(node->Each_0 => b.body));
                assert(decreases_to!(b.body => b.body@));
            }
            render_each(loader, b, ctx, stack, fuel)
        },
        AstNode::Include(i) => {
            let ghost env = env_of(*ctx, loader, stack@);
            let (partial, bindings) = prepare_include(loader, i, ctx, stack, fuel)?;
            stack.push(i.name.clone());
            ctx.push_include_scope(bindings);
            proof {
                assert(names_model(stack@) =~= names_model(old(stack)@).push(i.name@));
            }
            let result = render_nodes(loader, partial.nodes(), ctx, stack, (fuel - 1) as usize);
            match result {
                Ok(out) => {
                    ctx.pop_scope();
                    let _ = stack.pop();
                    proof {
                        assert(ctx.scopes() =~= old(ctx).scopes());
                        assert(stack@ =~= old(stack)@);
                    }
                    Ok(out)
                },
                Err(e) => Err(e),
            }
        },
    }
}

/// `{[ path ]}` and its modifiers: the value's text under the policy, escaped.
pub fn render_variable(node: &VariableNode, ctx: &Context) -> (r: Result<String, NatsuzoraError>)
    ensures
        matches_model(r, match resolve_path(ctx.scopes(), ctx.root_model(), node.path.segs()) {
            Err(k) => Err(k),
            Ok(j) => match policy_text(node.modifier, j) {
                Some(s) => Ok(escape_seq(s)),
                None => Err(ErrorKind::Type),
            },
        }),
{
    let value = ctx.resolve(node.path.segments(), node.location)?;
    let text = match node.modifier {
        Modifier::Plain => value.stringify()?,
        Modifier::Nullable => value.stringify_nullable()?,
        Modifier::Required => value.stringify_required()?,
    };
    Ok(escape(text.as_str()))
}

/// `{[!unsecure path ]}`: the value's text under the plain policy, unescaped.
pub fn render_unsecure(node: &UnsecureNode, ctx: &Context) -> (r: Result<String, NatsuzoraError>)
    ensures
        matches_model(r, match resolve_path(ctx.scopes(), ctx.root_model(), node.path.segs()) {
            Err(k) => Err(k),
            Ok(j) => match plain_text(j) {
                Some(s) => Ok(s),
                None => Err(ErrorKind::Type),
            },
        }),
{
    let value = ctx.resolve(node.path.segments(), node.location)?;
    value.stringify()
}

/// `#each`: the body once per item, in index order, each time in a new
/// scope that binds the item name.
pub fn render_each(loader: Option<&TemplateLoader>, node: &EachBlock, ctx: &mut Context, stack: &mut Vec<String>, fuel: usize)
    -> (r: Result<String, NatsuzoraError>)
    ensures
        matches_model(r, match resolve_path(old(ctx).scopes(), old(ctx).root_model(), node.collection.segs()) {
            Err(k) => Err(k),
            Ok(Json::Array(items)) => eval_each(node.body@, node.item_ident@, items, 0,
                env_of(*old(ctx), loader, old(stack)@), fuel as nat),
            Ok(_) => Err(ErrorKind::Type),
        }),
        r is Ok ==> final(ctx).scopes() == old(ctx).scopes() && final(ctx).root_model() == old(ctx).root_model()
            && final(stack)@ == old(stack)@,
    decreases fuel, node.body@, 1nat,
{
    let ghost env = env_of(*ctx, loader, stack@);
    let ghost path = node.collection.segs();
    let len = ctx.get_array_len(node.collection.segments(), node.location)?;
    let ghost items = resolve_path(ctx.scopes(), ctx.root_model(), path)->Ok_0->Array_0;
    let mut output = String::new();
    let mut index: usize = 0;
    while index < len
        invariant
            index <= len,
            len == items.len(),
            env == env_of(*old(ctx), loader, old(stack)@),
            resolve_path(old(ctx).scopes(), old(ctx).root_model(), path) == Ok::<Json, ErrorKind>(Json::Array(items)),
            path == node.collection.segs(),
            ctx.scopes() == old(ctx).scopes(),
            ctx.root_model() == old(ctx).root_model(),
            stack@ == old(stack)@,
            eval_each(node.body@, node.item_ident@, items, 0, env, fuel as nat)
                == then_concat(Ok(output@), eval_each(node.body@, node.item_ident@, items, index as int, env, fuel as nat)),
        decreases len - index,
    {
        let item = ctx.get_array_item(node.collection.segments(), index, node.location)?;
        let mut bindings: Vec<(String, Value)> = Vec::new();
        bindings.push((node.item_ident.clone(), item));
        proof {
            assert(bindings@.len() == 1);
            assert(bindings@[0].0@ == node.item_ident@);
            crate::value::lemma_entry_models(bindings@);
            assert(crate::value::entry_models(bindings@) =~= seq![(node.item_ident@, items[index as int])]);
        }
        ctx.push_scope(bindings)?;
        let ghost inner = env_of(*ctx, loader, stack@);
        assert(inner == Env { scopes: env.scopes.push(seq![(node.item_ident@, items[index as int])]), ..env });
        let piece = render_nodes(loader, node.body.as_slice(), ctx, stack, fuel);
        let piece = match piece {
            Ok(p) => p,
            Err(e) => { return Err(e); },
        };
        ctx.pop_scope();
        proof {
            assert(ctx.scopes() =~= old(ctx).scopes());
        }
        let ghost before = output@;
        push_str(&mut output, piece.as_str());
        proof {
            lemma_then_concat_assoc(before, piece@,
                eval_each(node.body@, node.item_ident@, items, index + 1, env, fuel as nat));
        }
        index += 1;
    }
    assert(output@ + Seq::<char>::empty() =~= output@);
    Ok(output)
}

/// The first steps of a partial: load it and evaluate its arguments in
/// the enclosing scope, in source order.
fn prepare_include<'t>(loader: Option<&'t TemplateLoader>, node: &IncludeNode, ctx: &Context, stack: &Vec<String>, fuel: usize)
    -> (r: Result<(&'t Template, Vec<(String, Value)>), NatsuzoraError>)
    ensures
        ({
            let env = env_of(*ctx, loader, stack@);
            match env.partials {
                None => r is Err && kind_of(r->Err_0) == ErrorKind::Include,
                Some(entries) => if fuel == 0 {
                    r is Err && kind_of(r->Err_0) == ErrorKind::Include
                } else {
                    match load_model(entries, env.stack, node.name@) {
                        Err(k) => r is Err && kind_of(r->Err_0) == k,
                        Ok(pnodes) => match eval_args(node.args@, env) {
                            Err(k) => r is Err && kind_of(r->Err_0) == k,
                            Ok(bs) => r is Ok && r->Ok_0.0.spec_nodes() == pnodes
                                && crate::value::entry_models(r->Ok_0.1@) == bs,
                        },
                    }
                },
            }
        }),
{
    let ghost env = env_of(*ctx, loader, stack@);
    let l = match loader {
        None => {
            return Err(NatsuzoraError::IncludeError { message: "Template loader not configured for include".to_owned() });
        },
        Some(l) => l,
    };
    if fuel == 0 {
        return Err(NatsuzoraError::IncludeError { message: "Circular include detected".to_owned() });
    }
    let partial = l.load_for(node.name.as_str(), stack)?;
    let mut bindings: Vec<(String, Value)> = Vec::new();
    let mut i: usize = 0;
    assert(node.args@.subrange(0, 0) =~= Seq::<crate::ast::IncludeArg>::empty());
    proof { crate::value::lemma_entry_models(bindings@); }
    while i < node.args.len()
        invariant
            i <= node.args@.len(),
            env == env_of(*ctx, loader, stack@),
            loader == Some(l),
            fuel != 0,
            load_model(l.entries(), names_model(stack@), node.name@) == Ok::<Seq<AstNode>, ErrorKind>(partial.spec_nodes()),
            eval_args(node.args@.subrange(0, i as int), env) == Ok::<Seq<(Seq<char>, Json)>, ErrorKind>(crate::value::entry_models(bindings@)),
        decreases node.args@.len() - i,
    {
        let arg = &node.args[i];
        proof {
            let sub = node.args@.subrange(0, i + 1);
            assert(sub.drop_last() =~= node.args@.subrange(0, i as int));
            assert(sub.last() == node.args@[i as int]);
            assert(seg_models(arg.value.seg_strings()) =~= arg.value.segs());
        }
        let value = match ctx.resolve(arg.value.segments(), arg.location) {
            Ok(v) => v,
            Err(e) => {
                proof { lemma_eval_args_prefix_err(node.args@, i + 1, env); }
                return Err(e);
            },
        };
        let copy = value.duplicate();
        let ghost before = bindings@;
        let key = arg.name.clone();
        bindings.push((key, copy));
        proof {
            assert(bindings@.subrange(0, before.len() as int) =~= before);
            assert(bindings@[before.len() as int] == (key, copy));
            crate::value::lemma_entry_models(bindings@);
            crate::value::lemma_entry_models(before);
            let sub = node.args@.subrange(0, i + 1);
            assert(crate::value::entry_models(bindings@) =~= crate::value::entry_models(before).push((key@, copy.model())));
        }
        i += 1;
    }
    assert(node.args@.subrange(0, node.args@.len() as int) =~= node.args@);
    Ok((partial, bindings))
}

} // verus!
