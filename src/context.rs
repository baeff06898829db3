//! The scope stack that resolves variable paths during rendering.
use vstd::prelude::*;
use crate::error::{ErrorKind, Location, NatsuzoraError, kind_of};
use crate::value::{Json, Value, entry_models, find_entry, lookup_entry};

verus! {

/// Modelled scopes, oldest first.
pub type Scopes = Seq<Seq<(Seq<char>, Json)>>;

/// The value a name resolves to: the newest scope that binds it, else the root.
pub open spec fn resolve_name(scopes: Scopes, root: Seq<(Seq<char>, Json)>, name: Seq<char>) -> Option<Json>
    decreases scopes.len(),
{
    if scopes.len() == 0 {
        lookup_entry(root, name)
    } else {
        match lookup_entry(scopes.last(), name) {
            Some(v) => Some(v),
            None => resolve_name(scopes.drop_last(), root, name),
        }
    }
}

/// Whether a name resolves anywhere: in some scope or in the root.
pub open spec fn visible(scopes: Scopes, root: Seq<(Seq<char>, Json)>, name: Seq<char>) -> bool {
    resolve_name(scopes, root, name) is Some
}

/// Follows property segments from a value: each step needs an object that
/// holds the segment.
pub open spec fn access(v: Json, segs: Seq<Seq<char>>) -> Result<Json, ErrorKind>
    decreases segs.len(),
{
    if segs.len() == 0 {
        Ok(v)
    } else {
        match v {
            Json::Object(es) => match lookup_entry(es, segs[0]) {
                Some(w) => access(w, segs.drop_first()),
                None => Err(ErrorKind::UndefinedVariable(segs[0])),
            },
            _ => Err(ErrorKind::Type),
        }
    }
}

/// What a path resolves to: its head by `resolve_name`, the rest by `access`.
pub open spec fn resolve_path(scopes: Scopes, root: Seq<(Seq<char>, Json)>, path: Seq<Seq<char>>) -> Result<Json, ErrorKind> {
    if path.len() == 0 {
        Err(ErrorKind::UndefinedVariable(Seq::empty()))
    } else {
        match resolve_name(scopes, root, path[0]) {
            Some(v) => access(v, path.drop_first()),
            None => Err(ErrorKind::UndefinedVariable(path[0])),
        }
    }
}

/// The characters of each path segment.
pub open spec fn seg_models(path: Seq<String>) -> Seq<Seq<char>> {
    path.map_values(|s: String| s@)
}

/// The modelled bindings of one scope.
pub open spec fn scope_model(b: Vec<(String, Value)>) -> Seq<(Seq<char>, Json)> {
    entry_models(b@)
}

/// Whether a resolution result matches its modelled outcome.
pub open spec fn resolved_as(r: Result<&Value, NatsuzoraError>, m: Result<Json, ErrorKind>) -> bool {
    match r {
        Ok(v) => m == Ok::<Json, ErrorKind>(v.model()),
        Err(e) => m == Err::<Json, ErrorKind>(kind_of(e)),
    }
}

/// Resolution state for one render: the root object and a stack of local scopes.
pub struct Context {
    root: Vec<(String, Value)>,
    local_stack: Vec<Vec<(String, Value)>>,
}

impl Context {
    /// The root object's model.
    pub closed spec fn root_model(&self) -> Seq<(Seq<char>, Json)> {
        entry_models(self.root@)
    }

    /// The local scopes' models, oldest first.
    pub closed spec fn scopes(&self) -> Scopes {
        self.local_stack@.map_values(|b: Vec<(String, Value)>| entry_models(b@))
    }

    /// Creates a context over root data, which must be an object.
    pub fn new(root_data: Value) -> (r: Result<Context, NatsuzoraError>)
        ensures
            match root_data.model() {
                Json::Object(es) => r is Ok && r->Ok_0.root_model() == es && r->Ok_0.scopes().len() == 0,
                _ => r is Err && r->Err_0 is TypeError,
            },
    {
        match root_data {
            Value::Object(obj) => {
                let c = Context { root: obj, local_stack: Vec::new() };
                assert(c.scopes() =~= Seq::<Seq<(Seq<char>, Json)>>::empty());
                Ok(c)
            },
            _ => Err(NatsuzoraError::TypeError { message: "Root data must be an object".to_owned() }),
        }
    }

    fn resolve_head(&self, name: &str) -> (r: Option<&Value>)
        ensures
            resolve_name(self.scopes(), self.root_model(), name@) == match r {
                Some(v) => Some(v.model()),
                None => None::<Json>,
            },
    {
        let ghost s = self.scopes();
        let mut k: usize = self.local_stack.len();
        assert(s.subrange(0, k as int) =~= s);
        while k > 0
            invariant
                k <= self.local_stack@.len(),
                s == self.scopes(),
                s.len() == self.local_stack@.len(),
                resolve_name(s, self.root_model(), name@)
                    == resolve_name(s.subrange(0, k as int), self.root_model(), name@),
            decreases k,
        {
            let ghost sub = s.subrange(0, k as int);
            assert(sub.last() == entry_models(self.local_stack@[k - 1]@));
            match find_entry(&self.local_stack[k - 1], name) {
                Some(v) => {
                    return Some(v);
                },
                None => {},
            }
            assert(sub.drop_last() =~= s.subrange(0, k - 1));
            k -= 1;
        }
        find_entry(&self.root, name)
    }

    /// Resolves a path: the head through the scopes newest first, then the
    /// root; each later segment as a property of an object.
    pub fn resolve(&self, path: &[String], location: Location) -> (r: Result<&Value, NatsuzoraError>)
        ensures
            resolved_as(r, resolve_path(self.scopes(), self.root_model(), seg_models(path@))),
            r is Err ==> (r->Err_0 is UndefinedVariable || r->Err_0 is TypeError),
    {
        let ghost segs = seg_models(path@);
        if path.len() == 0 {
            return Err(NatsuzoraError::UndefinedVariable { name: String::new(), location });
        }
        assert(segs[0] == path@[0]@);
        let head = self.resolve_head(path[0].as_str());
        let mut cur: &Value = match head {
            Some(v) => v,
            None => {
                return Err(NatsuzoraError::UndefinedVariable { name: path[0].clone(), location });
            },
        };
        let mut i: usize = 1;
        assert(segs.drop_first() =~= segs.subrange(1, segs.len() as int));
        while i < path.len()
            invariant
                1 <= i <= path@.len(),
                segs == seg_models(path@),
                segs.len() == path@.len(),
                resolve_path(self.scopes(), self.root_model(), segs)
                    == access(cur.model(), segs.subrange(i as int, segs.len() as int)),
            decreases path@.len() - i,
        {
            let ghost rest = segs.subrange(i as int, segs.len() as int);
            assert(rest[0] == path@[i as int]@);
            match cur {
                Value::Object(entries) => {
                    match find_entry(entries, path[i].as_str()) {
                        Some(v) => {
                            assert(rest.drop_first() =~= segs.subrange(i + 1, segs.len() as int));
                            cur = v;
                        },
                        None => {
                            return Err(NatsuzoraError::UndefinedVariable { name: path[i].clone(), location });
                        },
                    }
                },
                _ => {
                    return Err(NatsuzoraError::TypeError { message: "Cannot access property on non-object".to_owned() });
                },
            }
            i += 1;
        }
        assert(segs.subrange(i as int, segs.len() as int).len() == 0);
        Ok(cur)
    }

    /// Whether a name resolves in some scope or in the root.
    fn name_exists(&self, name: &str) -> (r: bool)
        ensures
            r == visible(self.scopes(), self.root_model(), name@),
    {
        self.resolve_head(name).is_some()
    }

    /// Pushes the scope of an `#each` iteration; refused with a shadowing
    /// error when any of its names already resolves.
    pub fn push_scope(&mut self, bindings: Vec<(String, Value)>) -> (r: Result<(), NatsuzoraError>)
        ensures
            (exists|j: int| 0 <= j < bindings@.len()
                && visible(old(self).scopes(), old(self).root_model(), #[trigger] bindings@[j].0@))
                ==> r is Err && *final(self) == *old(self) && exists|j: int| 0 <= j < bindings@.len()
                    && visible(old(self).scopes(), old(self).root_model(), #[trigger] bindings@[j].0@)
                    && r->Err_0 == (NatsuzoraError::ShadowingError { name: bindings@[j].0 }),
            (forall|j: int| 0 <= j < bindings@.len()
                ==> !visible(old(self).scopes(), old(self).root_model(), #[trigger] bindings@[j].0@))
                ==> r is Ok && final(self).scopes() == old(self).scopes().push(scope_model(bindings))
                    && final(self).root_model() == old(self).root_model(),
    {
        let mut j: usize = 0;
        while j < bindings.len()
            invariant
                j <= bindings@.len(),
                forall|t: int| 0 <= t < j
                    ==> !visible(self.scopes(), self.root_model(), #[trigger] bindings@[t].0@),
            decreases bindings@.len() - j,
        {
            if self.name_exists(bindings[j].0.as_str()) {
                return Err(NatsuzoraError::ShadowingError { name: bindings[j].0.clone() });
            }
            j += 1;
        }
        self.push_include_scope(bindings);
        Ok(())
    }

    /// Pushes the scope of a partial's arguments, which may hide outer names.
    pub fn push_include_scope(&mut self, bindings: Vec<(String, Value)>)
        ensures
            final(self).scopes() == old(self).scopes().push(scope_model(bindings)),
            final(self).root_model() == old(self).root_model(),
    {
        self.local_stack.push(bindings);
        assert(self.scopes() =~= old(self).scopes().push(scope_model(bindings)));
    }

    /// Removes the newest scope, if there is one.
    pub fn pop_scope(&mut self)
        ensures
            final(self).scopes() == if old(self).scopes().len() == 0 {
                old(self).scopes()
            } else {
                old(self).scopes().drop_last()
            },
            final(self).root_model() == old(self).root_model(),
    {
        let _ = self.local_stack.pop();
        assert(self.scopes() =~= if old(self).scopes().len() == 0 {
            old(self).scopes()
        } else {
            old(self).scopes().drop_last()
        });
    }

    /// The length of the array a path resolves to.
    pub fn get_array_len(&self, path: &[String], location: Location) -> (r: Result<usize, NatsuzoraError>)
        ensures
            match resolve_path(self.scopes(), self.root_model(), seg_models(path@)) {
                Ok(Json::Array(items)) => items.len() <= usize::MAX && r == Ok::<usize, NatsuzoraError>(items.len() as usize),
                Ok(_) => r is Err && kind_of(r->Err_0) == ErrorKind::Type,
                Err(k) => r is Err && kind_of(r->Err_0) == k,
            },
    {
        let value = self.resolve(path, location)?;
        match value {
            Value::Array(arr) => {
                proof { crate::value::lemma_models(arr@); }
                Ok(arr.len())
            },
            _ => Err(NatsuzoraError::TypeError { message: "Expected array".to_owned() }),
        }
    }

    /// A copy of one item of the array a path resolves to.
    pub fn get_array_item(&self, path: &[String], index: usize, location: Location) -> (r: Result<Value, NatsuzoraError>)
        ensures
            match resolve_path(self.scopes(), self.root_model(), seg_models(path@)) {
                Ok(Json::Array(items)) => if index < items.len() {
                    r is Ok && r->Ok_0.model() == items[index as int]
                } else {
                    r is Err && kind_of(r->Err_0) == ErrorKind::Type
                },
                Ok(_) => r is Err && kind_of(r->Err_0) == ErrorKind::Type,
                Err(k) => r is Err && kind_of(r->Err_0) == k,
            },
    {
        let value = self.resolve(path, location)?;
        match value {
            Value::Array(arr) => {
                proof { crate::value::lemma_models(arr@); }
                if index < arr.len() {
                    Ok(arr[index].duplicate())
                } else {
                    Err(NatsuzoraError::TypeError { message: "Array index out of bounds".to_owned() })
                }
            },
            _ => Err(NatsuzoraError::TypeError { message: "Expected array".to_owned() }),
        }
    }
}

} // verus!
