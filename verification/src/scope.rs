//! Scopes: a tree of environments in which names are bound to values.
//!
//! All scopes of a session live in one `ScopeTree` and are known by their
//! index in it. A scope has its own bindings, at most one parent, a list of
//! scopes that it uses, and a flag that freezes it. A child is made after
//! its parent, so the index of a parent is below that of its children.
use vstd::prelude::*;
use crate::errors::{about, fail, fail_about, plain, Cause, CrushResult, ErrorView};
use crate::text::texts;
use crate::value::{Value, ValueView};

verus! {

/// One scope of the tree.
pub struct ScopeData {
    names: Vec<String>,
    values: Vec<Value>,
    parent: Option<usize>,
    uses: Vec<usize>,
    is_loop: bool,
    frozen: bool,
}

/// The mathematical view of a scope.
pub struct ScopeView {
    /// What each name declared in this scope is bound to.
    pub bindings: Map<Seq<char>, ValueView>,
    pub parent: Option<int>,
    /// The scopes that this scope uses, in the order in which they were added.
    pub uses: Seq<int>,
    pub is_loop: bool,
    pub frozen: bool,
}

/// All scopes.
pub struct ScopeTree {
    scopes: Vec<ScopeData>,
}

/// What a scope binds a name to itself.
pub open spec fn local(scope: ScopeView, name: Seq<char>) -> Option<ValueView> {
    if scope.bindings.contains_key(name) {
        Some(scope.bindings[name])
    } else {
        None
    }
}

/// What the first of the scopes `uses[k..]` that binds the name binds it to.
pub open spec fn used(tree: Seq<ScopeView>, uses: Seq<int>, name: Seq<char>, k: int) -> Option<
    ValueView,
>
    decreases uses.len() - k,
{
    if k < 0 || k >= uses.len() {
        None
    } else if 0 <= uses[k] < tree.len() && local(tree[uses[k]], name) is Some {
        local(tree[uses[k]], name)
    } else {
        used(tree, uses, name, k + 1)
    }
}

/// What a name stands for when it is read in a scope: the scope's own
/// binding, else the binding in the first scope that it uses and that binds
/// the name, else what the name stands for in the parent.
pub open spec fn resolve(tree: Seq<ScopeView>, scope: int, name: Seq<char>) -> Option<ValueView>
    decreases scope,
{
    if scope < 0 || scope >= tree.len() {
        None
    } else if local(tree[scope], name) is Some {
        local(tree[scope], name)
    } else if used(tree, tree[scope].uses, name, 0) is Some {
        used(tree, tree[scope].uses, name, 0)
    } else {
        match tree[scope].parent {
            Some(p) => if 0 <= p < scope {
                resolve(tree, p, name)
            } else {
                None
            },
            None => None,
        }
    }
}

/// What the segments `path[k..]` stand for inside the value `inside`: each
/// segment is looked up in the scope that the value before it is.
pub open spec fn descend(tree: Seq<ScopeView>, inside: ValueView, path: Seq<Seq<char>>, k: int) -> Result<
    ValueView,
    ErrorView,
>
    decreases path.len() - k,
{
    if k < 0 || k >= path.len() {
        Ok(inside)
    } else {
        match inside {
            ValueView::Scope(id) => if id < tree.len() && local(tree[id as int], path[k]) is Some {
                descend(tree, local(tree[id as int], path[k])->0, path, k + 1)
            } else {
                Err(about(Cause::UnknownName, path[k]))
            },
            _ => Err(about(Cause::NotAScope, path[k - 1])),
        }
    }
}

/// What a path stands for when it is read in a scope: the first segment is
/// read as a name, each further segment is looked up inside the scope that
/// the segment before it stands for. The error names the segment that was
/// not found, or the segment that is no scope.
pub open spec fn resolve_path(tree: Seq<ScopeView>, scope: int, path: Seq<Seq<char>>) -> Result<
    ValueView,
    ErrorView,
> {
    if path.len() == 0 {
        Err(plain(Cause::UnknownName))
    } else {
        match resolve(tree, scope, path[0]) {
            None => Err(about(Cause::UnknownName, path[0])),
            Some(v) => descend(tree, v, path, 1),
        }
    }
}

impl ScopeData {
    /// What this scope stands for.
    pub closed spec fn view(&self) -> ScopeView {
        ScopeView {
            bindings: Map::new(
                |name: Seq<char>| exists|i: int| 0 <= i < self.names.len() && self.names[i]@ == name,
                |name: Seq<char>|
                    self.values[choose|i: int| 0 <= i < self.names.len() && self.names[i]@ == name]@,
            ),
            parent: match self.parent {
                Some(p) => Some(p as int),
                None => None,
            },
            uses: self.uses@.map_values(|u: usize| u as int),
            is_loop: self.is_loop,
            frozen: self.frozen,
        }
    }

    /// Each name is declared once and has a value.
    closed spec fn wf(&self) -> bool {
        &&& self.names.len() == self.values.len()
        &&& forall|i: int, j: int|
            0 <= i < j < self.names.len() ==> self.names[i]@ != self.names[j]@
    }

    /// The index of a name among the declared names.
    fn find(&self, name: &str) -> (r: Option<usize>)
        requires
            self.wf(),
        ensures
            match r {
                Some(i) => i < self.names.len() && self.names[i as int]@ == name@ && local(
                    self.view(),
                    name@,
                ) == Some(self.values[i as int]@),
                None => local(self.view(), name@) is None,
            },
    {
        let mut i: usize = 0;
        while i < self.names.len()
            invariant
                i <= self.names.len(),
                self.wf(),
                forall|j: int| 0 <= j < i ==> self.names[j]@ != name@,
            decreases self.names.len() - i,
        {
            if self.names[i].as_str().eq(name) {
                assert(self.names[i as int]@ == name@);
                let ghost chosen = choose|k: int|
                    0 <= k < self.names.len() && self.names[k]@ == name@;
                assert(chosen == i);
                return Some(i);
            }
            i += 1;
        }
        None
    }
}

impl ScopeTree {
    /// The scopes, by index.
    pub closed spec fn view(&self) -> Seq<ScopeView> {
        self.scopes@.map_values(|s: ScopeData| s.view())
    }

    /// Every scope is well formed, parents come before their children, and
    /// used scopes exist.
    pub closed spec fn wf(&self) -> bool {
        &&& forall|i: int| 0 <= i < self.scopes.len() ==> (#[trigger] self.scopes[i]).wf()
        &&& forall|i: int|
            0 <= i < self.scopes.len() ==> ((#[trigger] self.scopes[i]).parent matches Some(p)
                ==> p < i)
        &&& forall|i: int, k: int|
            0 <= i < self.scopes.len() && 0 <= k < self.scopes[i].uses.len() ==> (
            #[trigger] self.scopes[i].uses[k]) < self.scopes.len()
    }

    /// Whether `scope` is the index of a scope.
    pub open spec fn has(&self, scope: usize) -> bool {
        scope < self@.len()
    }

    /// A tree without scopes.
    pub fn new() -> (tree: ScopeTree)
        ensures
            tree.wf(),
            tree@.len() == 0,
    {
        ScopeTree { scopes: Vec::new() }
    }

    /// The number of scopes.
    pub fn len(&self) -> (n: usize)
        ensures
            n == self@.len(),
    {
        self.scopes.len()
    }

    /// Whether `scope` is the index of a scope.
    pub fn contains(&self, scope: usize) -> (b: bool)
        ensures
            b == self.has(scope),
    {
        scope < self.scopes.len()
    }

    /// Adds a scope without a parent and returns its index.
    pub fn create_root(&mut self) -> (id: usize)
        requires
            old(self).wf(),
        ensures
            final(self).wf(),
            id == old(self)@.len(),
            final(self)@ == old(self)@.push(fresh(None, false)),
    {
        let id = self.scopes.len();
        self.scopes.push(ScopeData::blank(None, false));
        assert(self@ =~= old(self)@.push(fresh(None, false)));
        id
    }

    /// Adds a scope whose parent is `base` and returns its index.
    pub fn create_child(&mut self, base: usize, is_loop_scope: bool) -> (id: usize)
        requires
            old(self).wf(),
            old(self).has(base),
        ensures
            final(self).wf(),
            id == old(self)@.len(),
            final(self)@ == old(self)@.push(fresh(Some(base as int), is_loop_scope)),
    {
        let id = self.scopes.len();
        self.scopes.push(ScopeData::blank(Some(base), is_loop_scope));
        assert(self@ =~= old(self)@.push(fresh(Some(base as int), is_loop_scope)));
        id
    }

    /// Binds `name` to `value` in `scope`. Fails in a frozen scope, and
    /// when the scope has declared the name already; the tree is then
    /// unchanged.
    pub fn declare(&mut self, scope: usize, name: &str, value: Value) -> (r: CrushResult<()>)
        requires
            old(self).wf(),
            old(self).has(scope),
        ensures
            final(self).wf(),
            match declared(old(self)@[scope as int], name@, value@) {
                Ok(after) => r is Ok && final(self)@ == old(self)@.update(scope as int, after),
                Err(e) => r matches Err(error) && error@ == e && final(self)@ == old(self)@,
            },
    {
        let ghost before = self.scopes@;
        let r = self.scopes[scope].declare(name, value);
        proof {
            assert(self@ =~= old(self)@.update(scope as int, self.scopes@[scope as int].view()));
            if r is Err {
                assert(self@ =~= old(self)@);
            }
        }
        r
    }

    /// Freezes `scope`: from now on nothing is declared in it.
    pub fn readonly(&mut self, scope: usize)
        requires
            old(self).wf(),
            old(self).has(scope),
        ensures
            final(self).wf(),
            final(self)@ == old(self)@.update(scope as int, frozen(old(self)@[scope as int])),
    {
        self.scopes[scope].freeze();
        assert(self@ =~= old(self)@.update(scope as int, frozen(old(self)@[scope as int])));
    }

    /// Makes `scope` use `other`: names that `other` declares can be read
    /// in `scope`.
    pub fn use_scope(&mut self, scope: usize, other: usize)
        requires
            old(self).wf(),
            old(self).has(scope),
            old(self).has(other),
        ensures
            final(self).wf(),
            final(self)@ == old(self)@.update(
                scope as int,
                using(old(self)@[scope as int], other as int),
            ),
    {
        self.scopes[scope].add_use(other);
        assert(self@ =~= old(self)@.update(
            scope as int,
            using(old(self)@[scope as int], other as int),
        ));
    }

    /// What `name` stands for when it is read in `scope`.
    pub fn get(&self, scope: usize, name: &str) -> (r: Option<&Value>)
        requires
            self.wf(),
        ensures
            match resolve(self@, scope as int, name@) {
                Some(v) => r matches Some(found) && found@ == v,
                None => r is None,
            },
    {
        if scope >= self.scopes.len() {
            return None;
        }
        let mut current = scope;
        loop
            invariant
                self.wf(),
                current < self.scopes.len(),
                resolve(self@, scope as int, name@) == resolve(self@, current as int, name@),
            decreases current,
        {
            let data = &self.scopes[current];
            assert(self@[current as int] == data.view());
            if let Some(i) = data.find(name) {
                return Some(&data.values[i]);
            }
            let ghost uses = data.view().uses;
            let mut k: usize = 0;
            while k < data.uses.len()
                invariant
                    self.wf(),
                    current < self.scopes.len(),
                    data == &self.scopes[current as int],
                    uses == data.view().uses,
                    self@[current as int] == data.view(),
                    local(self@[current as int], name@) is None,
                    resolve(self@, scope as int, name@) == resolve(self@, current as int, name@),
                    k <= data.uses.len(),
                    used(self@, uses, name@, 0) == used(self@, uses, name@, k as int),
                decreases data.uses.len() - k,
            {
                let other = data.uses[k];
                assert(uses[k as int] == other);
                assert(other < self.scopes.len());
                assert(self@[other as int] == self.scopes[other as int].view());
                if let Some(i) = self.scopes[other].find(name) {
                    return Some(&self.scopes[other].values[i]);
                }
                k += 1;
            }
            match data.parent {
                Some(p) => {
                    current = p;
                },
                None => {
                    return None;
                },
            }
        }
    }

    /// What `path` stands for when it is read in `scope`.
    pub fn get_path(&self, scope: usize, path: &Vec<String>) -> (r: CrushResult<&Value>)
        requires
            self.wf(),
        ensures
            match resolve_path(self@, scope as int, texts(path@)) {
                Ok(v) => r matches Ok(found) && found@ == v,
                Err(e) => r matches Err(error) && error@ == e,
            },
    {
        if path.len() == 0 {
            return fail(Cause::UnknownName);
        }
        let ghost names = texts(path@);
        assert(names[0] == path@[0]@);
        let mut value = match self.get(scope, path[0].as_str()) {
            Some(v) => v,
            None => {
                return fail_about(Cause::UnknownName, path[0].as_str());
            },
        };
        let mut k: usize = 1;
        while k < path.len()
            invariant
                self.wf(),
                names == texts(path@),
                1 <= k <= path.len(),
                resolve_path(self@, scope as int, names) == descend(self@, value@, names, k as int),
            decreases path.len() - k,
        {
            assert(names[k as int] == path@[k as int]@);
            assert(names[k - 1] == path@[k - 1]@);
            match value {
                Value::Scope(id) => {
                    if *id >= self.scopes.len() {
                        return fail_about(Cause::UnknownName, path[k].as_str());
                    }
                    let data = &self.scopes[*id];
                    assert(self@[*id as int] == data.view());
                    match data.find(path[k].as_str()) {
                        Some(i) => {
                            value = &data.values[i];
                        },
                        None => {
                            return fail_about(Cause::UnknownName, path[k].as_str());
                        },
                    }
                },
                _ => {
                    return fail_about(Cause::NotAScope, path[k - 1].as_str());
                },
            }
            k += 1;
        }
        Ok(value)
    }

    /// The scope that `name` stands for in `base`, made if need be: when
    /// `base` binds the name to a scope, that scope; else a new scope
    /// without a parent, which `base` then binds the name to. Fails when
    /// `base` binds the name to something else, and when the scope must be
    /// made and `base` is frozen.
    pub fn create_namespace(&mut self, base: usize, name: &str) -> (r: CrushResult<usize>)
        requires
            old(self).wf(),
            old(self).has(base),
        ensures
            final(self).wf(),
            match namespace_in(old(self)@, base as int, name@) {
                Ok(after) => r matches Ok(id) && id == after.0 && final(self)@ == after.1,
                Err(e) => r matches Err(error) && error@ == e && final(self)@ == old(self)@,
            },
    {
        assert(self@[base as int] == self.scopes[base as int].view());
        match self.scopes[base].find(name) {
            Some(i) => {
                match &self.scopes[base].values[i] {
                    Value::Scope(id) => {
                        return Ok(*id);
                    },
                    _ => {
                        return fail_about(Cause::DuplicateName, name);
                    },
                }
            },
            None => {},
        }
        if self.scopes[base].frozen {
            return fail(Cause::FrozenScope);
        }
        let id = self.create_root();
        match self.declare(base, name, Value::Scope(id)) {
            Ok(()) => Ok(id),
            Err(e) => Err(e),
        }
    }

    /// Whether `scope` is frozen.
    pub fn is_frozen(&self, scope: usize) -> (b: bool)
        requires
            self.has(scope),
        ensures
            b == self@[scope as int].frozen,
    {
        self.scopes[scope].frozen
    }

    /// Whether `scope` was made for the body of a loop.
    pub fn is_loop(&self, scope: usize) -> (b: bool)
        requires
            self.has(scope),
        ensures
            b == self@[scope as int].is_loop,
    {
        self.scopes[scope].is_loop
    }
}

/// A scope after `name` was declared in it, or the error: a frozen scope
/// takes no declaration, and no name is declared twice.
pub open spec fn declared(scope: ScopeView, name: Seq<char>, value: ValueView) -> Result<
    ScopeView,
    ErrorView,
> {
    if scope.frozen {
        Err(plain(Cause::FrozenScope))
    } else if scope.bindings.contains_key(name) {
        Err(about(Cause::DuplicateName, name))
    } else {
        Ok(ScopeView { bindings: scope.bindings.insert(name, value), ..scope })
    }
}

/// A scope after it was frozen.
pub open spec fn frozen(scope: ScopeView) -> ScopeView {
    ScopeView { frozen: true, ..scope }
}

/// A scope after `other` was added to the scopes that it uses. A scope
/// that is used already is not added again.
pub open spec fn using(scope: ScopeView, other: int) -> ScopeView {
    if scope.uses.contains(other) {
        scope
    } else {
        ScopeView { uses: scope.uses.push(other), ..scope }
    }
}

impl ScopeData {
    fn blank(parent: Option<usize>, is_loop: bool) -> (data: ScopeData)
        ensures
            data.wf(),
            data.uses@.len() == 0,
            data.parent == parent,
            data.view() == fresh(
                match parent {
                    Some(p) => Some(p as int),
                    None => None,
                },
                is_loop,
            ),
    {
        let data = ScopeData {
            names: Vec::new(),
            values: Vec::new(),
            parent,
            uses: Vec::new(),
            is_loop,
            frozen: false,
        };
        assert(data.view().bindings =~= Map::empty());
        assert(data.view().uses =~= Seq::empty());
        data
    }

    fn declare(&mut self, name: &str, value: Value) -> (r: CrushResult<()>)
        requires
            old(self).wf(),
        ensures
            final(self).wf(),
            final(self).parent == old(self).parent,
            final(self).uses == old(self).uses,
            match declared(old(self).view(), name@, value@) {
                Ok(after) => r is Ok && final(self).view() == after,
                Err(e) => r matches Err(error) && error@ == e && final(self).view() == old(
                    self,
                ).view(),
            },
    {
        if self.frozen {
            return fail(Cause::FrozenScope);
        }
        if self.find(name).is_some() {
            return fail_about(Cause::DuplicateName, name);
        }
        let ghost before = *self;
        self.names.push(String::from_str(name));
        self.values.push(value);
        proof {
            let n = before.names.len() as int;
            assert forall|k: Seq<char>| #[trigger]
                self.view().bindings.contains_key(k) == before.view().bindings.insert(
                    name@,
                    value@,
                ).contains_key(k) by {
                if before.view().bindings.contains_key(k) {
                    let i = choose|i: int| 0 <= i < before.names.len() && before.names[i]@ == k;
                    assert(self.names[i]@ == k);
                }
                if k == name@ {
                    assert(self.names[n]@ == k);
                }
                if self.view().bindings.contains_key(k) {
                    let i = choose|i: int| 0 <= i < self.names.len() && self.names[i]@ == k;
                    if i < n {
                        assert(before.names[i]@ == k);
                    }
                }
            }
            assert forall|k: Seq<char>| #[trigger]
                self.view().bindings.contains_key(k) implies self.view().bindings[k]
                == before.view().bindings.insert(name@, value@)[k] by {
                let i = choose|i: int| 0 <= i < self.names.len() && self.names[i]@ == k;
                if i < n {
                    assert(before.names[i]@ == k);
                    let j = choose|j: int| 0 <= j < before.names.len() && before.names[j]@ == k;
                    assert(i == j);
                    assert(self.values[i] == before.values[i]);
                } else {
                    assert(k == name@);
                }
            }
            assert(self.view().bindings =~= before.view().bindings.insert(name@, value@));
        }
        Ok(())
    }

    fn add_use(&mut self, other: usize)
        requires
            old(self).wf(),
        ensures
            final(self).wf(),
            final(self).parent == old(self).parent,
            final(self).view() == using(old(self).view(), other as int),
            forall|k: int|
                0 <= k < final(self).uses.len() ==> (#[trigger] final(self).uses[k]) == other || (k
                    < old(self).uses.len() && final(self).uses[k] == old(self).uses[k]),
    {
        let ghost views = self.view().uses;
        let mut k: usize = 0;
        while k < self.uses.len()
            invariant
                k <= self.uses.len(),
                *self == *old(self),
                self.wf(),
                views == self.view().uses,
                forall|j: int| 0 <= j < k ==> views[j] != other,
            decreases self.uses.len() - k,
        {
            if self.uses[k] == other {
                assert(views[k as int] == other);
                return ;
            }
            k += 1;
        }
        self.uses.push(other);
        assert(self.view().uses =~= views.push(other as int));
        assert(self.view().bindings =~= old(self).view().bindings);
    }

    fn freeze(&mut self)
        requires
            old(self).wf(),
        ensures
            final(self).wf(),
            final(self).parent == old(self).parent,
            final(self).uses == old(self).uses,
            final(self).view() == frozen(old(self).view()),
    {
        self.frozen = true;
        assert(self.view().bindings =~= old(self).view().bindings);
    }
}

/// The scope that a name stands for in `base`, with the tree as it is then;
/// see `create_namespace`.
pub open spec fn namespace_in(tree: Seq<ScopeView>, base: int, name: Seq<char>) -> Result<
    (int, Seq<ScopeView>),
    ErrorView,
> {
    match local(tree[base], name) {
        Some(ValueView::Scope(id)) => Ok((id as int, tree)),
        Some(_) => Err(about(Cause::DuplicateName, name)),
        None => if tree[base].frozen {
            Err(plain(Cause::FrozenScope))
        } else {
            Ok(
                (
                    tree.len() as int,
                    tree.push(fresh(None, false)).update(
                        base,
                        ScopeView {
                            bindings: tree[base].bindings.insert(
                                name,
                                ValueView::Scope(tree.len()),
                            ),
                            ..tree[base]
                        },
                    ),
                ),
            )
        },
    }
}

/// A scope without bindings.
pub open spec fn fresh(parent: Option<int>, is_loop: bool) -> ScopeView {
    ScopeView {
        bindings: Map::empty(),
        parent,
        uses: Seq::empty(),
        is_loop,
        frozen: false,
    }
}

/// Whether reading a name in `from` may look into `target`: `target` is
/// `from`, one of its ancestors, or a scope that one of these uses.
pub open spec fn looks_into(tree: Seq<ScopeView>, from: int, target: int) -> bool
    decreases from,
{
    if from < 0 || from >= tree.len() {
        false
    } else {
        from == target || tree[from].uses.contains(target) || (match tree[from].parent {
            Some(p) => 0 <= p < from && looks_into(tree, p, target),
            None => false,
        })
    }
}

/// A change to a scope that is not among `uses[k..]` does not change what
/// these scopes bind a name to.
proof fn lemma_used_frame(
    tree: Seq<ScopeView>,
    changed: int,
    after: ScopeView,
    uses: Seq<int>,
    name: Seq<char>,
    k: int,
)
    requires
        0 <= changed < tree.len(),
        !uses.contains(changed),
        0 <= k,
    ensures
        used(tree.update(changed, after), uses, name, k) == used(tree, uses, name, k),
    decreases uses.len() - k,
{
    if k < uses.len() {
        assert(uses.contains(uses[k]));
        lemma_used_frame(tree, changed, after, uses, name, k + 1);
    }
}

/// A change to one scope does not change what a name stands for in a scope
/// that does not look into the changed one.
pub proof fn lemma_resolve_frame(
    tree: Seq<ScopeView>,
    changed: int,
    after: ScopeView,
    scope: int,
    name: Seq<char>,
)
    requires
        0 <= changed < tree.len(),
        !looks_into(tree, scope, changed),
    ensures
        resolve(tree.update(changed, after), scope, name) == resolve(tree, scope, name),
    decreases scope,
{
    if 0 <= scope < tree.len() {
        lemma_used_frame(tree, changed, after, tree[scope].uses, name, 0);
        match tree[scope].parent {
            Some(p) => {
                if 0 <= p < scope {
                    lemma_resolve_frame(tree, changed, after, p, name);
                }
            },
            None => {},
        }
    }
}

/// More scopes at the end of the tree do not change what a name stands
/// for in a scope that was there before, as long as the scopes that it and
/// its ancestors use were there too.
pub proof fn lemma_resolve_grow(tree: Seq<ScopeView>, added: ScopeView, scope: int, name: Seq<char>)
    requires
        0 <= scope < tree.len(),
        !looks_into(tree, scope, tree.len() as int),
    ensures
        resolve(tree.push(added), scope, name) == resolve(tree, scope, name),
    decreases scope,
{
    lemma_used_grow(tree, added, tree[scope].uses, name, 0);
    match tree[scope].parent {
        Some(p) => {
            if 0 <= p < scope {
                lemma_resolve_grow(tree, added, p, name);
            }
        },
        None => {},
    }
}

proof fn lemma_used_grow(
    tree: Seq<ScopeView>,
    added: ScopeView,
    uses: Seq<int>,
    name: Seq<char>,
    k: int,
)
    requires
        !uses.contains(tree.len() as int),
        0 <= k,
    ensures
        used(tree.push(added), uses, name, k) == used(tree, uses, name, k),
    decreases uses.len() - k,
{
    if k < uses.len() {
        assert(uses.contains(uses[k]));
        lemma_used_grow(tree, added, uses, name, k + 1);
    }
}

/// Shadowing: once `name` is declared in a scope, reading it there gives
/// the declared value, whatever the name stands for further up.
pub proof fn lemma_declared_is_read(
    tree: Seq<ScopeView>,
    scope: int,
    name: Seq<char>,
    value: ValueView,
)
    requires
        0 <= scope < tree.len(),
        declared(tree[scope], name, value) is Ok,
    ensures
        resolve(tree.update(scope, declared(tree[scope], name, value)->Ok_0), scope, name) == Some(
            value,
        ),
{
}

/// Shadowing: a declaration in a scope does not change what the name
/// stands for in its parent, unless the parent or one of its ancestors
/// uses the scope.
pub proof fn lemma_parent_unaffected(
    tree: Seq<ScopeView>,
    child: int,
    name: Seq<char>,
    value: ValueView,
)
    requires
        0 <= child < tree.len(),
        tree[child].parent matches Some(p) && 0 <= p < child && !looks_into(tree, p, child),
        declared(tree[child], name, value) is Ok,
    ensures
        resolve(
            tree.update(child, declared(tree[child], name, value)->Ok_0),
            tree[child].parent->0,
            name,
        ) == resolve(tree, tree[child].parent->0, name),
{
    lemma_resolve_frame(
        tree,
        child,
        declared(tree[child], name, value)->Ok_0,
        tree[child].parent->0,
        name,
    );
}

/// A frozen scope takes no declaration.
pub proof fn lemma_frozen_rejects(scope: ScopeView, name: Seq<char>, value: ValueView)
    ensures
        declared(frozen(scope), name, value) == Err::<ScopeView, ErrorView>(
            plain(Cause::FrozenScope),
        ),
{
}

/// Closures read names where they were written: a scope made for a call of
/// a closure is a child of the scope that the closure holds, and a name
/// stands in it for what it stands for in that scope, also after the name
/// was declared in a scope that the held scope does not look into.
pub proof fn lemma_closure_reads_captured_scope(
    tree: Seq<ScopeView>,
    captured: int,
    other: int,
    name: Seq<char>,
    value: ValueView,
)
    requires
        0 <= captured < tree.len(),
        0 <= other < tree.len(),
        !looks_into(tree, captured, other),
        !looks_into(tree, captured, tree.len() as int),
        declared(tree[other], name, value) is Ok,
    ensures
        resolve(
            tree.update(other, declared(tree[other], name, value)->Ok_0).push(
                fresh(Some(captured), false),
            ),
            tree.len() as int,
            name,
        ) == resolve(tree, captured, name),
{
    let after = declared(tree[other], name, value)->Ok_0;
    let changed = tree.update(other, after);
    let called = changed.push(fresh(Some(captured), false));
    lemma_resolve_frame(tree, other, after, captured, name);
    lemma_looks_into_frame(tree, other, after, captured, tree.len() as int);
    lemma_resolve_grow(changed, fresh(Some(captured), false), captured, name);
    assert(local(called[tree.len() as int], name) is None);
    assert(used(called, called[tree.len() as int].uses, name, 0) is None);
}

/// A change to a scope that `from` does not look into does not change
/// which scopes `from` looks into.
proof fn lemma_looks_into_frame(
    tree: Seq<ScopeView>,
    changed: int,
    after: ScopeView,
    from: int,
    target: int,
)
    requires
        0 <= changed < tree.len(),
        !looks_into(tree, from, changed),
    ensures
        looks_into(tree.update(changed, after), from, target) == looks_into(tree, from, target),
    decreases from,
{
    if 0 <= from < tree.len() {
        match tree[from].parent {
            Some(p) => {
                if 0 <= p < from {
                    lemma_looks_into_frame(tree, changed, after, p, target);
                }
            },
            None => {},
        }
    }
}

} // verus!
