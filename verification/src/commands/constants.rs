//! The constants that every session starts with: `true`, `false` and
//! `global`, in a namespace of their own that the root scope uses.
use vstd::prelude::*;
use crate::errors::{about, fail_about, Cause, CrushResult, ErrorView};
use crate::scope::{declared, frozen, namespace_in, using, ScopeTree, ScopeView};
use crate::value::{Value, ValueView};

verus! {

/// The tree after `name` was declared in `scope`, and the error if the
/// declaration failed.
pub open spec fn declare_in(
    tree: Seq<ScopeView>,
    scope: int,
    name: Seq<char>,
    value: ValueView,
) -> (Seq<ScopeView>, Option<ErrorView>) {
    match declared(tree[scope], name, value) {
        Ok(after) => (tree.update(scope, after), None),
        Err(e) => (tree, Some(e)),
    }
}

/// The tree after the constants were declared for `root`, and the error
/// that stopped the declarations, if one did. The steps are: find or make
/// the namespace `constants` in `root`; make `root` use it; declare `true`,
/// `false` and `global` in it; freeze it. The first step that fails ends
/// the sequence, and what was done before stays.
pub open spec fn with_constants(tree: Seq<ScopeView>, root: int) -> (
    Seq<ScopeView>,
    Option<ErrorView>,
) {
    match namespace_in(tree, root, "constants"@) {
        Err(e) => (tree, Some(e)),
        Ok((env, made)) => if !(0 <= env < made.len()) {
            (made, Some(about(Cause::UnknownName, "constants"@)))
        } else {
            let used = made.update(root, using(made[root], env));
            let first = declare_in(used, env, "true"@, ValueView::Bool(true));
            if first.1 is Some {
                first
            } else {
                let second = declare_in(first.0, env, "false"@, ValueView::Bool(false));
                if second.1 is Some {
                    second
                } else {
                    let third = declare_in(second.0, env, "global"@, ValueView::Scope(root as nat));
                    if third.1 is Some {
                        third
                    } else {
                        (third.0.update(env, frozen(third.0[env])), None)
                    }
                }
            }
        },
    }
}

/// Declares the constants for the scope `root`.
pub fn declare(tree: &mut ScopeTree, root: usize) -> (r: CrushResult<()>)
    requires
        old(tree).wf(),
        old(tree).has(root),
    ensures
        final(tree).wf(),
        final(tree)@ == with_constants(old(tree)@, root as int).0,
        match with_constants(old(tree)@, root as int).1 {
            None => r is Ok,
            Some(e) => r matches Err(error) && error@ == e,
        },
{
    let env = match tree.create_namespace(root, "constants") {
        Ok(env) => env,
        Err(e) => {
            return Err(e);
        },
    };
    if !tree.contains(env) {
        return fail_about(Cause::UnknownName, "constants");
    }
    tree.use_scope(root, env);
    match tree.declare(env, "true", Value::Bool(true)) {
        Ok(()) => {},
        Err(e) => {
            return Err(e);
        },
    }
    match tree.declare(env, "false", Value::Bool(false)) {
        Ok(()) => {},
        Err(e) => {
            return Err(e);
        },
    }
    match tree.declare(env, "global", Value::Scope(root)) {
        Ok(()) => {},
        Err(e) => {
            return Err(e);
        },
    }
    tree.readonly(env);
    Ok(())
}

/// On a root that is not frozen and does not bind `constants`, the
/// declarations succeed. The tree then has one scope more, the namespace:
/// it is frozen, binds `true`, `false` and `global` to the two booleans and
/// to the root, and nothing else; the root binds `constants` to it and uses
/// it.
pub proof fn lemma_constants_on_open_root(tree: Seq<ScopeView>, root: int)
    requires
        0 <= root < tree.len(),
        !tree[root].frozen,
        !tree[root].bindings.contains_key("constants"@),
    ensures
        with_constants(tree, root).1 is None,
        with_constants(tree, root).0.len() == tree.len() + 1,
        with_constants(tree, root).0[tree.len() as int].frozen,
        with_constants(tree, root).0[tree.len() as int].bindings == Map::<
            Seq<char>,
            ValueView,
        >::empty().insert("true"@, ValueView::Bool(true)).insert(
            "false"@,
            ValueView::Bool(false),
        ).insert("global"@, ValueView::Scope(root as nat)),
        with_constants(tree, root).0[root].bindings == tree[root].bindings.insert(
            "constants"@,
            ValueView::Scope(tree.len()),
        ),
        with_constants(tree, root).0[root].uses == using(tree[root], tree.len() as int).uses,
        forall|i: int|
            0 <= i < tree.len() && i != root ==> with_constants(tree, root).0[i] == tree[i],
{
    reveal_strlit("true");
    reveal_strlit("false");
    reveal_strlit("global");
    let env = tree.len() as int;
    let made = namespace_in(tree, root, "constants"@)->Ok_0.1;
    let used = made.update(root, using(made[root], env));
    assert("true"@ != "false"@) by {
        assert("true"@.len() != "false"@.len());
    }
    assert("true"@ != "global"@) by {
        assert("true"@.len() != "global"@.len());
    }
    assert("false"@ != "global"@) by {
        assert("false"@.len() != "global"@.len());
    }
    let first = declare_in(used, env, "true"@, ValueView::Bool(true));
    assert(first.1 is None);
    let second = declare_in(first.0, env, "false"@, ValueView::Bool(false));
    assert(second.1 is None);
    let third = declare_in(second.0, env, "global"@, ValueView::Scope(root as nat));
    assert(third.1 is None);
}

} // verus!
