use crush::commands::constants;
use crush::errors::{Cause, ErrorKind};
use crush::scope::ScopeTree;
use crush::value::Value;

fn integer(tree: &ScopeTree, scope: usize, name: &str) -> Option<i128> {
    match tree.get(scope, name) {
        Some(Value::Integer(i)) => Some(*i),
        Some(other) => panic!("unexpected {:?}", other),
        None => None,
    }
}

fn path(parts: &[&str]) -> Vec<String> {
    parts.iter().map(|s| s.to_string()).collect()
}

#[test]
fn declared_name_is_read_in_its_scope() {
    let mut tree = ScopeTree::new();
    let root = tree.create_root();
    tree.declare(root, "x", Value::Integer(1)).unwrap();
    assert_eq!(integer(&tree, root, "x"), Some(1));
    assert_eq!(integer(&tree, root, "y"), None);
}

#[test]
fn child_reads_names_of_its_ancestors() {
    let mut tree = ScopeTree::new();
    let root = tree.create_root();
    let child = tree.create_child(root, false);
    let grandchild = tree.create_child(child, true);
    tree.declare(root, "x", Value::Integer(1)).unwrap();
    assert_eq!(integer(&tree, grandchild, "x"), Some(1));
    assert!(tree.is_loop(grandchild));
    assert!(!tree.is_loop(child));
}

#[test]
fn declaration_in_child_shadows_parent() {
    let mut tree = ScopeTree::new();
    let root = tree.create_root();
    let child = tree.create_child(root, false);
    tree.declare(root, "x", Value::Integer(1)).unwrap();
    tree.declare(child, "x", Value::Integer(2)).unwrap();
    assert_eq!(integer(&tree, child, "x"), Some(2));
    assert_eq!(integer(&tree, root, "x"), Some(1));
}

#[test]
fn declaration_in_child_is_not_seen_by_parent() {
    let mut tree = ScopeTree::new();
    let root = tree.create_root();
    let child = tree.create_child(root, false);
    tree.declare(child, "y", Value::Integer(2)).unwrap();
    assert_eq!(integer(&tree, root, "y"), None);
}

#[test]
fn second_declaration_of_a_name_fails() {
    let mut tree = ScopeTree::new();
    let root = tree.create_root();
    tree.declare(root, "x", Value::Integer(1)).unwrap();
    let e = tree.declare(root, "x", Value::Integer(2)).unwrap_err();
    assert_eq!(e.cause, Cause::DuplicateName);
    assert_eq!(e.subject, "x");
    assert_eq!(e.kind(), ErrorKind::NameResolution);
    assert_eq!(integer(&tree, root, "x"), Some(1));
}

#[test]
fn frozen_scope_takes_no_declaration() {
    let mut tree = ScopeTree::new();
    let root = tree.create_root();
    tree.declare(root, "x", Value::Integer(1)).unwrap();
    assert!(!tree.is_frozen(root));
    tree.readonly(root);
    assert!(tree.is_frozen(root));
    let e = tree.declare(root, "y", Value::Integer(2)).unwrap_err();
    assert_eq!(e.cause, Cause::FrozenScope);
    assert_eq!(integer(&tree, root, "y"), None);
    assert_eq!(integer(&tree, root, "x"), Some(1));
    let e = tree.declare(root, "x", Value::Integer(3)).unwrap_err();
    assert_eq!(e.cause, Cause::FrozenScope);
}

#[test]
fn freezing_a_scope_leaves_its_children_open() {
    let mut tree = ScopeTree::new();
    let root = tree.create_root();
    let child = tree.create_child(root, false);
    tree.readonly(root);
    tree.declare(child, "x", Value::Integer(1)).unwrap();
    assert_eq!(integer(&tree, child, "x"), Some(1));
}

#[test]
fn used_scope_is_read_after_own_bindings_and_before_parent() {
    let mut tree = ScopeTree::new();
    let root = tree.create_root();
    let child = tree.create_child(root, false);
    let library = tree.create_root();
    tree.declare(root, "a", Value::Integer(1)).unwrap();
    tree.declare(root, "b", Value::Integer(1)).unwrap();
    tree.declare(library, "a", Value::Integer(2)).unwrap();
    tree.declare(library, "b", Value::Integer(2)).unwrap();
    tree.declare(child, "a", Value::Integer(3)).unwrap();
    tree.use_scope(child, library);
    assert_eq!(integer(&tree, child, "a"), Some(3));
    assert_eq!(integer(&tree, child, "b"), Some(2));
    assert_eq!(integer(&tree, root, "b"), Some(1));
}

#[test]
fn used_scopes_are_read_in_the_order_in_which_they_were_added() {
    let mut tree = ScopeTree::new();
    let root = tree.create_root();
    let first = tree.create_root();
    let second = tree.create_root();
    tree.declare(first, "a", Value::Integer(1)).unwrap();
    tree.declare(second, "a", Value::Integer(2)).unwrap();
    tree.declare(second, "b", Value::Integer(2)).unwrap();
    tree.use_scope(root, first);
    tree.use_scope(root, second);
    tree.use_scope(root, first);
    assert_eq!(integer(&tree, root, "a"), Some(1));
    assert_eq!(integer(&tree, root, "b"), Some(2));
}

#[test]
fn unknown_scope_binds_nothing() {
    let mut tree = ScopeTree::new();
    let root = tree.create_root();
    tree.declare(root, "x", Value::Integer(1)).unwrap();
    assert!(tree.get(17, "x").is_none());
    assert!(!tree.contains(17));
    assert!(tree.contains(root));
    assert_eq!(tree.len(), 1);
}

#[test]
fn namespace_is_made_once() {
    let mut tree = ScopeTree::new();
    let root = tree.create_root();
    let first = tree.create_namespace(root, "math").unwrap();
    let second = tree.create_namespace(root, "math").unwrap();
    assert_eq!(first, second);
    assert_eq!(tree.len(), 2);
    assert!(matches!(tree.get(root, "math"), Some(Value::Scope(id)) if *id == first));
}

#[test]
fn namespace_cannot_take_the_name_of_a_value() {
    let mut tree = ScopeTree::new();
    let root = tree.create_root();
    tree.declare(root, "math", Value::Integer(1)).unwrap();
    let e = tree.create_namespace(root, "math").unwrap_err();
    assert_eq!((e.cause, e.subject.as_str()), (Cause::DuplicateName, "math"));
    assert_eq!(tree.len(), 1);
}

#[test]
fn namespace_cannot_be_made_in_a_frozen_scope() {
    let mut tree = ScopeTree::new();
    let root = tree.create_root();
    let existing = tree.create_namespace(root, "old").unwrap();
    tree.readonly(root);
    assert_eq!(tree.create_namespace(root, "new").unwrap_err().cause, Cause::FrozenScope);
    assert_eq!(tree.create_namespace(root, "old").unwrap(), existing);
    assert_eq!(tree.len(), 2);
}

#[test]
fn qualified_path_descends_through_namespaces() {
    let mut tree = ScopeTree::new();
    let root = tree.create_root();
    let child = tree.create_child(root, false);
    let a = tree.create_namespace(root, "a").unwrap();
    let b = tree.create_namespace(a, "b").unwrap();
    tree.declare(b, "c", Value::Integer(7)).unwrap();
    assert!(matches!(tree.get_path(child, &path(&["a", "b", "c"])), Ok(Value::Integer(7))));
    assert!(matches!(tree.get_path(child, &path(&["a", "b"])), Ok(Value::Scope(id)) if *id == b));
}

#[test]
fn missing_segment_is_named_in_the_error() {
    let mut tree = ScopeTree::new();
    let root = tree.create_root();
    let a = tree.create_namespace(root, "a").unwrap();
    tree.declare(a, "n", Value::Integer(7)).unwrap();
    let e = tree.get_path(root, &path(&["zz", "n"])).unwrap_err();
    assert_eq!((e.cause, e.subject.as_str()), (Cause::UnknownName, "zz"));
    let e = tree.get_path(root, &path(&["a", "missing"])).unwrap_err();
    assert_eq!((e.cause, e.subject.as_str()), (Cause::UnknownName, "missing"));
    let e = tree.get_path(root, &path(&["a", "n", "deeper"])).unwrap_err();
    assert_eq!((e.cause, e.subject.as_str()), (Cause::NotAScope, "n"));
    assert_eq!(tree.get_path(root, &path(&[])).unwrap_err().cause, Cause::UnknownName);
}

#[test]
fn later_segments_are_looked_up_in_the_namespace_alone() {
    let mut tree = ScopeTree::new();
    let root = tree.create_root();
    tree.declare(root, "top", Value::Integer(1)).unwrap();
    let a = tree.create_namespace(root, "a").unwrap();
    assert!(a > root);
    let e = tree.get_path(root, &path(&["a", "top"])).unwrap_err();
    assert_eq!((e.cause, e.subject.as_str()), (Cause::UnknownName, "top"));
}

#[test]
fn closure_scope_reads_where_the_closure_was_written() {
    let mut tree = ScopeTree::new();
    let root = tree.create_root();
    let defining = tree.create_child(root, false);
    tree.declare(defining, "x", Value::Integer(1)).unwrap();
    let caller = tree.create_child(root, false);
    tree.declare(caller, "x", Value::Integer(2)).unwrap();
    let call = tree.create_child(defining, false);
    assert_eq!(integer(&tree, call, "x"), Some(1));
    assert_eq!(integer(&tree, caller, "x"), Some(2));
}

#[test]
fn calls_of_a_closure_do_not_share_their_scope() {
    let mut tree = ScopeTree::new();
    let root = tree.create_root();
    let defining = tree.create_child(root, false);
    let first = tree.create_child(defining, false);
    tree.declare(first, "local", Value::Integer(1)).unwrap();
    let second = tree.create_child(defining, false);
    assert_ne!(first, second);
    assert_eq!(integer(&tree, second, "local"), None);
    assert_eq!(integer(&tree, defining, "local"), None);
}

#[test]
fn closure_sees_later_changes_of_its_defining_scope() {
    let mut tree = ScopeTree::new();
    let root = tree.create_root();
    let defining = tree.create_child(root, false);
    let call = tree.create_child(defining, false);
    tree.declare(defining, "late", Value::Integer(9)).unwrap();
    assert_eq!(integer(&tree, call, "late"), Some(9));
}

#[test]
fn constants_are_read_from_the_root() {
    let mut tree = ScopeTree::new();
    let root = tree.create_root();
    constants::declare(&mut tree, root).unwrap();
    let child = tree.create_child(root, false);
    assert!(matches!(tree.get(child, "true"), Some(Value::Bool(true))));
    assert!(matches!(tree.get(child, "false"), Some(Value::Bool(false))));
    assert!(matches!(tree.get(root, "global"), Some(Value::Scope(id)) if *id == root));
    let qualified = vec!["constants".to_string(), "true".to_string()];
    assert!(matches!(tree.get_path(root, &qualified), Ok(Value::Bool(true))));
}

#[test]
fn constants_are_frozen() {
    let mut tree = ScopeTree::new();
    let root = tree.create_root();
    constants::declare(&mut tree, root).unwrap();
    let namespace = match tree.get(root, "constants") {
        Some(Value::Scope(id)) => *id,
        other => panic!("unexpected {:?}", other),
    };
    assert!(tree.is_frozen(namespace));
    assert!(!tree.is_frozen(root));
    assert_eq!(tree.declare(namespace, "maybe", Value::Bool(true)).unwrap_err().cause, Cause::FrozenScope);
}

#[test]
fn constants_cannot_be_declared_twice() {
    let mut tree = ScopeTree::new();
    let root = tree.create_root();
    constants::declare(&mut tree, root).unwrap();
    let e = constants::declare(&mut tree, root).unwrap_err();
    assert_eq!(e.cause, Cause::FrozenScope);
    assert_eq!(tree.len(), 2);
}

#[test]
fn constants_need_the_name_to_be_free() {
    let mut tree = ScopeTree::new();
    let root = tree.create_root();
    tree.declare(root, "constants", Value::Integer(0)).unwrap();
    let e = constants::declare(&mut tree, root).unwrap_err();
    assert_eq!((e.cause, e.subject.as_str()), (Cause::DuplicateName, "constants"));
}
