use crush::data::CellDefinition;
use crush::errors::{Cause, ErrorKind};
use crush::job::{call_closure, evaluate, Command, JobContext, Registry};
use crush::value::Closure;
use crush::lang::parser::parse;
use crush::lexer::Lexer;
use crush::parser::parse_unnamed_argument;
use crush::scope::ScopeTree;
use crush::stream::Printer;
use crush::value::{ColumnType, Row, Table, Value, ValueType};

fn listing() -> Value {
    let types = vec![
        ColumnType::new("name", ValueType::Text),
        ColumnType::new("count", ValueType::Integer),
    ];
    let rows = vec![
        Row::new(vec![Value::Text("a".to_string()), Value::Integer(1)]),
        Row::new(vec![Value::Text("b".to_string()), Value::Integer(2)]),
        Row::new(vec![Value::Text("a".to_string()), Value::Integer(5)]),
    ];
    Value::Rows(Table::new(types, rows).unwrap())
}

fn registry() -> Registry {
    let mut registry = Registry::builtin();
    registry.register(vec!["ls".to_string()], Command::Forward);
    registry
}

fn cell(text: &str) -> CellDefinition {
    let mut lexer = Lexer::with_separator(text, '/');
    parse_unnamed_argument(&mut lexer).unwrap()
}

fn run(text: &str, input: Option<Value>) -> (Option<Value>, Printer) {
    let mut tree = ScopeTree::new();
    let env = tree.create_root();
    let jobs = parse(text, env).unwrap();
    assert_eq!(jobs.len(), 1);
    let mut printer = Printer::new();
    let handle = jobs[0]
        .definition
        .invoke(JobContext::new(input, jobs[0].env), &registry(), &tree)
        .unwrap();
    let result = handle.join(&mut printer);
    (result, printer)
}

#[test]
fn pipeline_text_parses_to_three_stages() {
    let jobs = parse("ls | uniq name | sum count", 0).unwrap();
    assert_eq!(jobs.len(), 1);
    let commands = &jobs[0].definition.commands;
    assert_eq!(commands.len(), 3);
    assert_eq!(commands[0].name, ["ls"]);
    assert_eq!(commands[1].name, ["uniq"]);
    assert_eq!(commands[2].name, ["sum"]);
    assert!(matches!(&commands[1].arguments[0].cell, CellDefinition::Text(t) if t == "name"));
    assert!(matches!(&commands[2].arguments[0].cell, CellDefinition::Text(t) if t == "count"));
}

#[test]
fn listing_is_deduplicated_and_summed() {
    let (result, printer) = run("ls | uniq %name | sum %count", Some(listing()));
    assert!(matches!(result, Some(Value::Integer(3))));
    assert!(printer.errors.is_empty());
}

#[test]
fn literal_text_names_no_column() {
    let (result, printer) = run("ls | uniq name | sum count", Some(listing()));
    assert!(result.is_none());
    assert_eq!(printer.errors.len(), 1);
    assert_eq!(printer.errors[0].cause, Cause::ExpectedField);
    assert_eq!(printer.errors[0].kind(), ErrorKind::Argument);
}

#[test]
fn sum_without_deduplication_counts_every_row() {
    let (result, _) = run("ls | sum %count", Some(listing()));
    assert!(matches!(result, Some(Value::Integer(8))));
}

#[test]
fn unknown_command_stops_the_job_before_it_starts() {
    let mut tree = ScopeTree::new();
    let env = tree.create_root();
    let jobs = parse("ls | nosuch/thing x | sum %count", env).unwrap();
    let e = match jobs[0].definition.invoke(JobContext::new(Some(listing()), env), &registry(), &tree) {
        Ok(_) => panic!("expected an error"),
        Err(e) => e,
    };
    assert_eq!(e.cause, Cause::UnknownCommand);
    assert_eq!(e.subject, "nosuch/thing");
    assert_eq!(e.kind(), ErrorKind::Construction);
}

#[test]
fn error_in_a_stage_is_reported_at_join() {
    let (result, printer) = run("ls | sum %name", Some(listing()));
    assert!(result.is_none());
    assert_eq!(printer.errors.len(), 1);
    assert_eq!(printer.errors[0].cause, Cause::UnexpectedInputFormat);
}

#[test]
fn first_stage_without_input_fails() {
    let (result, printer) = run("ls | sum %count", None);
    assert!(result.is_none());
    assert_eq!(printer.errors[0].cause, Cause::NoInput);
}

#[test]
fn first_registration_of_a_name_wins() {
    let mut registry = Registry::builtin();
    registry.register(vec!["sum".to_string()], Command::Forward);
    assert_eq!(registry.find(&vec!["sum".to_string()]), Some(Command::Sum));
    assert_eq!(registry.find(&vec!["uniq".to_string()]), Some(Command::Uniq));
    assert_eq!(registry.find(&vec!["ls".to_string()]), None);
    assert_eq!(Registry::new().find(&vec!["sum".to_string()]), None);
}

#[test]
fn literals_evaluate_to_themselves() {
    let tree = ScopeTree::new();
    let registry = registry();
    assert!(matches!(evaluate(&cell("abc"), &registry, &tree, 0), Ok(Value::Text(t)) if t == "abc"));
    assert!(matches!(evaluate(&cell("12"), &registry, &tree, 0), Ok(Value::Integer(12))));
    assert!(matches!(evaluate(&cell("*.c"), &registry, &tree, 0), Ok(Value::Glob(g)) if g == "*.c"));
    assert!(matches!(evaluate(&cell("%a/b"), &registry, &tree, 0), Ok(Value::Field(p)) if p == ["a", "b"]));
    assert!(matches!(evaluate(&cell(">="), &registry, &tree, 0), Ok(Value::Op(o)) if o == ">="));
    assert!(matches!(evaluate(&cell("r{a.c}"), &registry, &tree, 0), Ok(Value::Regex(s, r)) if s == "a.c" && r.is_match("abc")));
    assert!(matches!(evaluate(&cell("[1 [2]]"), &registry, &tree, 0), Ok(Value::List(items)) if items.len() == 2));
}

#[test]
fn variables_are_read_from_the_scope() {
    let mut tree = ScopeTree::new();
    let root = tree.create_root();
    let child = tree.create_child(root, false);
    let space = tree.create_namespace(root, "ns").unwrap();
    tree.declare(space, "x", Value::Integer(4)).unwrap();
    tree.declare(root, "items", Value::List(vec![Value::Integer(10), Value::Integer(20)])).unwrap();
    let registry = registry();
    assert!(matches!(evaluate(&cell("$ns/x"), &registry, &tree, child), Ok(Value::Integer(4))));
    assert!(matches!(evaluate(&cell("@items[1]"), &registry, &tree, child), Ok(Value::Integer(20))));
    assert_eq!(evaluate(&cell("@items[2]"), &registry, &tree, child).unwrap_err().cause, Cause::BadExpression);
    assert_eq!(evaluate(&cell("@items[-1]"), &registry, &tree, child).unwrap_err().cause, Cause::BadExpression);
    assert_eq!(evaluate(&cell("@items[x]"), &registry, &tree, child).unwrap_err().cause, Cause::BadExpression);
    let e = evaluate(&cell("$nothing"), &registry, &tree, child).unwrap_err();
    assert_eq!((e.cause, e.subject.as_str()), (Cause::UnknownName, "nothing"));
    assert!(matches!(tree.get(root, "items"), Some(Value::List(items)) if items.len() == 2));
}

#[test]
fn closure_holds_the_scope_in_which_it_was_written() {
    let mut tree = ScopeTree::new();
    let root = tree.create_root();
    let child = tree.create_child(root, false);
    match evaluate(&cell("`{ls; sum count}"), &registry(), &tree, child) {
        Ok(Value::Closure(closure)) => {
            assert_eq!(closure.scope, child);
            assert_eq!(closure.jobs.len(), 2);
        }
        other => panic!("unexpected {:?}", other),
    }
}

#[test]
fn nested_job_runs_when_its_argument_is_evaluated() {
    let tree = ScopeTree::new();
    let e = evaluate(&cell("{ls}"), &registry(), &tree, 0).unwrap_err();
    assert_eq!(e.cause, Cause::NoInput);
    let e = evaluate(&cell("{nosuch}"), &registry(), &tree, 0).unwrap_err();
    assert_eq!(e.cause, Cause::UnknownCommand);
}

#[test]
fn argument_errors_stop_the_job_before_it_starts() {
    let mut tree = ScopeTree::new();
    let env = tree.create_root();
    let jobs = parse("ls | uniq $missing", env).unwrap();
    let e = match jobs[0].definition.invoke(JobContext::new(Some(listing()), env), &registry(), &tree) {
        Ok(_) => panic!("expected an error"),
        Err(e) => e,
    };
    assert_eq!(e.cause, Cause::UnknownName);
}

#[test]
fn values_are_copied_in_depth() {
    let first = listing();
    let copy = first.duplicate();
    match (first, copy) {
        (Value::Rows(a), Value::Rows(b)) => {
            assert_eq!(a.rows().len(), b.rows().len());
            assert_eq!(format!("{:?}", a), format!("{:?}", b));
        }
        other => panic!("unexpected {:?}", other),
    }
    let definition = cell("[a {ls | sum x} `{ls} @v[1] r{x}]");
    assert_eq!(format!("{:?}", definition), format!("{:?}", definition.duplicate()));
}

fn closure(text: &str, tree: &ScopeTree, env: usize) -> Closure {
    match evaluate(&cell(text), &registry(), tree, env) {
        Ok(Value::Closure(closure)) => closure,
        other => panic!("unexpected {:?}", other),
    }
}

#[test]
fn closure_call_reads_names_where_the_closure_was_written() {
    let mut tree = ScopeTree::new();
    let root = tree.create_root();
    let defining = tree.create_child(root, false);
    tree.declare(defining, "x", Value::Text("count".to_string())).unwrap();
    let caller = tree.create_child(root, false);
    let written_where_x_is = closure("`{ls $x}", &tree, defining);
    let written_elsewhere = closure("`{ls $x}", &tree, caller);
    tree.declare(caller, "y", Value::Integer(2)).unwrap();

    let before = tree.len();
    let e = call_closure(&written_where_x_is, &registry(), &mut tree).unwrap_err();
    assert_eq!(e.cause, Cause::NoInput);
    assert_eq!(tree.len(), before + 1);

    let e = call_closure(&written_elsewhere, &registry(), &mut tree).unwrap_err();
    assert_eq!((e.cause, e.subject.as_str()), (Cause::UnknownName, "x"));
    assert_eq!(tree.len(), before + 2);
}

#[test]
fn closure_without_jobs_gives_nothing() {
    let mut tree = ScopeTree::new();
    let root = tree.create_root();
    let empty = Closure { jobs: Vec::new(), scope: root };
    assert!(matches!(call_closure(&empty, &registry(), &mut tree), Ok(None)));
    assert_eq!(tree.len(), 2);
    assert!(tree.get(1, "anything").is_none());
}
