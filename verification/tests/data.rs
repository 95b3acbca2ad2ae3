use crush::argument::{column_of, optional_field, Argument};
use crush::data::{
    copy_cells, copy_jobs, ArgumentDefinition, CallDefinition, CellDefinition, JobDefinition,
};
use crush::errors::{fail, fail_about, Cause, CrushError, ErrorKind};
use crush::lexer::TokenType;
use crush::job::{
    bind, build, build_stage, element_of, evaluate_all, evaluate_arguments, run_job, run_stage,
    run_stages, Command, JobContext, Registry, Stage,
};
use crush::scope::ScopeTree;
use crush::text::{copy_strings, from_chars, same_strings, to_chars};
use crush::value::{copy_columns, copy_rows, copy_values, ColumnType, Row, Value, ValueType};

fn words(parts: &[&str]) -> Vec<String> {
    parts.iter().map(|s| s.to_string()).collect()
}

fn call(name: &str, arguments: &[&str]) -> CallDefinition {
    let arguments = arguments
        .iter()
        .map(|a| ArgumentDefinition::unnamed(CellDefinition::text(a)))
        .collect();
    CallDefinition::new(words(&[name]), arguments)
}

#[test]
fn text_and_characters_convert_both_ways() {
    let chars = to_chars("añb");
    assert_eq!(chars, vec!['a', 'ñ', 'b']);
    assert_eq!(from_chars(&chars, 0, 3), "añb");
    assert_eq!(from_chars(&chars, 1, 2), "ñ");
    assert_eq!(from_chars(&chars, 2, 2), "");
}

#[test]
fn lists_of_strings_are_copied_and_compared() {
    let a = words(&["x", "y"]);
    let b = copy_strings(&a);
    assert_eq!(a, b);
    assert!(same_strings(&a, &b));
    assert!(!same_strings(&a, &words(&["x"])));
    assert!(!same_strings(&a, &words(&["x", "z"])));
    assert!(same_strings(&Vec::new(), &Vec::new()));
}

#[test]
fn definitions_are_built_from_their_parts() {
    assert!(matches!(CellDefinition::text("a"), CellDefinition::Text(t) if t == "a"));
    assert!(matches!(CellDefinition::op("<"), CellDefinition::Op(o) if o == "<"));
    assert!(matches!(CellDefinition::list(vec![CellDefinition::Integer(1)]), CellDefinition::List(l) if l.len() == 1));
    let job = JobDefinition::new(vec![call("ls", &["-l"]), call("wc", &[])]);
    assert_eq!(job.commands.len(), 2);
    assert_eq!(job.commands[0].name, ["ls"]);
    assert_eq!(job.commands[0].arguments.len(), 1);
    assert!(matches!(CellDefinition::closure(vec![job]), CellDefinition::ClosureDefinition(j) if j.len() == 1));
    let named = ArgumentDefinition::named("n", CellDefinition::Integer(3));
    assert_eq!(named.name.as_deref(), Some("n"));
    assert!(ArgumentDefinition::unnamed(CellDefinition::Integer(3)).name.is_none());
}

#[test]
fn definitions_are_compared_by_what_they_stand_for() {
    let job = JobDefinition::new(vec![call("ls", &["a", "b"])]);
    assert!(job.same(&job.duplicate()));
    assert!(!job.same(&JobDefinition::new(vec![call("ls", &["a"])])));
    assert!(!job.same(&JobDefinition::new(vec![call("ls", &["a", "c"])])));
    assert!(!job.same(&JobDefinition::new(vec![call("wc", &["a", "b"])])));
    let named = ArgumentDefinition::named("k", CellDefinition::Integer(1));
    assert!(named.same(&ArgumentDefinition::named("k", CellDefinition::Integer(1))));
    assert!(!named.same(&ArgumentDefinition::named("j", CellDefinition::Integer(1))));
    assert!(!named.same(&ArgumentDefinition::unnamed(CellDefinition::Integer(1))));
    let list = CellDefinition::list(vec![CellDefinition::text("x"), CellDefinition::Integer(2)]);
    assert!(list.same(&list.duplicate()));
    assert!(!list.same(&CellDefinition::list(vec![CellDefinition::text("x")])));
    assert!(!CellDefinition::text("x").same(&CellDefinition::Glob("x".to_string())));
    let index = |i| CellDefinition::ArrayVariable(words(&["v"]), Box::new(CellDefinition::Integer(i)));
    assert!(index(1).same(&index(1)));
    assert!(!index(1).same(&index(2)));
    let closure = |name: &str| CellDefinition::closure(vec![JobDefinition::new(vec![call(name, &[])])]);
    assert!(closure("a").same(&closure("a")));
    assert!(!closure("a").same(&closure("b")));
}

#[test]
fn definitions_are_copied_in_depth() {
    let job = JobDefinition::new(vec![call("ls", &["a", "b"])]);
    let jobs = vec![job.duplicate(), job];
    let copies = copy_jobs(&jobs);
    assert_eq!(format!("{:?}", jobs), format!("{:?}", copies));
    let cells = vec![CellDefinition::Integer(1), CellDefinition::Field(words(&["a", "b"]))];
    assert_eq!(format!("{:?}", cells), format!("{:?}", copy_cells(&cells)));
    let argument = ArgumentDefinition::named("k", CellDefinition::Glob("*".to_string()));
    assert_eq!(format!("{:?}", argument), format!("{:?}", argument.duplicate()));
    let one = call("x", &["y"]);
    assert_eq!(format!("{:?}", one), format!("{:?}", one.duplicate()));
}

#[test]
fn values_rows_and_columns_are_copied() {
    let values = vec![Value::Integer(1), Value::List(vec![Value::Text("t".to_string())])];
    assert_eq!(format!("{:?}", values), format!("{:?}", copy_values(&values)));
    let rows = vec![Row::new(vec![Value::Bool(true)]), Row::new(Vec::new())];
    assert_eq!(format!("{:?}", rows), format!("{:?}", copy_rows(&rows)));
    assert_eq!(format!("{:?}", rows[0]), format!("{:?}", rows[0].duplicate()));
    let columns = vec![ColumnType::new("a", ValueType::Bool)];
    let copies = copy_columns(&columns);
    assert_eq!(copies.len(), 1);
    assert_eq!(copies[0].name, "a");
    assert_eq!(copies[0].cell_type, ValueType::Bool);
    assert_eq!(columns[0].duplicate().name, "a");
}

#[test]
fn kinds_of_values() {
    assert_eq!(Value::Bool(true).value_type(), ValueType::Bool);
    assert_eq!(Value::Integer(1).value_type(), ValueType::Integer);
    assert_eq!(Value::Text(String::new()).value_type(), ValueType::Text);
    assert_eq!(Value::Field(Vec::new()).value_type(), ValueType::Field);
    assert_eq!(Value::Glob(String::new()).value_type(), ValueType::Glob);
    assert_eq!(Value::Op(String::new()).value_type(), ValueType::Op);
    assert_eq!(Value::List(Vec::new()).value_type(), ValueType::List);
    assert_eq!(Value::Scope(0).value_type(), ValueType::Scope);
    assert!(Value::Integer(1).readable().is_none());
}

#[test]
fn errors_are_made_with_and_without_a_subject() {
    let plain: Result<(), CrushError> = fail(Cause::NoInput);
    let e = plain.unwrap_err();
    assert_eq!((e.cause, e.subject.as_str(), e.position), (Cause::NoInput, "", 0));
    assert_eq!(e.detail, "");
    assert_eq!(e.message(), "No input");
    let about: Result<(), CrushError> = fail_about(Cause::UnknownName, "x");
    let e = about.unwrap_err();
    assert_eq!((e.cause, e.subject.as_str(), e.position), (Cause::UnknownName, "x", 0));
    assert_eq!(e.detail, "");
    assert_eq!(e.message(), "Unknown name: x");
    let detailed = CrushError {
        cause: Cause::InvalidRegex,
        subject: "(".to_string(),
        position: 2,
        detail: "unclosed group".to_string(),
    };
    assert_eq!(detailed.message(), "unclosed group");
    let silent = CrushError { detail: String::new(), ..detailed };
    assert_eq!(silent.message(), "Invalid regular expression: (");
    let other = CrushError {
        cause: Cause::BadExpression,
        subject: "x".to_string(),
        position: 0,
        detail: "why".to_string(),
    };
    assert_eq!(other.message(), "Cannot evaluate expression: x: why");
    let bare = CrushError { subject: String::new(), ..other };
    assert_eq!(bare.message(), "Cannot evaluate expression: why");
}

#[test]
fn every_cause_belongs_to_a_family() {
    let kind = |cause| {
        CrushError { cause, subject: String::new(), position: 0, detail: String::new() }.kind()
    };
    assert_eq!(kind(Cause::BadToken), ErrorKind::Lex);
    assert_eq!(kind(Cause::ExpectedListEnd), ErrorKind::Parse);
    assert_eq!(kind(Cause::ExpectedCommand), ErrorKind::Parse);
    assert_eq!(kind(Cause::UnknownToken(TokenType::Pipe)), ErrorKind::Parse);
    assert_eq!(kind(Cause::ExpectedOneField), ErrorKind::Argument);
    assert_eq!(kind(Cause::ExpectedInputStream), ErrorKind::Runtime);
    assert_eq!(kind(Cause::FrozenScope), ErrorKind::NameResolution);
    assert_eq!(kind(Cause::WrongArgumentCount), ErrorKind::Argument);
    assert_eq!(kind(Cause::IntegerOverflow), ErrorKind::Type);
    assert_eq!(kind(Cause::EmptyJob), ErrorKind::Construction);
    assert_eq!(kind(Cause::EndOfStream), ErrorKind::Runtime);
}

#[test]
fn arguments_name_columns() {
    assert_eq!(column_of(&Value::Field(words(&["a", "b"]))).unwrap(), ["a", "b"]);
    assert_eq!(column_of(&Value::Text("a".to_string())).unwrap_err().cause, Cause::ExpectedField);
    assert_eq!(column_of(&Value::Integer(1)).unwrap_err().cause, Cause::ExpectedField);
    let arguments = vec![Argument::unnamed(Value::Field(words(&["n"])))];
    assert_eq!(optional_field(&arguments, 0).unwrap(), Some(words(&["n"])));
    assert_eq!(optional_field(&arguments, 1).unwrap(), None);
    let text = vec![Argument::unnamed(Value::Text("n".to_string()))];
    assert_eq!(optional_field(&text, 0).unwrap_err().cause, Cause::ExpectedField);
}

#[test]
fn jobs_are_bound_in_order() {
    let jobs = bind(vec![JobDefinition::new(vec![call("a", &[])]), JobDefinition::new(vec![call("b", &[])])], 3);
    assert_eq!(jobs.len(), 2);
    assert_eq!(jobs[0].definition.commands[0].name, ["a"]);
    assert_eq!(jobs[1].definition.commands[0].name, ["b"]);
    assert_eq!((jobs[0].env, jobs[1].env), (3, 3));
    assert!(bind(Vec::new(), 0).is_empty());
}

#[test]
fn elements_of_lists_are_found_by_position() {
    let list = Value::List(vec![Value::Integer(5), Value::Integer(6)]);
    assert!(matches!(element_of(&list, &Value::Integer(0)), Ok(Value::Integer(5))));
    assert_eq!(element_of(&list, &Value::Integer(2)).unwrap_err().cause, Cause::BadExpression);
    assert_eq!(element_of(&list, &Value::Text("0".to_string())).unwrap_err().cause, Cause::BadExpression);
    assert_eq!(element_of(&Value::Integer(1), &Value::Integer(0)).unwrap_err().cause, Cause::BadExpression);
}

#[test]
fn expressions_and_arguments_are_evaluated_in_order() {
    let tree = ScopeTree::new();
    let registry = Registry::builtin();
    let cells = vec![CellDefinition::Integer(1), CellDefinition::text("x")];
    let values = evaluate_all(&cells, &registry, &tree, 0).unwrap();
    assert!(matches!(values.as_slice(), [Value::Integer(1), Value::Text(_)]));
    let failing = vec![CellDefinition::Variable(words(&["a"])), CellDefinition::Variable(words(&["b"]))];
    assert_eq!(evaluate_all(&failing, &registry, &tree, 0).unwrap_err().subject, "a");
    let arguments = vec![
        ArgumentDefinition::named("k", CellDefinition::Integer(1)),
        ArgumentDefinition::unnamed(CellDefinition::Integer(2)),
    ];
    let values = evaluate_arguments(&arguments, &registry, &tree, 0).unwrap();
    assert_eq!(values[0].name.as_deref(), Some("k"));
    assert!(values[1].name.is_none());
    assert!(matches!(values[1].value, Value::Integer(2)));
}

#[test]
fn stages_are_built_before_anything_runs() {
    let tree = ScopeTree::new();
    let registry = Registry::builtin();
    let stage = build_stage(&call("sum", &["n"]), &registry, &tree, 0).unwrap();
    assert_eq!(stage.command, Command::Sum);
    assert_eq!(stage.arguments.len(), 1);
    let job = JobDefinition::new(vec![call("uniq", &[]), call("sum", &[])]);
    assert_eq!(build(&job, &registry, &tree, 0).unwrap().len(), 2);
    let empty = JobDefinition::new(Vec::new());
    assert!(matches!(build(&empty, &registry, &tree, 0), Err(e) if e.cause == Cause::EmptyJob));
    let handle = job.invoke(JobContext::new(None, 0), &registry, &tree).unwrap();
    let (stages, input, env) = handle.into_parts();
    assert_eq!((stages.len(), input.is_none(), env), (2, true, 0));
    let handle = job.invoke(JobContext::new(Some(Value::Integer(1)), 5), &registry, &tree).unwrap();
    let (_, input, env) = handle.into_parts();
    assert_eq!((input.is_some(), env), (true, 5));
}

#[test]
fn stages_hand_their_output_on() {
    let forward = || Stage { command: Command::Forward, arguments: Vec::new() };
    assert!(matches!(run_stage(forward(), Some(Value::Integer(4)), 0), Ok(Value::Integer(4))));
    assert!(matches!(run_stage(forward(), None, 0), Err(e) if e.cause == Cause::NoInput));
    assert!(matches!(run_stages(vec![forward(), forward()], Some(Value::Integer(4)), 0), Ok(Some(Value::Integer(4)))));
    assert!(matches!(run_stages(Vec::new(), None, 0), Ok(None)));
    let sum = Stage { command: Command::Sum, arguments: Vec::new() };
    assert!(matches!(run_stages(vec![forward(), sum], Some(Value::Integer(4)), 0), Err(e) if e.cause == Cause::ExpectedStream));
}

#[test]
fn job_runs_from_definition_to_result() {
    let tree = ScopeTree::new();
    let mut registry = Registry::new();
    registry.register(words(&["pass"]), Command::Forward);
    let job = JobDefinition::new(vec![call("pass", &[]), call("pass", &[])]);
    let result = run_job(&job, &registry, &tree, 0, Some(Value::Bool(true)));
    assert!(matches!(result, Ok(Some(Value::Bool(true)))));
}
