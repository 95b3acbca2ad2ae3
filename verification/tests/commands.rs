use crush::argument::{check_len_range, Argument};
use crush::commands::{sum, uniq};
use crush::errors::{Cause, CrushError, ErrorKind};
use crush::execution_context::{ExecutionContext, ValueReceiver};
use crush::stream::{OutputStream, Printer, Readable, RowsReader};
use crush::value::{
    find_field, find_field_from_str, ColumnType, InputStream, Row, Table, Value, ValueType,
};

fn columns() -> Vec<ColumnType> {
    vec![ColumnType::new("name", ValueType::Text), ColumnType::new("count", ValueType::Integer)]
}

fn row(name: &str, count: i128) -> Row {
    Row::new(vec![Value::Text(name.to_string()), Value::Integer(count)])
}

fn rows(data: &[(&str, i128)]) -> Vec<Row> {
    data.iter().map(|(n, c)| row(n, *c)).collect()
}

fn stream(data: &[(&str, i128)]) -> InputStream {
    InputStream::new(columns(), rows(data)).unwrap()
}

fn table(data: &[(&str, i128)]) -> Table {
    Table::new(columns(), rows(data)).unwrap()
}

fn drain(mut input: InputStream) -> Vec<(String, i128)> {
    let mut out = Vec::new();
    while let Ok(row) = input.read() {
        match (&row.cells[0], &row.cells[1]) {
            (Value::Text(n), Value::Integer(c)) => out.push((n.clone(), *c)),
            other => panic!("unexpected {:?}", other),
        }
    }
    out
}

fn pairs(data: &[(&str, i128)]) -> Vec<(String, i128)> {
    data.iter().map(|(n, c)| (n.to_string(), *c)).collect()
}

fn dedup(data: &[(&str, i128)], idx: Option<usize>) -> Vec<(String, i128)> {
    let mut input = stream(data);
    let mut output = OutputStream::new(columns());
    let mut printer = Printer::new();
    uniq::run(idx, &mut input, &mut output, &mut printer).unwrap();
    assert!(printer.errors.is_empty());
    assert!(input.read().is_err());
    drain(output.finish())
}

fn field(name: &str) -> Argument {
    Argument::unnamed(Value::Field(vec![name.to_string()]))
}

fn cause<T>(r: Result<T, CrushError>) -> Cause {
    match r {
        Ok(_) => panic!("expected an error"),
        Err(e) => e.cause,
    }
}

#[test]
fn rows_must_match_their_columns() {
    assert!(row("a", 1).matches(&columns()));
    assert!(!Row::new(vec![Value::Integer(1), Value::Integer(1)]).matches(&columns()));
    assert!(!Row::new(vec![Value::Text("a".to_string())]).matches(&columns()));
    let bad = vec![row("a", 1), Row::new(vec![Value::Integer(1), Value::Integer(2)])];
    assert_eq!(cause(Table::new(columns(), bad)), Cause::RowMismatch);
    let short = vec![Row::new(vec![Value::Text("a".to_string())])];
    assert_eq!(cause(InputStream::new(columns(), short)), Cause::RowMismatch);
    assert!(Table::new(columns(), Vec::new()).is_ok());
}

#[test]
fn table_keeps_rows_and_columns() {
    let t = table(&[("a", 1), ("b", 2)]);
    assert_eq!(t.rows().len(), 2);
    assert_eq!(t.types().len(), 2);
    assert_eq!(t.types()[1].name, "count");
    let copy = t.duplicate();
    assert_eq!(drain(InputStream::from_table(copy)), pairs(&[("a", 1), ("b", 2)]));
    assert_eq!(t.rows().len(), 2);
}

#[test]
fn stream_yields_rows_in_order_and_then_ends() {
    let mut input = stream(&[("a", 1), ("b", 2)]);
    assert!(matches!(&input.read().unwrap().cells[0], Value::Text(n) if n == "a"));
    assert!(matches!(&input.read().unwrap().cells[0], Value::Text(n) if n == "b"));
    let e = input.read().unwrap_err();
    assert_eq!(e.cause, Cause::EndOfStream);
    assert_eq!(input.read().unwrap_err().cause, Cause::EndOfStream);
    assert_eq!(input.types().len(), 2);
}

#[test]
fn rows_reader_reads_a_table() {
    let mut reader = RowsReader::new(table(&[("a", 1)]));
    assert_eq!(reader.types()[0].name, "name");
    assert!(reader.read().is_ok());
    assert_eq!(reader.read().unwrap_err().cause, Cause::EndOfStream);
}

#[test]
fn output_stream_checks_rows_at_the_boundary() {
    let mut output = OutputStream::new(columns());
    output.send(row("a", 1)).unwrap();
    let e = output.send(Row::new(vec![Value::Integer(1), Value::Integer(2)])).unwrap_err();
    assert_eq!(e.cause, Cause::RowMismatch);
    assert_eq!(e.kind(), ErrorKind::Type);
    assert_eq!(output.types().len(), 2);
    assert_eq!(drain(output.finish()), pairs(&[("a", 1)]));
}

#[test]
fn output_stream_fails_once_the_reader_is_gone() {
    let mut output = OutputStream::new(columns());
    output.send(row("a", 1)).unwrap();
    output.close();
    let e = output.send(row("b", 2)).unwrap_err();
    assert_eq!(e.cause, Cause::Disconnected);
    assert_eq!(e.kind(), ErrorKind::Runtime);
    assert_eq!(drain(output.finish()), pairs(&[("a", 1)]));
}

#[test]
fn columns_are_found_by_name() {
    assert_eq!(find_field_from_str("count", &columns()).unwrap(), 1);
    let e = find_field_from_str("size", &columns()).unwrap_err();
    assert_eq!((e.cause, e.subject.as_str()), (Cause::UnknownColumn, "size"));
    assert_eq!(find_field(&vec!["name".to_string()], &columns()).unwrap(), 0);
    assert_eq!(cause(find_field(&vec!["a".to_string(), "b".to_string()], &columns())), Cause::PathTooLong);
    assert_eq!(cause(find_field(&Vec::new(), &columns())), Cause::PathTooLong);
}

#[test]
fn first_column_of_a_name_is_found() {
    let twice = vec![
        ColumnType::new("x", ValueType::Text),
        ColumnType::new("x", ValueType::Integer),
    ];
    assert_eq!(find_field_from_str("x", &twice).unwrap(), 0);
}

#[test]
fn argument_count_is_checked() {
    let two = vec![field("a"), field("b")];
    assert!(check_len_range(&two, 0, 2).is_ok());
    assert_eq!(cause(check_len_range(&two, 0, 1)), Cause::WrongArgumentCount);
    assert_eq!(cause(check_len_range(&two, 3, 4)), Cause::WrongArgumentCount);
}

#[test]
fn uniq_takes_no_argument_or_one_column() {
    assert_eq!(uniq::parse(&columns(), Vec::new()).unwrap(), None);
    assert_eq!(uniq::parse(&columns(), vec![field("count")]).unwrap(), Some(1));
    let named = Argument::named("by", Value::Field(vec!["name".to_string()]));
    assert_eq!(uniq::parse(&columns(), vec![named]).unwrap(), Some(0));
}

#[test]
fn uniq_rejects_other_arguments() {
    assert_eq!(cause(uniq::parse(&columns(), vec![field("name"), field("count")])), Cause::WrongArgumentCount);
    assert_eq!(cause(uniq::parse(&columns(), vec![Argument::unnamed(Value::Integer(1))])), Cause::ExpectedField);
    let text = Argument::unnamed(Value::Text("name".to_string()));
    assert_eq!(cause(uniq::parse(&columns(), vec![text])), Cause::ExpectedField);
    let e = uniq::parse(&columns(), vec![field("size")]).unwrap_err();
    assert_eq!((e.cause, e.subject.as_str(), e.kind()), (Cause::UnknownColumn, "size", ErrorKind::Argument));
    let long = Argument::unnamed(Value::Field(vec!["a".to_string(), "b".to_string()]));
    assert_eq!(cause(uniq::parse(&columns(), vec![long])), Cause::PathTooLong);
}

#[test]
fn whole_rows_are_deduplicated() {
    let data = [("a", 1), ("b", 2), ("a", 1), ("a", 2), ("b", 2), ("c", 1)];
    assert_eq!(dedup(&data, None), pairs(&[("a", 1), ("b", 2), ("a", 2), ("c", 1)]));
}

#[test]
fn rows_are_deduplicated_by_a_column() {
    let data = [("a", 1), ("b", 2), ("a", 3), ("c", 1), ("b", 9)];
    assert_eq!(dedup(&data, Some(0)), pairs(&[("a", 1), ("b", 2), ("c", 1)]));
    assert_eq!(dedup(&data, Some(1)), pairs(&[("a", 1), ("b", 2), ("a", 3), ("b", 9)]));
}

#[test]
fn deduplication_keeps_the_order_of_first_occurrence() {
    let data = [("z", 1), ("a", 1), ("z", 2), ("m", 1), ("a", 2)];
    assert_eq!(dedup(&data, Some(0)), pairs(&[("z", 1), ("a", 1), ("m", 1)]));
}

#[test]
fn deduplication_is_idempotent() {
    let data = [("a", 1), ("b", 2), ("a", 3), ("c", 1), ("b", 9), ("a", 1)];
    for idx in [None, Some(0), Some(1)] {
        let once = dedup(&data, idx);
        let again: Vec<(&str, i128)> = once.iter().map(|(n, c)| (n.as_str(), *c)).collect();
        assert_eq!(dedup(&again, idx), once);
    }
}

#[test]
fn deduplication_of_nothing_is_nothing() {
    assert_eq!(dedup(&[], None), Vec::new());
    assert_eq!(dedup(&[], Some(1)), Vec::new());
}

#[test]
fn failed_sends_are_reported_and_the_scan_goes_on() {
    let mut input = stream(&[("a", 1), ("b", 2), ("a", 3), ("c", 4)]);
    let mut output = OutputStream::new(columns());
    output.close();
    let mut printer = Printer::new();
    uniq::run(Some(0), &mut input, &mut output, &mut printer).unwrap();
    assert_eq!(input.read().unwrap_err().cause, Cause::EndOfStream);
    let causes: Vec<Cause> = printer.errors.iter().map(|e| e.cause).collect();
    assert_eq!(causes, vec![Cause::Disconnected; 3]);
    assert!(drain(output.finish()).is_empty());
}

#[test]
fn rows_that_the_output_does_not_take_are_reported() {
    let mut input = stream(&[("a", 1), ("b", 2)]);
    let mut output = OutputStream::new(vec![ColumnType::new("only", ValueType::Text)]);
    let mut printer = Printer::new();
    uniq::run(None, &mut input, &mut output, &mut printer).unwrap();
    let causes: Vec<Cause> = printer.errors.iter().map(|e| e.cause).collect();
    assert_eq!(causes, vec![Cause::RowMismatch; 2]);
}

#[test]
fn values_of_every_kind_are_keys() {
    let types = || vec![ColumnType::new("items", ValueType::List), ColumnType::new("rows", ValueType::Rows)];
    let make = |items: Vec<i128>, inner: &[(&str, i128)]| {
        Row::new(vec![
            Value::List(items.into_iter().map(Value::Integer).collect()),
            Value::Rows(table(inner)),
        ])
    };
    let data = vec![
        make(vec![1, 2], &[("a", 1)]),
        make(vec![1, 2], &[("a", 1)]),
        make(vec![1], &[("a", 1)]),
        make(vec![1, 2], &[("a", 2)]),
        make(vec![1], &[("a", 1)]),
    ];
    let mut input = InputStream::new(types(), data).unwrap();
    let mut output = OutputStream::new(types());
    let mut printer = Printer::new();
    uniq::run(None, &mut input, &mut output, &mut printer).unwrap();
    let mut kept = output.finish();
    let mut lengths = Vec::new();
    while let Ok(row) = kept.read() {
        match &row.cells[0] {
            Value::List(items) => lengths.push(items.len()),
            other => panic!("unexpected {:?}", other),
        }
    }
    assert_eq!(lengths, vec![2, 1, 2]);
}

#[test]
fn rows_are_deduplicated_by_a_column_of_lists() {
    let types = || vec![ColumnType::new("items", ValueType::List)];
    let list = |items: &[i128]| Row::new(vec![Value::List(items.iter().map(|i| Value::Integer(*i)).collect())]);
    let data = vec![list(&[1]), list(&[]), list(&[1]), list(&[1, 1]), list(&[])];
    let mut input = InputStream::new(types(), data).unwrap();
    let mut output = OutputStream::new(types());
    let mut printer = Printer::new();
    uniq::run(Some(0), &mut input, &mut output, &mut printer).unwrap();
    let mut kept = output.finish();
    let mut n = 0;
    while kept.read().is_ok() {
        n += 1;
    }
    assert_eq!(n, 3);
}

#[test]
fn column_that_is_not_there_fails_at_the_first_row() {
    let mut input = stream(&[("a", 1), ("b", 2)]);
    let mut output = OutputStream::new(columns());
    let mut printer = Printer::new();
    let e = uniq::run(Some(3), &mut input, &mut output, &mut printer).unwrap_err();
    assert_eq!(e.cause, Cause::UnknownColumn);
    assert!(printer.errors.is_empty());
    assert_eq!(drain(input), pairs(&[("b", 2)]));
    assert!(drain(output.finish()).is_empty());
    let mut empty = stream(&[]);
    let mut output = OutputStream::new(columns());
    assert!(uniq::run(Some(3), &mut empty, &mut output, &mut printer).is_ok());
}

#[test]
fn values_are_compared_by_what_they_hold() {
    let list = |items: &[i128]| Value::List(items.iter().map(|i| Value::Integer(*i)).collect());
    assert!(list(&[1, 2]).same(&list(&[1, 2])));
    assert!(!list(&[1, 2]).same(&list(&[2, 1])));
    assert!(!list(&[1]).same(&Value::Integer(1)));
    assert!(Value::Rows(table(&[("a", 1)])).same(&Value::Rows(table(&[("a", 1)]))));
    assert!(!Value::Rows(table(&[("a", 1)])).same(&Value::Rows(table(&[("a", 2)]))));
    assert!(!Value::Rows(table(&[("a", 1)])).same(&Value::Stream(stream(&[("a", 1)]))));
    let mut read = stream(&[("x", 0), ("a", 1)]);
    read.read().unwrap();
    assert!(Value::Stream(read).same(&Value::Stream(stream(&[("a", 1)]))));
    assert!(Value::Text("a".to_string()).same(&Value::Text("a".to_string())));
    assert!(!Value::Text("a".to_string()).same(&Value::Glob("a".to_string())));
    let regex = |s: &str| Value::Regex(s.to_string(), regex::Regex::new(s).unwrap());
    assert!(regex("a+").same(&regex("a+")));
    assert!(!regex("a+").same(&regex("a*")));
    assert!(row("a", 1).same(&row("a", 1)));
    assert!(!row("a", 1).same(&row("a", 2)));
}

#[test]
fn keys_of_every_scalar_kind_are_compared() {
    let types = || {
        vec![
            ColumnType::new("b", ValueType::Bool),
            ColumnType::new("f", ValueType::Field),
            ColumnType::new("g", ValueType::Glob),
            ColumnType::new("o", ValueType::Op),
            ColumnType::new("s", ValueType::Scope),
            ColumnType::new("r", ValueType::Regex),
        ]
    };
    let make = |b: bool, f: &str, s: usize, r: &str| {
        Row::new(vec![
            Value::Bool(b),
            Value::Field(vec![f.to_string()]),
            Value::Glob("*".to_string()),
            Value::Op("==".to_string()),
            Value::Scope(s),
            Value::Regex(r.to_string(), regex::Regex::new(r).unwrap()),
        ])
    };
    let data = vec![
        make(true, "a", 1, "x+"),
        make(true, "a", 1, "x+"),
        make(false, "a", 1, "x+"),
        make(true, "b", 1, "x+"),
        make(true, "a", 2, "x+"),
        make(true, "a", 1, "y+"),
    ];
    let mut input = InputStream::new(types(), data).unwrap();
    let mut output = OutputStream::new(types());
    let mut printer = Printer::new();
    uniq::run(None, &mut input, &mut output, &mut printer).unwrap();
    let mut kept = output.finish();
    let mut n = 0;
    while kept.read().is_ok() {
        n += 1;
    }
    assert_eq!(n, 5);
}

#[test]
fn uniq_command_sends_a_stream() {
    let input = Value::Rows(table(&[("a", 1), ("b", 2), ("a", 5)]));
    let mut context = ExecutionContext::new(input, vec![field("name")], 0);
    uniq::uniq(&mut context).unwrap();
    assert!(context.printer.errors.is_empty());
    assert_eq!(context.output.sent.len(), 1);
    match context.output.sent.pop().unwrap() {
        Value::Stream(s) => assert_eq!(drain(s), pairs(&[("a", 1), ("b", 2)])),
        other => panic!("unexpected {:?}", other),
    }
}

#[test]
fn uniq_command_needs_rows() {
    let mut context = ExecutionContext::new(Value::Integer(1), Vec::new(), 0);
    let e = uniq::uniq(&mut context).unwrap_err();
    assert_eq!(e.cause, Cause::ExpectedInputStream);
    assert_eq!(e.message(), "Expected input to be a stream");
    assert_eq!(e.kind(), ErrorKind::Runtime);
    assert!(context.output.sent.is_empty());
    let mut context = ExecutionContext::new(Value::Integer(1), Vec::new(), 0);
    context.input = ValueReceiver::empty();
    assert_eq!(cause(uniq::uniq(&mut context)), Cause::NoInput);
    let mut context = ExecutionContext::new(Value::Stream(stream(&[("a", 1)])), Vec::new(), 0);
    context.output.connected = false;
    assert_eq!(cause(uniq::uniq(&mut context)), Cause::Disconnected);
}

#[test]
fn sum_without_arguments_needs_one_integer_column() {
    let one = vec![ColumnType::new("n", ValueType::Integer)];
    assert_eq!(sum::parse(&one, &Vec::new()).unwrap(), 0);
    assert_eq!(cause(sum::parse(&columns(), &Vec::new())), Cause::UnexpectedInputFormat);
    let text = vec![ColumnType::new("n", ValueType::Text)];
    assert_eq!(cause(sum::parse(&text, &Vec::new())), Cause::UnexpectedInputFormat);
    assert_eq!(cause(sum::parse(&Vec::new(), &Vec::new())), Cause::UnexpectedInputFormat);
}

#[test]
fn sum_with_one_argument_needs_a_column() {
    assert_eq!(sum::parse(&columns(), &vec![field("count")]).unwrap(), 1);
    let text = Argument::unnamed(Value::Text("count".to_string()));
    assert_eq!(cause(sum::parse(&columns(), &vec![text])), Cause::ExpectedField);
    let e = sum::parse(&columns(), &vec![field("size")]).unwrap_err();
    assert_eq!((e.cause, e.subject.as_str()), (Cause::UnknownColumn, "size"));
    let long = Argument::unnamed(Value::Field(vec!["a".to_string(), "b".to_string()]));
    assert_eq!(cause(sum::parse(&columns(), &vec![long])), Cause::PathTooLong);
    assert_eq!(cause(sum::parse(&columns(), &vec![Argument::unnamed(Value::Bool(true))])), Cause::ExpectedField);
    let e = sum::parse(&columns(), &vec![field("count"), field("count")]).unwrap_err();
    assert_eq!(e.cause, Cause::ExpectedOneField);
    assert_eq!(e.message(), "Expected exactly one argument, a field defintition");
    assert_eq!(e.kind(), ErrorKind::Argument);
}

#[test]
fn sum_refuses_a_column_that_holds_no_integers() {
    let e = sum::parse(&columns(), &vec![field("name")]).unwrap_err();
    assert_eq!(e.cause, Cause::UnexpectedInputFormat);
    assert_eq!(e.kind(), ErrorKind::Argument);
    let twice = vec![
        ColumnType::new("x", ValueType::Text),
        ColumnType::new("x", ValueType::Integer),
    ];
    assert_eq!(cause(sum::parse(&twice, &vec![field("x")])), Cause::UnexpectedInputFormat);
}

#[test]
fn sum_adds_up_a_column() {
    let total = sum::sum_rows(stream(&[("a", 1), ("b", 20), ("c", -5)]), 1).unwrap();
    assert!(matches!(total, Value::Integer(16)));
    assert!(matches!(sum::sum_rows(stream(&[]), 1).unwrap(), Value::Integer(0)));
    assert!(matches!(sum::sum_rows(RowsReader::new(table(&[("a", 7)])), 1).unwrap(), Value::Integer(7)));
}

#[test]
fn sum_does_not_depend_on_the_order_of_rows() {
    let one = sum::sum_rows(stream(&[("a", 1), ("b", 20), ("c", -5), ("d", 1000)]), 1).unwrap();
    let other = sum::sum_rows(stream(&[("d", 1000), ("c", -5), ("a", 1), ("b", 20)]), 1).unwrap();
    assert!(matches!((one, other), (Value::Integer(1016), Value::Integer(1016))));
}

#[test]
fn sum_fails_on_a_cell_that_is_no_integer() {
    let e = sum::sum_rows(stream(&[("a", 1), ("b", 2)]), 0).unwrap_err();
    assert_eq!(e.cause, Cause::ExpectedInteger);
    assert_eq!(e.kind(), ErrorKind::Type);
}

#[test]
fn sum_fails_when_a_partial_sum_does_not_fit() {
    let e = sum::sum_rows(stream(&[("a", i128::MAX), ("b", 1), ("c", -1)]), 1).unwrap_err();
    assert_eq!(e.cause, Cause::IntegerOverflow);
    let fine = sum::sum_rows(stream(&[("b", 1), ("c", -1), ("a", i128::MAX)]), 1).unwrap();
    assert!(matches!(fine, Value::Integer(i128::MAX)));
    let e = sum::sum_rows(stream(&[("a", i128::MIN), ("b", -1)]), 1).unwrap_err();
    assert_eq!(e.cause, Cause::IntegerOverflow);
}

#[test]
fn sum_command_sends_one_integer() {
    let input = Value::Stream(stream(&[("a", 1), ("b", 2), ("a", 5)]));
    let mut context = ExecutionContext::new(input, vec![field("count")], 0);
    sum::perform(&mut context).unwrap();
    assert_eq!(context.output.sent.len(), 1);
    assert!(matches!(context.output.sent[0], Value::Integer(8)));
    let input = Value::Rows(table(&[("a", 4)]));
    let mut context = ExecutionContext::new(input, vec![field("count")], 0);
    sum::perform(&mut context).unwrap();
    assert!(matches!(context.output.sent[0], Value::Integer(4)));
}

#[test]
fn sum_command_sends_nothing_on_an_error() {
    let input = Value::Stream(stream(&[("a", 1)]));
    let mut context = ExecutionContext::new(input, vec![field("name")], 0);
    assert_eq!(cause(sum::perform(&mut context)), Cause::UnexpectedInputFormat);
    assert!(context.output.sent.is_empty());
    let mut context = ExecutionContext::new(Value::Text("x".to_string()), Vec::new(), 0);
    let e = sum::perform(&mut context).unwrap_err();
    assert_eq!(e.cause, Cause::ExpectedStream);
    assert_eq!(e.message(), "Expected a stream");
    let mut context = ExecutionContext::new(Value::Bool(true), Vec::new(), 0);
    context.input = ValueReceiver::empty();
    assert_eq!(cause(sum::perform(&mut context)), Cause::NoInput);
    let mut context = ExecutionContext::new(Value::Stream(stream(&[("a", 1)])), vec![field("count")], 0);
    context.output.connected = false;
    assert_eq!(cause(sum::perform(&mut context)), Cause::Disconnected);
    assert!(context.output.sent.is_empty());
}

#[test]
fn printer_collects_what_is_reported() {
    let mut printer = Printer::new();
    printer.line("hello");
    assert_eq!(printer.handle_error(Ok::<i32, CrushError>(3)), Some(3));
    let failed: Result<i32, CrushError> = Err(CrushError {
        cause: Cause::NoInput,
        subject: String::new(),
        position: 0,
        detail: String::new(),
    });
    assert_eq!(printer.handle_error(failed), None);
    assert_eq!(printer.lines, vec!["hello"]);
    assert_eq!(printer.errors.len(), 1);
    assert_eq!(printer.errors[0].message(), "No input");
}
