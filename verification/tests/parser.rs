use crush::data::{ArgumentDefinition, CallDefinition, CellDefinition, JobDefinition};
use crush::errors::{Cause, ErrorKind};
use crush::lang;
use crush::lexer::{Lexer, TokenType};
use crush::render::render;
use crush::parser::{
    parse, parse_argument, parse_arguments, parse_command, parse_job, parse_unnamed_argument,
    regex_cell,
};

fn jobs(text: &str) -> Vec<JobDefinition> {
    let mut lexer = Lexer::new(text);
    parse(&mut lexer).unwrap()
}

fn failure(text: &str) -> (Cause, String, usize) {
    let mut lexer = Lexer::new(text);
    let e = parse(&mut lexer).unwrap_err();
    (e.cause, e.subject, e.position)
}

fn cell(text: &str) -> CellDefinition {
    let mut lexer = Lexer::new(text);
    parse_unnamed_argument(&mut lexer).unwrap()
}

fn cell_failure(text: &str) -> (Cause, String, usize) {
    let mut lexer = Lexer::new(text);
    let e = parse_unnamed_argument(&mut lexer).unwrap_err();
    (e.cause, e.subject, e.position)
}

fn name(call: &CallDefinition) -> Vec<&str> {
    call.name.iter().map(|s| s.as_str()).collect()
}

fn text_of(argument: &ArgumentDefinition) -> &str {
    match &argument.cell {
        CellDefinition::Text(t) => t.as_str(),
        other => panic!("expected text, found {:?}", other),
    }
}

#[test]
fn one_command_without_arguments() {
    let parsed = jobs("ls");
    assert_eq!(parsed.len(), 1);
    assert_eq!(parsed[0].commands.len(), 1);
    assert_eq!(name(&parsed[0].commands[0]), vec!["ls"]);
    assert!(parsed[0].commands[0].arguments.is_empty());
}

#[test]
fn pipeline_of_three_stages() {
    let parsed = jobs("ls | uniq name | sum count");
    assert_eq!(parsed.len(), 1);
    let commands = &parsed[0].commands;
    assert_eq!(commands.len(), 3);
    assert_eq!(name(&commands[0]), vec!["ls"]);
    assert_eq!(name(&commands[1]), vec!["uniq"]);
    assert_eq!(name(&commands[2]), vec!["sum"]);
    assert_eq!(commands[0].arguments.len(), 0);
    assert_eq!(commands[1].arguments.len(), 1);
    assert_eq!(text_of(&commands[1].arguments[0]), "name");
    assert!(commands[1].arguments[0].name.is_none());
    assert_eq!(text_of(&commands[2].arguments[0]), "count");
}

#[test]
fn jobs_are_separated_by_semicolons() {
    let parsed = jobs("a x; b | c; d");
    assert_eq!(parsed.len(), 3);
    assert_eq!(parsed[0].commands.len(), 1);
    assert_eq!(parsed[1].commands.len(), 2);
    assert_eq!(name(&parsed[2].commands[0]), vec!["d"]);
}

#[test]
fn command_names_are_paths() {
    let parsed = jobs("a.b.c x");
    assert_eq!(name(&parsed[0].commands[0]), vec!["a", "b", "c"]);
    let mut lexer = Lexer::with_separator("a/b x", '/');
    let parsed = parse(&mut lexer).unwrap();
    assert_eq!(name(&parsed[0].commands[0]), vec!["a", "b"]);
}

#[test]
fn command_name_with_empty_segment_is_rejected() {
    assert_eq!(failure("a..b x"), (Cause::IllegalCommandName, "a..b".to_string(), 0));
    assert_eq!(failure("ls | .b"), (Cause::IllegalCommandName, ".b".to_string(), 5));
}

#[test]
fn job_must_start_with_a_command_name() {
    assert_eq!(failure("| ls"), (Cause::ExpectedCommandName, "|".to_string(), 0));
    assert_eq!(failure(""), (Cause::ExpectedCommandName, "".to_string(), 0));
    assert_eq!(failure("ls;"), (Cause::ExpectedCommandName, "".to_string(), 3));
    assert_eq!(failure("ls | 5"), (Cause::ExpectedCommand, "5".to_string(), 5));
    let mut commands = Vec::new();
    let mut lexer = Lexer::new("5");
    let e = parse_command(&mut lexer, &mut commands).unwrap_err();
    assert_eq!(e.message(), "Expected command name: 5");
    let mut lexer = Lexer::new("5");
    assert_eq!(parse(&mut lexer).unwrap_err().message(), "Wrong token type, expected command name: 5");
}

#[test]
fn bad_token_stops_the_parse() {
    let mut lexer = Lexer::new("ls # x");
    assert_eq!(parse(&mut lexer).unwrap_err().detail, "");
    let (cause, subject, position) = failure("ls # x");
    assert_eq!(cause, Cause::BadToken);
    assert_eq!(subject, "#");
    assert_eq!(position, 3);
}

#[test]
fn named_argument_needs_a_word_directly_before_the_assign() {
    let parsed = jobs("head lines=10 x");
    let arguments = &parsed[0].commands[0].arguments;
    assert_eq!(arguments.len(), 2);
    assert_eq!(arguments[0].name.as_deref(), Some("lines"));
    assert!(matches!(arguments[0].cell, CellDefinition::Integer(10)));
    assert!(arguments[1].name.is_none());
    assert_eq!(text_of(&arguments[1]), "x");
}

#[test]
fn assign_after_another_expression_is_not_a_name_binding() {
    let (cause, subject, _) = failure("head 10 = 5");
    assert_eq!(cause, Cause::UnknownToken(TokenType::Assign));
    assert_eq!(subject, "5");
    let mut lexer = Lexer::new("head 10 = 5");
    assert_eq!(parse(&mut lexer).unwrap_err().message(), "Unknown token Assign: 5");
}

#[test]
fn literal_kinds() {
    assert!(matches!(cell("abc"), CellDefinition::Text(t) if t == "abc"));
    assert!(matches!(cell("42"), CellDefinition::Integer(42)));
    assert!(matches!(cell("-42"), CellDefinition::Integer(-42)));
    assert!(matches!(cell("*.rs"), CellDefinition::Glob(g) if g == "*.rs"));
    assert!(matches!(cell("=="), CellDefinition::Op(o) if o == "=="));
    assert!(matches!(cell("!~"), CellDefinition::Op(o) if o == "!~"));
    assert!(matches!(cell(r#""a\tb""#), CellDefinition::Text(t) if t == "a\tb"));
}

#[test]
fn integer_with_trailing_text_is_invalid() {
    let (cause, _, _) = cell_failure("12ab");
    assert_eq!(cause, Cause::InvalidNumber);
}

#[test]
fn integer_that_does_not_fit_is_invalid() {
    let (cause, _, _) = cell_failure("170141183460469231731687303715884105728");
    assert_eq!(cause, Cause::InvalidNumber);
}

#[test]
fn fields_and_variables_are_paths() {
    assert!(matches!(cell("%name"), CellDefinition::Field(p) if p == ["name"]));
    assert!(matches!(cell("$a.b"), CellDefinition::Variable(p) if p == ["a", "b"]));
}

#[test]
fn reference_with_empty_segment_is_rejected() {
    assert_eq!(cell_failure("$a..b"), (Cause::IllegalVariableName, "$a..b".to_string(), 0));
    assert_eq!(cell_failure("$"), (Cause::IllegalVariableName, "$".to_string(), 0));
    assert_eq!(cell_failure("%.a").0, Cause::IllegalVariableName);
}

#[test]
fn indexed_variable_needs_both_brackets() {
    match cell("@rows[3]") {
        CellDefinition::ArrayVariable(path, index) => {
            assert_eq!(path, ["rows"]);
            assert!(matches!(*index, CellDefinition::Integer(3)));
        }
        other => panic!("unexpected {:?}", other),
    }
    assert_eq!(cell_failure("@rows 3").0, Cause::ExpectedListStart);
    assert_eq!(cell_failure("@rows[3").0, Cause::ExpectedListEnd);
    assert_eq!(cell_failure("@rows[3 4]").0, Cause::ExpectedListEnd);
}

#[test]
fn lists_hold_expressions() {
    match cell("[1 two [3]]") {
        CellDefinition::List(items) => {
            assert_eq!(items.len(), 3);
            assert!(matches!(items[0], CellDefinition::Integer(1)));
            assert!(matches!(&items[1], CellDefinition::Text(t) if t == "two"));
            assert!(matches!(&items[2], CellDefinition::List(inner) if inner.len() == 1));
        }
        other => panic!("unexpected {:?}", other),
    }
    assert!(matches!(cell("[]"), CellDefinition::List(items) if items.is_empty()));
}

#[test]
fn unterminated_list_is_rejected() {
    assert_eq!(cell_failure("[1 2").0, Cause::UnknownToken(TokenType::EOF));
}

#[test]
fn job_capture_holds_one_job() {
    match cell("{ls | wc}") {
        CellDefinition::JobDefinition(job) => assert_eq!(job.commands.len(), 2),
        other => panic!("unexpected {:?}", other),
    }
}

#[test]
fn unterminated_block_is_rejected() {
    assert_eq!(cell_failure("{ls"), (Cause::ExpectedBlockEnd, "".to_string(), 3));
    assert_eq!(cell_failure("`{ls | wc"), (Cause::ExpectedBlockEnd, "".to_string(), 9));
    assert_eq!(failure("echo {ls {wc}").0, Cause::ExpectedBlockEnd);
    let mut lexer = Lexer::new("echo {ls");
    assert_eq!(parse(&mut lexer).unwrap_err().kind(), ErrorKind::Parse);
}

#[test]
fn field_token_is_taken_whether_its_name_is_legal_or_not() {
    let mut lexer = Lexer::new("%a..b next");
    assert!(parse_unnamed_argument(&mut lexer).is_err());
    assert_eq!(lexer.peek().1, "next");
    let mut lexer = Lexer::new("$a.b next");
    assert!(parse_unnamed_argument(&mut lexer).is_ok());
    assert_eq!(lexer.peek().1, "next");
}

#[test]
fn failed_command_is_not_collected() {
    let mut commands = Vec::new();
    let mut lexer = Lexer::new("ls a | wc $x..y | more");
    assert!(parse_job(&mut lexer, &mut commands).is_err());
    assert_eq!(commands.len(), 1);
    assert_eq!(commands[0].name, ["ls"]);
    let mut lexer = Lexer::new("wc 12x");
    assert!(parse_command(&mut lexer, &mut commands).is_err());
    assert_eq!(commands.len(), 1);
    let mut arguments = Vec::new();
    let mut lexer = Lexer::new("a b=1 12x c");
    assert!(parse_arguments(&mut lexer, &mut arguments).is_err());
    assert_eq!(arguments.len(), 2);
}

#[test]
fn block_must_end_where_its_job_ends() {
    assert_eq!(cell_failure("{ls; wc}"), (Cause::ExpectedBlockEnd, ";".to_string(), 3));
    assert_eq!(cell_failure("`{ls | wc]}").0, Cause::UnknownToken(TokenType::ListEnd));
}

#[test]
fn closure_holds_jobs() {
    match cell("`{ls; wc -l}") {
        CellDefinition::ClosureDefinition(jobs) => {
            assert_eq!(jobs.len(), 2);
            assert_eq!(jobs[1].commands[0].arguments.len(), 1);
        }
        other => panic!("unexpected {:?}", other),
    }
}

#[test]
fn glob_block_holds_one_glob() {
    assert!(matches!(cell("*{*.txt}"), CellDefinition::Glob(g) if g == "*.txt"));
    assert_eq!(cell_failure("*{abc}").0, Cause::ExpectedGlob);
    assert_eq!(cell_failure("*{*.txt x}").0, Cause::ExpectedBlockEnd);
}

#[test]
fn regex_is_compiled_when_it_is_parsed() {
    match cell("r{a+b}") {
        CellDefinition::Regex(source, compiled) => {
            assert_eq!(source, "a+b");
            assert!(compiled.is_match("xaaab"));
            assert!(!compiled.is_match("b"));
        }
        other => panic!("unexpected {:?}", other),
    }
}

#[test]
fn regex_that_does_not_compile_is_a_parse_error() {
    let mut lexer = Lexer::new("grep r{a(b}");
    let e = parse(&mut lexer).unwrap_err();
    assert_eq!(e.cause, Cause::InvalidRegex);
    assert_eq!(e.subject, "a(b");
    assert_eq!(e.position, 5);
    assert_eq!(e.kind(), ErrorKind::Parse);
    assert_eq!(e.detail, regex::Regex::new("a(b").unwrap_err().to_string());
    assert!(e.detail.contains("unclosed group"));
    assert_eq!(e.message(), e.detail);
}

#[test]
fn regex_cell_follows_the_compiler() {
    let compiled = regex::Regex::new("x+");
    assert!(matches!(regex_cell("x+", compiled, 3), Ok(CellDefinition::Regex(s, _)) if s == "x+"));
    let e = regex_cell("(", regex::Regex::new("("), 7).unwrap_err();
    assert_eq!((e.cause, e.subject.as_str(), e.position), (Cause::InvalidRegex, "(", 7));
    assert!(!e.detail.is_empty());
}

#[test]
fn token_that_starts_no_expression_is_rejected() {
    assert_eq!(cell_failure("]").0, Cause::UnknownToken(TokenType::ListEnd));
    assert_eq!(cell_failure("").0, Cause::UnknownToken(TokenType::EOF));
    assert_eq!(cell_failure("|").0, Cause::UnknownToken(TokenType::Pipe));
    assert_eq!(cell_failure("}").0, Cause::UnknownToken(TokenType::BlockEnd));
}

#[test]
fn parse_argument_reads_names() {
    let mut lexer = Lexer::new("a=%b");
    let argument = parse_argument(&mut lexer).unwrap();
    assert_eq!(argument.name.as_deref(), Some("a"));
    assert!(matches!(argument.cell, CellDefinition::Field(_)));
}

#[test]
fn parse_stops_at_the_end_of_a_block() {
    let mut lexer = Lexer::new("ls } more");
    let parsed = parse(&mut lexer).unwrap();
    assert_eq!(parsed.len(), 1);
    assert_eq!(lexer.peek().1, "}");
}

#[test]
fn text_must_hold_jobs_and_nothing_else() {
    let e = lang::parser::parse("ls }", 0).unwrap_err();
    assert_eq!(e.cause, Cause::WrongTokenType);
    assert_eq!(e.position, 3);
}

#[test]
fn parsed_jobs_are_bound_to_the_scope() {
    let jobs = lang::parser::parse("a/b x | c; d", 7).unwrap();
    assert_eq!(jobs.len(), 2);
    assert!(jobs.iter().all(|j| j.env == 7));
    assert_eq!(name(&jobs[0].definition.commands[0]), vec!["a", "b"]);
}

#[test]
fn errors_describe_themselves() {
    let e = lang::parser::parse("a//b", 0).unwrap_err();
    assert_eq!(e.kind(), ErrorKind::Parse);
    assert_eq!(e.message(), "Illegal command name: a//b");
}

#[test]
fn rendering_and_parsing_roundtrip() {
    let text = "ls -l /tmp 12 | grep foo -7 | sort name ; fs.find . x 0 ; echo ";
    let first = jobs(text);
    assert_eq!(render(&first, '.').unwrap(), text);
    let second = jobs(&render(&first, '.').unwrap());
    assert_eq!(format!("{:?}", first), format!("{:?}", second));
    assert!(matches!(first[0].commands[0].arguments[2].cell, CellDefinition::Integer(12)));
    assert!(matches!(first[0].commands[1].arguments[1].cell, CellDefinition::Integer(-7)));
}

#[test]
fn only_literal_positional_arguments_are_rendered() {
    assert_eq!(render(&jobs("ls a=b"), '.'), None);
    assert_eq!(render(&jobs("ls x | wc %f"), '.'), None);
    assert_eq!(render(&jobs("ls [1]"), '.'), None);
    assert_eq!(render(&Vec::new(), '.'), Some(String::new()));
    assert_eq!(render(&jobs("a.b c"), '.').unwrap(), "a.b c ");
    let mut lexer = Lexer::with_separator("a/b c", '/');
    assert_eq!(render(&parse(&mut lexer).unwrap(), '/').unwrap(), "a/b c ");
}

fn stop(text: &str) -> (Cause, String) {
    let mut lexer = Lexer::new(text);
    let e = parse(&mut lexer).unwrap_err();
    (e.cause, lexer.peek().1.to_string())
}

#[test]
fn lexer_stays_on_a_token_that_was_not_expected() {
    assert_eq!(stop("| ls"), (Cause::ExpectedCommandName, "|".to_string()));
    assert_eq!(stop("ls = x"), (Cause::UnknownToken(TokenType::Assign), "x".to_string()));
    assert_eq!(stop("ls @v 3 more"), (Cause::ExpectedListStart, "3".to_string()));
    assert_eq!(stop("ls @v[3 more]"), (Cause::ExpectedListEnd, "more".to_string()));
    assert_eq!(stop("ls {wc; x} y"), (Cause::ExpectedBlockEnd, ";".to_string()));
    assert_eq!(stop("ls *{abc} y"), (Cause::ExpectedGlob, "abc".to_string()));
    assert_eq!(stop("ls # y"), (Cause::BadToken, "#".to_string()));
}

#[test]
fn lexer_moves_past_a_token_that_was_taken_and_found_wrong() {
    assert_eq!(stop("a..b next"), (Cause::IllegalCommandName, "next".to_string()));
    assert_eq!(stop("ls $a..b next"), (Cause::IllegalVariableName, "next".to_string()));
    assert_eq!(stop("ls 12x next"), (Cause::InvalidNumber, "next".to_string()));
    assert_eq!(stop("ls r{(} next"), (Cause::InvalidRegex, "next".to_string()));
    assert_eq!(stop("ls ] next"), (Cause::UnknownToken(TokenType::ListEnd), "next".to_string()));
}

#[test]
fn parse_errors_are_worded() {
    let words = |text: &str| {
        let mut lexer = Lexer::new(text);
        parse(&mut lexer).unwrap_err().message()
    };
    assert_eq!(words("ls $a..b"), "Illegal varaible name: $a..b");
    assert_eq!(words("a..b"), "Illegal command name: a..b");
    assert_eq!(words("ls 12x y"), "Invalid number: y");
    assert_eq!(words("ls *{abc}"), "Expected string token: abc");
    assert_eq!(words("ls {wc; x}"), "Expected '}': ;");
    assert_eq!(words("ls @v 3"), "Expected '[': 3");
    assert_eq!(words("ls @v[3 4]"), "Expected '[': 4");
    assert_eq!(words("ls # x"), "Bad token: #");
    assert_eq!(lang::parser::parse("ls } x", 0).unwrap_err().message(), "Wrong token type: }");
    assert_eq!(words("ls ] x"), "Unknown token ListEnd: x");
}
