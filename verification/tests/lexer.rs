use crush::lexer::{read_tokens, Lexer, TokenType};

fn kinds(text: &str) -> Vec<TokenType> {
    read_tokens(text).iter().map(|t| t.kind).collect()
}

fn texts(text: &str) -> Vec<String> {
    read_tokens(text).iter().map(|t| t.text.clone()).collect()
}

#[test]
fn empty_text_is_end_of_input() {
    assert_eq!(kinds(""), vec![TokenType::EOF]);
    assert_eq!(kinds("  \t\n "), vec![TokenType::EOF]);
}

#[test]
fn words_pipes_and_separators() {
    assert_eq!(
        kinds("ls | uniq name; echo"),
        vec![
            TokenType::String,
            TokenType::Pipe,
            TokenType::String,
            TokenType::String,
            TokenType::Separator,
            TokenType::String,
            TokenType::EOF
        ]
    );
    assert_eq!(texts("ls | uniq name"), vec!["ls", "|", "uniq", "name", ""]);
}

#[test]
fn token_positions_are_character_offsets() {
    let tokens = read_tokens("  ls |  å b");
    let positions: Vec<usize> = tokens.iter().map(|t| t.position).collect();
    assert_eq!(positions, vec![2, 5, 8, 10, 11]);
}

#[test]
fn operators_are_told_apart() {
    assert_eq!(
        kinds("= == =~ != !~ > >= < <="),
        vec![
            TokenType::Assign,
            TokenType::Equal,
            TokenType::Match,
            TokenType::NotEqual,
            TokenType::NotMatch,
            TokenType::GreaterThan,
            TokenType::GreaterThanOrEqual,
            TokenType::LessThan,
            TokenType::LessThanOrEqual,
            TokenType::EOF
        ]
    );
}

#[test]
fn blocks_and_lists() {
    assert_eq!(
        kinds("{ `{ *{ } } } [ ]"),
        vec![
            TokenType::BlockStart,
            TokenType::BlockStart,
            TokenType::BlockStart,
            TokenType::BlockEnd,
            TokenType::BlockEnd,
            TokenType::BlockEnd,
            TokenType::ListStart,
            TokenType::ListEnd,
            TokenType::EOF
        ]
    );
    assert_eq!(texts("{ `{ *{")[..3], ["{", "`{", "*{"]);
}

#[test]
fn unterminated_block_ends_the_stream_with_an_error() {
    assert_eq!(kinds("{ls"), vec![TokenType::BlockStart, TokenType::String, TokenType::Error]);
    assert_eq!(
        kinds("{ a {b} "),
        vec![
            TokenType::BlockStart,
            TokenType::String,
            TokenType::BlockStart,
            TokenType::String,
            TokenType::BlockEnd,
            TokenType::Error
        ]
    );
    let tokens = read_tokens("`{ls");
    assert_eq!(tokens[2].position, 4);
    assert_eq!(tokens[2].text, "");
}

#[test]
fn block_end_without_a_block_is_a_token_of_its_own() {
    assert_eq!(kinds("ls }"), vec![TokenType::String, TokenType::BlockEnd, TokenType::EOF]);
    assert_eq!(kinds("} {}"), vec![TokenType::BlockEnd, TokenType::BlockStart, TokenType::BlockEnd, TokenType::EOF]);
}

#[test]
fn references_keep_their_sigil() {
    assert_eq!(
        kinds("$a.b @c %d"),
        vec![TokenType::Variable, TokenType::ArrayVariable, TokenType::Field, TokenType::EOF]
    );
    assert_eq!(texts("$a.b @c %d")[..3], ["$a.b", "@c", "%d"]);
}

#[test]
fn integers_and_words_that_start_like_integers() {
    assert_eq!(kinds("12 -7 12ab"), vec![TokenType::Integer; 3].into_iter().chain([TokenType::EOF]).collect::<Vec<_>>());
    assert_eq!(kinds("-a"), vec![TokenType::String, TokenType::EOF]);
}

#[test]
fn globs_hold_a_wildcard() {
    assert_eq!(kinds("*.txt a?c abc"), vec![TokenType::Glob, TokenType::Glob, TokenType::String, TokenType::EOF]);
}

#[test]
fn quoted_strings_run_to_the_closing_quote() {
    assert_eq!(kinds(r#""a b" c"#), vec![TokenType::QuotedString, TokenType::String, TokenType::EOF]);
    assert_eq!(texts(r#""a \" b""#)[0], r#""a \" b""#);
}

#[test]
fn unterminated_quoted_string_is_an_error_token() {
    assert_eq!(kinds(r#"ls "abc"#), vec![TokenType::String, TokenType::Error]);
    assert_eq!(kinds(r#""abc\"#), vec![TokenType::Error]);
}

#[test]
fn regex_runs_to_the_first_closing_brace() {
    assert_eq!(kinds("r{a+b} x"), vec![TokenType::Regex, TokenType::String, TokenType::EOF]);
    assert_eq!(texts("r{a+b}")[0], "r{a+b}");
    assert_eq!(kinds("r{abc"), vec![TokenType::Error]);
}

#[test]
fn unknown_character_ends_the_stream_with_an_error() {
    assert_eq!(kinds("ls # more"), vec![TokenType::String, TokenType::Error]);
    assert_eq!(kinds("!"), vec![TokenType::Error]);
}

#[test]
fn peek_does_not_consume() {
    let lexer = Lexer::new("ls | wc");
    assert_eq!(lexer.peek(), (TokenType::String, "ls"));
    assert_eq!(lexer.peek(), (TokenType::String, "ls"));
    assert_eq!(lexer.peek_type(), TokenType::String);
    assert_eq!(lexer.position(), 0);
}

#[test]
fn pop_returns_what_peek_showed_and_moves_on() {
    let mut lexer = Lexer::new("ls | wc");
    assert_eq!(lexer.pop(), (TokenType::String, "ls".to_string()));
    assert_eq!(lexer.peek(), (TokenType::Pipe, "|"));
    assert_eq!(lexer.pop(), (TokenType::Pipe, "|".to_string()));
    assert_eq!(lexer.pop(), (TokenType::String, "wc".to_string()));
    assert_eq!(lexer.peek_type(), TokenType::EOF);
}

#[test]
fn pop_at_the_end_stays_at_the_end() {
    let mut lexer = Lexer::new("ls");
    lexer.pop();
    assert_eq!(lexer.pop().0, TokenType::EOF);
    assert_eq!(lexer.pop().0, TokenType::EOF);
    assert_eq!(lexer.peek_type(), TokenType::EOF);
}

#[test]
fn lexers_carry_their_separator() {
    assert_eq!(Lexer::new("a").name_separator(), '.');
    assert_eq!(Lexer::with_separator("a", '/').name_separator(), '/');
}
