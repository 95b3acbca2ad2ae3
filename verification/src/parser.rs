//! The parser: from the tokens of a lexer to job definitions, by recursive
//! descent. Each function does what the function of the grammar that its
//! contract names describes. It leaves the lexer after what it parsed, or,
//! on an error, where the grammar says that the parse stops.
use vstd::prelude::*;
use crate::data::{
    argument_views, call_views, cell_views, job_views, ArgumentDefinition, CallDefinition,
    CellDefinition, CellView, JobDefinition,
};
use crate::errors::{reports, Cause, CrushError};
use crate::grammar::{
    after_sigil, argument_at, arguments_at, arguments_collected, bad_token_at, block_at,
    command_at, error_at, expression_at, job_at, jobs_at, lemma_pipeline_collected, list_at,
    path_at, pipeline_at, pipeline_collected, regex_source, Parsed, Stop,
};
use crate::lexer::{same_stream, Lexer, TokenType};
use crate::literals::{parse_integer, unescape};
use crate::names::{split_on, split_path, well_formed_path};
use crate::pattern::{compile, reason};
use crate::text::texts;

verus! {

/// Whether a result, and the index where the lexer was left, are what the
/// grammar gives, for a success and for an error alike.
pub open spec fn agrees<T: View>(
    r: Result<T, CrushError>,
    after: int,
    expected: Result<Parsed<T::V>, Stop>,
) -> bool {
    match expected {
        Ok(p) => r matches Ok(value) && value@ == p.value && after == p.next,
        Err(stop) => r matches Err(error) && reports(error@, stop.error) && after == stop.at,
    }
}

/// Whether a result, what was collected, and the index where the lexer was
/// left, are what the grammar gives.
pub open spec fn collects<V>(
    r: Result<(), CrushError>,
    after: int,
    collected: Seq<V>,
    expected: Result<Parsed<Seq<V>>, Stop>,
) -> bool {
    match expected {
        Ok(p) => r is Ok && collected == p.value && after == p.next,
        Err(stop) => r matches Err(error) && reports(error@, stop.error) && after == stop.at,
    }
}

/// An error about the next token of the lexer.
pub fn parse_error(cause: Cause, lexer: &Lexer) -> (e: CrushError)
    requires
        lexer.wf(),
    ensures
        e@ == error_at(lexer.tokens(), lexer.index(), cause),
{
    let token = lexer.peek();
    CrushError {
        cause,
        subject: String::from_str(token.1),
        position: lexer.position(),
        detail: String::new(),
    }
}

/// An error about the next token of the lexer, which is an error token.
pub fn bad_token(lexer: &Lexer) -> (e: CrushError)
    requires
        lexer.wf(),
    ensures
        e@ == bad_token_at(lexer.tokens(), lexer.index()),
{
    let cause = if lexer.peek().1.is_empty() {
        Cause::ExpectedBlockEnd
    } else {
        Cause::BadToken
    };
    parse_error(cause, lexer)
}

/// Splits a name at every `.`; `None` when a segment is empty.
pub fn parse_name(s: &str) -> (r: Option<Vec<String>>)
    ensures
        r is Some <==> well_formed_path(s@, '.'),
        r matches Some(v) ==> texts(v@) == split_on(s@, '.'),
{
    split_path(s, '.')
}

/// The cell for a regex token with the given source, once the source was
/// handed to the compiler: the expression when it compiled, else an error
/// about the source, with what the compiler said as its detail.
pub fn regex_cell(
    source: &str,
    compiled: Result<regex::Regex, regex::Error>,
    position: usize,
) -> (r: Result<CellDefinition, CrushError>)
    ensures
        match compiled {
            Ok(_) => r matches Ok(cell) && cell@ == CellView::Regex(source@),
            Err(_) => r matches Err(e) && e.cause == Cause::InvalidRegex && e.subject@ == source@
                && e.position == position,
        },
{
    match compiled {
        Ok(expression) => Ok(CellDefinition::Regex(String::from_str(source), expression)),
        Err(error) => Err(
            CrushError {
                cause: Cause::InvalidRegex,
                subject: String::from_str(source),
                position,
                detail: reason(&error),
            },
        ),
    }
}

/// Parses jobs up to the end of input or the end of the enclosing block.
pub fn parse(lexer: &mut Lexer) -> (r: Result<Vec<JobDefinition>, CrushError>)
    requires
        old(lexer).wf(),
    ensures
        same_stream(*old(lexer), *final(lexer)),
        r is Ok ==> final(lexer).index() > old(lexer).index(),
        match jobs_at(
            old(lexer).tokens(),
            old(lexer).separator(),
            old(lexer).index(),
            Seq::empty(),
        ) {
            Ok(p) => r matches Ok(jobs) && job_views(jobs@) == p.value && final(lexer).index()
                == p.next,
            Err(stop) => r matches Err(error) && reports(error@, stop.error)
                && final(lexer).index() == stop.at,
        },
    decreases old(lexer).tokens().len() - old(lexer).index(), 8int,
{
    let mut jobs: Vec<JobDefinition> = Vec::new();
    let ghost tokens = lexer.tokens();
    let ghost sep = lexer.separator();
    let ghost start = lexer.index();
    assert(job_views(jobs@) =~= Seq::empty());
    loop
        invariant
            lexer.wf(),
            lexer.tokens() == tokens,
            lexer.separator() == sep,
            tokens == old(lexer).tokens(),
            sep == old(lexer).separator(),
            start == old(lexer).index(),
            start <= lexer.index(),
            jobs_at(tokens, sep, start, Seq::empty()) == jobs_at(
                tokens,
                sep,
                lexer.index(),
                job_views(jobs@),
            ),
        decreases tokens.len() - lexer.index(),
    {
        let ghost before = job_views(jobs@);
        match lexer.peek_type() {
            TokenType::String => {
                match parse_internal(lexer) {
                    Ok(job) => {
                        jobs.push(job);
                        assert(job_views(jobs@) =~= before.push(job@));
                    },
                    Err(e) => {
                        return Err(e);
                    },
                }
            },
            _ => {
                return Err(parse_error(Cause::ExpectedCommandName, lexer));
            },
        }
        match lexer.peek_type() {
            TokenType::EOF | TokenType::BlockEnd => {
                return Ok(jobs);
            },
            TokenType::Error => {
                return Err(bad_token(lexer));
            },
            TokenType::Separator => {
                lexer.pop();
            },
            _ => {
                return Err(parse_error(Cause::WrongTokenType, lexer));
            },
        }
    }
}

/// Parses one job.
pub fn parse_internal(lexer: &mut Lexer) -> (r: Result<JobDefinition, CrushError>)
    requires
        old(lexer).wf(),
    ensures
        same_stream(*old(lexer), *final(lexer)),
        r is Ok ==> final(lexer).index() > old(lexer).index(),
        agrees(
            r,
            final(lexer).index(),
            job_at(old(lexer).tokens(), old(lexer).separator(), old(lexer).index()),
        ),
    decreases old(lexer).tokens().len() - old(lexer).index(), 7int,
{
    let mut commands: Vec<CallDefinition> = Vec::new();
    assert(call_views(commands@) =~= Seq::empty());
    match parse_job(lexer, &mut commands) {
        Ok(()) => Ok(JobDefinition::new(commands)),
        Err(e) => Err(e),
    }
}

/// Parses the commands of one job and appends them to `commands`.
#[verifier::rlimit(50)]
pub fn parse_job(lexer: &mut Lexer, commands: &mut Vec<CallDefinition>) -> (r: Result<
    (),
    CrushError,
>)
    requires
        old(lexer).wf(),
    ensures
        same_stream(*old(lexer), *final(lexer)),
        r is Ok ==> final(lexer).index() > old(lexer).index(),
        collects(
            r,
            final(lexer).index(),
            call_views(final(commands)@),
            pipeline_at(
                old(lexer).tokens(),
                old(lexer).separator(),
                old(lexer).index(),
                call_views(old(commands)@),
            ),
        ),
        call_views(final(commands)@) == pipeline_collected(
            old(lexer).tokens(),
            old(lexer).separator(),
            old(lexer).index(),
            call_views(old(commands)@),
        ),
    decreases old(lexer).tokens().len() - old(lexer).index(), 6int,
{
    let ghost tokens = lexer.tokens();
    let ghost sep = lexer.separator();
    let ghost start = lexer.index();
    let ghost initial = call_views(commands@);
    loop
        invariant
            lexer.wf(),
            lexer.tokens() == tokens,
            lexer.separator() == sep,
            tokens == old(lexer).tokens(),
            sep == old(lexer).separator(),
            start == old(lexer).index(),
            initial == call_views(old(commands)@),
            start <= lexer.index(),
            pipeline_at(tokens, sep, start, initial) == pipeline_at(
                tokens,
                sep,
                lexer.index(),
                call_views(commands@),
            ),
            pipeline_collected(tokens, sep, start, initial) == pipeline_collected(
                tokens,
                sep,
                lexer.index(),
                call_views(commands@),
            ),
        decreases tokens.len() - lexer.index(),
    {
        let ghost at = lexer.index();
        let ghost acc = call_views(commands@);
        proof {
            lemma_pipeline_collected(tokens, sep, at, acc);
        }
        match parse_command(lexer, commands) {
            Ok(()) => {},
            Err(e) => {
                return Err(e);
            },
        }
        if lexer.peek_type() != TokenType::Pipe {
            return Ok(());
        }
        lexer.pop();
    }
}

/// Takes a path token and returns the path that follows its sigil.
pub fn parse_name_from_lexer(lexer: &mut Lexer) -> (r: Result<Vec<String>, CrushError>)
    requires
        old(lexer).wf(),
    ensures
        same_stream(*old(lexer), *final(lexer)),
        final(lexer).index() == old(lexer).next_index(),
        match path_at(old(lexer).tokens(), old(lexer).separator(), old(lexer).index()) {
            Ok(path) => r matches Ok(v) && texts(v@) == path,
            Err(e) => r matches Err(error) && error@ == e,
        },
{
    let text = lexer.peek().1;
    let n = text.unicode_len();
    let name = if n > 0 {
        text.substring_char(1, n)
    } else {
        text
    };
    assert(name@ == after_sigil(text@));
    let res = match split_path(name, lexer.name_separator()) {
        None => Err(parse_error(Cause::IllegalVariableName, lexer)),
        Some(v) => Ok(v),
    };
    lexer.pop();
    res
}

/// Takes a string token and returns it as the path of a command.
pub fn parse_command_from_lexer(lexer: &mut Lexer) -> (r: Result<Vec<String>, CrushError>)
    requires
        old(lexer).wf(),
    ensures
        same_stream(*old(lexer), *final(lexer)),
        final(lexer).index() == old(lexer).next_index(),
        match r {
            Ok(v) => well_formed_path(old(lexer).current().text, old(lexer).separator())
                && texts(v@) == split_on(old(lexer).current().text, old(lexer).separator()),
            Err(e) => !well_formed_path(old(lexer).current().text, old(lexer).separator())
                && e@ == error_at(
                old(lexer).tokens(),
                old(lexer).index(),
                Cause::IllegalCommandName,
            ),
        },
{
    let res = match split_path(lexer.peek().1, lexer.name_separator()) {
        None => Err(parse_error(Cause::IllegalCommandName, lexer)),
        Some(v) => Ok(v),
    };
    lexer.pop();
    res
}

/// Parses one expression.
pub fn parse_unnamed_argument(lexer: &mut Lexer) -> (r: Result<CellDefinition, CrushError>)
    requires
        old(lexer).wf(),
    ensures
        same_stream(*old(lexer), *final(lexer)),
        r is Ok ==> final(lexer).index() > old(lexer).index(),
        agrees(
            r,
            final(lexer).index(),
            expression_at(old(lexer).tokens(), old(lexer).separator(), old(lexer).index()),
        ),
    decreases old(lexer).tokens().len() - old(lexer).index(), 1int,
{
    let ghost tokens = lexer.tokens();
    let ghost sep = lexer.separator();
    let ghost start = lexer.index();
    let token_type = lexer.peek_type();
    match token_type {
        TokenType::String => {
            let text = lexer.pop().1;
            return Ok(CellDefinition::Text(text));
        },
        TokenType::Glob => {
            let text = lexer.pop().1;
            return Ok(CellDefinition::Glob(text));
        },
        TokenType::Integer => {
            let text = lexer.pop().1;
            return match parse_integer(text.as_str()) {
                Some(value) => Ok(CellDefinition::Integer(value)),
                None => Err(parse_error(Cause::InvalidNumber, lexer)),
            };
        },
        TokenType::Equal
        | TokenType::NotEqual
        | TokenType::GreaterThan
        | TokenType::GreaterThanOrEqual
        | TokenType::LessThan
        | TokenType::LessThanOrEqual
        | TokenType::Match
        | TokenType::NotMatch => {
            let text = lexer.pop().1;
            return Ok(CellDefinition::Op(text));
        },
        TokenType::BlockStart => {
            let text = lexer.pop().1;
            let sigil = if text.as_str().unicode_len() > 0 {
                text.as_str().get_char(0)
            } else {
                ' '
            };
            assert(expression_at(tokens, sep, start) == block_at(tokens, sep, start));
            if sigil == '{' {
                let dep = match parse_internal(lexer) {
                    Ok(job) => job,
                    Err(e) => {
                        return Err(e);
                    },
                };
                if lexer.peek_type() != TokenType::BlockEnd {
                    return Err(parse_error(Cause::ExpectedBlockEnd, lexer));
                }
                lexer.pop();
                return Ok(CellDefinition::JobDefinition(dep));
            } else if sigil == '`' {
                let dep = match parse(lexer) {
                    Ok(jobs) => jobs,
                    Err(e) => {
                        return Err(e);
                    },
                };
                if lexer.peek_type() != TokenType::BlockEnd {
                    return Err(parse_error(Cause::ExpectedBlockEnd, lexer));
                }
                lexer.pop();
                return Ok(CellDefinition::closure(dep));
            } else if sigil == '*' {
                if lexer.peek_type() != TokenType::Glob {
                    return Err(parse_error(Cause::ExpectedGlob, lexer));
                }
                let pattern = lexer.pop().1;
                if lexer.peek_type() != TokenType::BlockEnd {
                    return Err(parse_error(Cause::ExpectedBlockEnd, lexer));
                }
                lexer.pop();
                return Ok(CellDefinition::Glob(pattern));
            } else {
                return Err(parse_error(Cause::UnknownSigil, lexer));
            }
        },
        TokenType::Field => {
            return match parse_name_from_lexer(lexer) {
                Ok(path) => Ok(CellDefinition::Field(path)),
                Err(e) => Err(e),
            };
        },
        TokenType::Variable => {
            return match parse_name_from_lexer(lexer) {
                Ok(path) => Ok(CellDefinition::Variable(path)),
                Err(e) => Err(e),
            };
        },
        TokenType::ArrayVariable => {
            let name = match parse_name_from_lexer(lexer) {
                Ok(path) => path,
                Err(e) => {
                    return Err(e);
                },
            };
            if lexer.peek_type() != TokenType::ListStart {
                return Err(parse_error(Cause::ExpectedListStart, lexer));
            }
            lexer.pop();
            let idx = match parse_unnamed_argument(lexer) {
                Ok(cell) => cell,
                Err(e) => {
                    return Err(e);
                },
            };
            if lexer.peek_type() != TokenType::ListEnd {
                return Err(parse_error(Cause::ExpectedListEnd, lexer));
            }
            lexer.pop();
            return Ok(CellDefinition::ArrayVariable(name, Box::new(idx)));
        },
        TokenType::Regex => {
            let position = lexer.position();
            if lexer.peek().1.unicode_len() < 3 {
                return Err(parse_error(Cause::BadToken, lexer));
            }
            let text = lexer.pop().1;
            let n = text.as_str().unicode_len();
            let source = text.as_str().substring_char(2, n - 1);
            assert(source@ == regex_source(text@));
            return regex_cell(source, compile(source), position);
        },
        TokenType::QuotedString => {
            if lexer.peek().1.unicode_len() < 2 {
                return Err(parse_error(Cause::BadToken, lexer));
            }
            let text = lexer.pop().1;
            return Ok(CellDefinition::Text(unescape(text.as_str())));
        },
        TokenType::ListStart => {
            lexer.pop();
            let mut cells: Vec<CellDefinition> = Vec::new();
            assert(cell_views(cells@) =~= Seq::empty());
            loop
                invariant
                    lexer.wf(),
                    lexer.tokens() == tokens,
                    lexer.separator() == sep,
                    tokens == old(lexer).tokens(),
                    sep == old(lexer).separator(),
                    start == old(lexer).index(),
                    start < lexer.index(),
                    old(lexer).current().kind == TokenType::ListStart,
                    expression_at(tokens, sep, start) == list_at(
                        tokens,
                        sep,
                        lexer.index(),
                        cell_views(cells@),
                    ),
                decreases tokens.len() - lexer.index(),
            {
                if lexer.peek_type() == TokenType::ListEnd {
                    lexer.pop();
                    return Ok(CellDefinition::list(cells));
                }
                let ghost before = cell_views(cells@);
                match parse_unnamed_argument(lexer) {
                    Ok(cell) => {
                        cells.push(cell);
                        assert(cell_views(cells@) =~= before.push(cell@));
                    },
                    Err(e) => {
                        return Err(e);
                    },
                }
            }
        },
        _ => {
            lexer.pop();
            return Err(parse_error(Cause::UnknownToken(token_type), lexer));
        },
    }
}

/// Parses one argument, with a name or without.
pub fn parse_argument(lexer: &mut Lexer) -> (r: Result<ArgumentDefinition, CrushError>)
    requires
        old(lexer).wf(),
    ensures
        same_stream(*old(lexer), *final(lexer)),
        r is Ok ==> final(lexer).index() > old(lexer).index(),
        agrees(
            r,
            final(lexer).index(),
            argument_at(old(lexer).tokens(), old(lexer).separator(), old(lexer).index()),
        ),
    decreases old(lexer).tokens().len() - old(lexer).index(), 3int,
{
    match lexer.peek_type() {
        TokenType::String => {
            let ss = lexer.pop().1;
            if lexer.peek_type() == TokenType::Assign {
                lexer.pop();
                return match parse_unnamed_argument(lexer) {
                    Ok(cell) => Ok(ArgumentDefinition::named(ss.as_str(), cell)),
                    Err(e) => Err(e),
                };
            } else {
                return Ok(ArgumentDefinition::unnamed(CellDefinition::Text(ss)));
            }
        },
        _ => {
            return match parse_unnamed_argument(lexer) {
                Ok(cell) => Ok(ArgumentDefinition::unnamed(cell)),
                Err(e) => Err(e),
            };
        },
    }
}

/// Parses the arguments of a command and appends them to `arguments`.
pub fn parse_arguments(lexer: &mut Lexer, arguments: &mut Vec<ArgumentDefinition>) -> (r: Result<
    (),
    CrushError,
>)
    requires
        old(lexer).wf(),
    ensures
        same_stream(*old(lexer), *final(lexer)),
        r is Ok ==> final(lexer).index() >= old(lexer).index(),
        collects(
            r,
            final(lexer).index(),
            argument_views(final(arguments)@),
            arguments_at(
                old(lexer).tokens(),
                old(lexer).separator(),
                old(lexer).index(),
                argument_views(old(arguments)@),
            ),
        ),
        argument_views(final(arguments)@) == arguments_collected(
            old(lexer).tokens(),
            old(lexer).separator(),
            old(lexer).index(),
            argument_views(old(arguments)@),
        ),
    decreases old(lexer).tokens().len() - old(lexer).index(), 4int,
{
    let ghost tokens = lexer.tokens();
    let ghost sep = lexer.separator();
    let ghost start = lexer.index();
    let ghost initial = argument_views(arguments@);
    loop
        invariant
            lexer.wf(),
            lexer.tokens() == tokens,
            lexer.separator() == sep,
            tokens == old(lexer).tokens(),
            sep == old(lexer).separator(),
            start == old(lexer).index(),
            initial == argument_views(old(arguments)@),
            start <= lexer.index(),
            arguments_at(tokens, sep, start, initial) == arguments_at(
                tokens,
                sep,
                lexer.index(),
                argument_views(arguments@),
            ),
            arguments_collected(tokens, sep, start, initial) == arguments_collected(
                tokens,
                sep,
                lexer.index(),
                argument_views(arguments@),
            ),
        decreases tokens.len() - lexer.index(),
    {
        match lexer.peek_type() {
            TokenType::Error => {
                return Err(bad_token(lexer));
            },
            TokenType::Separator | TokenType::EOF | TokenType::Pipe | TokenType::BlockEnd => {
                return Ok(());
            },
            _ => {
                let ghost before = argument_views(arguments@);
                match parse_argument(lexer) {
                    Ok(argument) => {
                        arguments.push(argument);
                        assert(argument_views(arguments@) =~= before.push(argument@));
                    },
                    Err(e) => {
                        return Err(e);
                    },
                }
            },
        }
    }
}

/// Parses one command and appends it to `commands`.
pub fn parse_command(lexer: &mut Lexer, commands: &mut Vec<CallDefinition>) -> (r: Result<
    (),
    CrushError,
>)
    requires
        old(lexer).wf(),
    ensures
        same_stream(*old(lexer), *final(lexer)),
        r is Ok ==> final(lexer).index() > old(lexer).index(),
        match command_at(old(lexer).tokens(), old(lexer).separator(), old(lexer).index()) {
            Ok(p) => r is Ok && call_views(final(commands)@) == call_views(old(commands)@).push(
                p.value,
            ) && final(lexer).index() == p.next,
            Err(stop) => r matches Err(error) && reports(error@, stop.error)
                && final(lexer).index() == stop.at
                && call_views(final(commands)@) == call_views(old(commands)@),
        },
    decreases old(lexer).tokens().len() - old(lexer).index(), 5int,
{
    match lexer.peek_type() {
        TokenType::String => {
            let name = match parse_command_from_lexer(lexer) {
                Ok(path) => path,
                Err(e) => {
                    return Err(e);
                },
            };
            let mut arguments: Vec<ArgumentDefinition> = Vec::new();
            assert(argument_views(arguments@) =~= Seq::empty());
            match parse_arguments(lexer, &mut arguments) {
                Ok(()) => {},
                Err(e) => {
                    return Err(e);
                },
            }
            let ghost before = call_views(commands@);
            let call = CallDefinition::new(name, arguments);
            commands.push(call);
            assert(call_views(commands@) =~= before.push(call@));
            return Ok(());
        },
        _ => {
            return Err(parse_error(Cause::ExpectedCommand, lexer));
        },
    }
}

} // verus!
