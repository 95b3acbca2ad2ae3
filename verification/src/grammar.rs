//! The grammar, as functions from a stream of tokens to definitions.
//!
//! ```text
//! jobs     := job (Separator job)*            up to the end or a BlockEnd
//! job      := command (Pipe command)*
//! command  := name argument*                  name: a String token, a path
//! argument := String Assign unnamed | unnamed
//! unnamed  := String | Glob | Integer | QuotedString | Regex | operator
//!           | Field | Variable | ArrayVariable ListStart unnamed ListEnd
//!           | ListStart unnamed* ListEnd
//!           | "{" job BlockEnd | "`{" jobs BlockEnd | "*{" Glob BlockEnd
//! ```
//!
//! Each function takes the stream, the separator of path segments and the
//! index of the next token. It gives the definition and the index after it,
//! or the error that stops the parse, with the index of the token on which
//! the lexer is then left: there is no recovery. Functions for
//! repeated parts also take what was collected so far. The errors here have
//! no detail; what the compiler of regular expressions says about a pattern
//! that it rejects is added where the pattern is compiled.
use vstd::prelude::*;
use crate::data::{ArgumentView, CallView, CellView, JobView};
use crate::errors::{plain, Cause, ErrorView};
use crate::lexer::{is_final, step, well_formed_stream, TokenType, TokenView};
use crate::literals::{integer_of, quoted_body, unescaped};
use crate::names::{split_on, well_formed_path};
use crate::pattern::regex_accepts;

verus! {

/// A definition and the index of the token after it.
pub struct Parsed<T> {
    pub value: T,
    pub next: int,
}

/// Whether `pos` is the index of a token.
pub open spec fn in_stream(tokens: Seq<TokenView>, pos: int) -> bool {
    0 <= pos < tokens.len()
}

pub open spec fn kind_at(tokens: Seq<TokenView>, pos: int) -> TokenType {
    tokens[pos].kind
}

pub open spec fn text_at(tokens: Seq<TokenView>, pos: int) -> Seq<char> {
    tokens[pos].text
}

/// An error with the token at `pos` as its subject.
pub open spec fn error_at(tokens: Seq<TokenView>, pos: int, cause: Cause) -> ErrorView {
    ErrorView {
        cause,
        subject: tokens[pos].text,
        position: tokens[pos].position,
        detail: Seq::empty(),
    }
}

/// What an error token tells: one without text stands at the end of a
/// text that leaves a block open; any other is text that is no token.
pub open spec fn error_cause(text: Seq<char>) -> Cause {
    if text.len() == 0 {
        Cause::ExpectedBlockEnd
    } else {
        Cause::BadToken
    }
}

/// The error for the error token at `pos`.
pub open spec fn bad_token_at(tokens: Seq<TokenView>, pos: int) -> ErrorView {
    error_at(tokens, pos, error_cause(tokens[pos].text))
}

/// Why and where a parse stops: the error, and the index of the token on
/// which the lexer is left.
pub struct Stop {
    pub error: ErrorView,
    pub at: int,
}

/// A stop on the token that the error is about: the token was looked at
/// and not taken.
pub open spec fn stop_on(tokens: Seq<TokenView>, pos: int, cause: Cause) -> Stop {
    Stop { error: error_at(tokens, pos, cause), at: pos }
}

/// A stop after the token that the error is about: the token was taken.
pub open spec fn stop_after(tokens: Seq<TokenView>, pos: int, cause: Cause) -> Stop {
    Stop { error: error_at(tokens, pos, cause), at: step(tokens, pos) }
}

/// The error for a stream that ends without an end-of-input token. The
/// lexer makes no such stream: its streams are well formed, and in a
/// well-formed stream whatever is parsed ends before the last token (see
/// `lemma_jobs_move_on`).
pub open spec fn ran_out() -> Stop {
    Stop { error: plain(Cause::BadToken), at: 0 }
}

/// Whether a part that started at `pos` ended at `next`, further on and
/// within the stream.
pub open spec fn advanced(tokens: Seq<TokenView>, pos: int, next: int) -> bool {
    pos < next <= tokens.len()
}

/// The text of a token without its first character.
pub open spec fn after_sigil(text: Seq<char>) -> Seq<char> {
    if text.len() > 0 {
        text.subrange(1, text.len() as int)
    } else {
        text
    }
}

/// The source of a regex token: the text between `r{` and `}`.
pub open spec fn regex_source(text: Seq<char>) -> Seq<char> {
    text.subrange(2, text.len() - 1)
}

/// Whether a token kind is a comparison or match operator.
pub open spec fn is_operator(kind: TokenType) -> bool {
    kind == TokenType::Equal || kind == TokenType::NotEqual || kind == TokenType::GreaterThan
        || kind == TokenType::GreaterThanOrEqual || kind == TokenType::LessThan || kind
        == TokenType::LessThanOrEqual || kind == TokenType::Match || kind == TokenType::NotMatch
}

/// Whether a token kind ends the arguments of a command.
pub open spec fn ends_arguments(kind: TokenType) -> bool {
    kind == TokenType::Separator || kind == TokenType::EOF || kind == TokenType::Pipe || kind
        == TokenType::BlockEnd
}

/// One or more jobs with separators between them, up to the end of input
/// or the end of the enclosing block. `acc` holds the jobs before `pos`.
pub open spec fn jobs_at(tokens: Seq<TokenView>, sep: char, pos: int, acc: Seq<JobView>) -> Result<
    Parsed<Seq<JobView>>,
    Stop,
>
    decreases tokens.len() - pos, 8int,
{
    if !in_stream(tokens, pos) {
        Err(ran_out())
    } else if kind_at(tokens, pos) != TokenType::String {
        Err(stop_on(tokens, pos, Cause::ExpectedCommandName))
    } else {
        match job_at(tokens, sep, pos) {
            Err(e) => Err(e),
            Ok(job) => {
                let jobs = acc.push(job.value);
                if !(pos < job.next < tokens.len()) {
                    Err(ran_out())
                } else if kind_at(tokens, job.next) == TokenType::EOF || kind_at(tokens, job.next)
                    == TokenType::BlockEnd {
                    Ok(Parsed { value: jobs, next: job.next })
                } else if kind_at(tokens, job.next) == TokenType::Error {
                    Err(Stop { error: bad_token_at(tokens, job.next), at: job.next })
                } else if kind_at(tokens, job.next) == TokenType::Separator {
                    jobs_at(tokens, sep, job.next + 1, jobs)
                } else {
                    Err(stop_on(tokens, job.next, Cause::WrongTokenType))
                }
            },
        }
    }
}

/// One job: commands with pipes between them.
pub open spec fn job_at(tokens: Seq<TokenView>, sep: char, pos: int) -> Result<
    Parsed<JobView>,
    Stop,
>
    decreases tokens.len() - pos, 7int,
{
    match pipeline_at(tokens, sep, pos, Seq::<CallView>::empty()) {
        Err(e) => Err(e),
        Ok(calls) => Ok(Parsed { value: JobView { commands: calls.value }, next: calls.next }),
    }
}

/// The commands of a job from `pos` on. `acc` holds the commands before.
pub open spec fn pipeline_at(
    tokens: Seq<TokenView>,
    sep: char,
    pos: int,
    acc: Seq<CallView>,
) -> Result<Parsed<Seq<CallView>>, Stop>
    decreases tokens.len() - pos, 6int,
{
    match command_at(tokens, sep, pos) {
        Err(e) => Err(e),
        Ok(call) => {
            let calls = acc.push(call.value);
            if in_stream(tokens, call.next) && kind_at(tokens, call.next) == TokenType::Pipe {
                if pos < call.next {
                    pipeline_at(tokens, sep, call.next + 1, calls)
                } else {
                    Err(ran_out())
                }
            } else {
                Ok(Parsed { value: calls, next: call.next })
            }
        },
    }
}

/// One command: its name, then its arguments.
pub open spec fn command_at(tokens: Seq<TokenView>, sep: char, pos: int) -> Result<
    Parsed<CallView>,
    Stop,
>
    decreases tokens.len() - pos, 5int,
{
    if !in_stream(tokens, pos) {
        Err(ran_out())
    } else if kind_at(tokens, pos) != TokenType::String {
        Err(stop_on(tokens, pos, Cause::ExpectedCommand))
    } else if !well_formed_path(text_at(tokens, pos), sep) {
        Err(stop_after(tokens, pos, Cause::IllegalCommandName))
    } else {
        match arguments_at(tokens, sep, pos + 1, Seq::<ArgumentView>::empty()) {
            Err(e) => Err(e),
            Ok(arguments) => Ok(
                Parsed {
                    value: CallView {
                        name: split_on(text_at(tokens, pos), sep),
                        arguments: arguments.value,
                    },
                    next: arguments.next,
                },
            ),
        }
    }
}

/// The arguments of a command from `pos` on, up to a separator, a pipe, the
/// end of a block or the end of input. `acc` holds the arguments before.
pub open spec fn arguments_at(
    tokens: Seq<TokenView>,
    sep: char,
    pos: int,
    acc: Seq<ArgumentView>,
) -> Result<Parsed<Seq<ArgumentView>>, Stop>
    decreases tokens.len() - pos, 4int,
{
    if !in_stream(tokens, pos) {
        Err(ran_out())
    } else if kind_at(tokens, pos) == TokenType::Error {
        Err(Stop { error: bad_token_at(tokens, pos), at: pos })
    } else if ends_arguments(kind_at(tokens, pos)) {
        Ok(Parsed { value: acc, next: pos })
    } else {
        match argument_at(tokens, sep, pos) {
            Err(e) => Err(e),
            Ok(argument) => if advanced(tokens, pos, argument.next) {
                arguments_at(tokens, sep, argument.next, acc.push(argument.value))
            } else {
                Err(ran_out())
            },
        }
    }
}

/// One argument. It has a name only where a string token is directly
/// followed by an assign token; any other string token is literal text.
pub open spec fn argument_at(tokens: Seq<TokenView>, sep: char, pos: int) -> Result<
    Parsed<ArgumentView>,
    Stop,
>
    decreases tokens.len() - pos, 3int,
{
    if !in_stream(tokens, pos) {
        Err(ran_out())
    } else if kind_at(tokens, pos) == TokenType::String {
        if in_stream(tokens, pos + 1) && kind_at(tokens, pos + 1) == TokenType::Assign {
            match expression_at(tokens, sep, pos + 2) {
                Err(e) => Err(e),
                Ok(cell) => Ok(
                    Parsed {
                        value: ArgumentView {
                            name: Some(text_at(tokens, pos)),
                            cell: cell.value,
                        },
                        next: cell.next,
                    },
                ),
            }
        } else {
            Ok(
                Parsed {
                    value: ArgumentView {
                        name: None,
                        cell: CellView::Text(text_at(tokens, pos)),
                    },
                    next: pos + 1,
                },
            )
        }
    } else {
        match expression_at(tokens, sep, pos) {
            Err(e) => Err(e),
            Ok(cell) => Ok(
                Parsed { value: ArgumentView { name: None, cell: cell.value }, next: cell.next },
            ),
        }
    }
}

/// The expressions of a list from `pos` on, up to the end of the list.
/// `acc` holds the expressions before.
pub open spec fn list_at(tokens: Seq<TokenView>, sep: char, pos: int, acc: Seq<CellView>) -> Result<
    Parsed<CellView>,
    Stop,
>
    decreases tokens.len() - pos, 2int,
{
    if !in_stream(tokens, pos) {
        Err(ran_out())
    } else if kind_at(tokens, pos) == TokenType::ListEnd {
        Ok(Parsed { value: CellView::List(acc), next: pos + 1 })
    } else {
        match expression_at(tokens, sep, pos) {
            Err(e) => Err(e),
            Ok(cell) => if advanced(tokens, pos, cell.next) {
                list_at(tokens, sep, cell.next, acc.push(cell.value))
            } else {
                Err(ran_out())
            },
        }
    }
}

/// A path token without its sigil, as a path.
pub open spec fn path_at(tokens: Seq<TokenView>, sep: char, pos: int) -> Result<
    Seq<Seq<char>>,
    ErrorView,
> {
    let name = after_sigil(text_at(tokens, pos));
    if well_formed_path(name, sep) {
        Ok(split_on(name, sep))
    } else {
        Err(error_at(tokens, pos, Cause::IllegalVariableName))
    }
}

/// A block, by its sigil: `{` holds one job, `` ` `` holds jobs, `*` holds
/// a glob. The block-start token is at `pos`.
pub open spec fn block_at(tokens: Seq<TokenView>, sep: char, pos: int) -> Result<
    Parsed<CellView>,
    Stop,
>
    decreases tokens.len() - pos, 0int,
{
    let sigil = text_at(tokens, pos);
    if !in_stream(tokens, pos) || !in_stream(tokens, pos + 1) {
        Err(ran_out())
    } else if sigil.len() > 0 && sigil[0] == '{' {
        match job_at(tokens, sep, pos + 1) {
            Err(e) => Err(e),
            Ok(job) => if !in_stream(tokens, job.next) {
                Err(ran_out())
            } else if kind_at(tokens, job.next) == TokenType::BlockEnd {
                Ok(Parsed { value: CellView::Job(job.value), next: job.next + 1 })
            } else {
                Err(stop_on(tokens, job.next, Cause::ExpectedBlockEnd))
            },
        }
    } else if sigil.len() > 0 && sigil[0] == '`' {
        match jobs_at(tokens, sep, pos + 1, Seq::<JobView>::empty()) {
            Err(e) => Err(e),
            Ok(jobs) => if !in_stream(tokens, jobs.next) {
                Err(ran_out())
            } else if kind_at(tokens, jobs.next) == TokenType::BlockEnd {
                Ok(Parsed { value: CellView::Closure(jobs.value), next: jobs.next + 1 })
            } else {
                Err(stop_on(tokens, jobs.next, Cause::ExpectedBlockEnd))
            },
        }
    } else if sigil.len() > 0 && sigil[0] == '*' {
        if kind_at(tokens, pos + 1) != TokenType::Glob {
            Err(stop_on(tokens, pos + 1, Cause::ExpectedGlob))
        } else if !in_stream(tokens, pos + 2) {
            Err(ran_out())
        } else if kind_at(tokens, pos + 2) != TokenType::BlockEnd {
            Err(stop_on(tokens, pos + 2, Cause::ExpectedBlockEnd))
        } else {
            Ok(Parsed { value: CellView::Glob(text_at(tokens, pos + 1)), next: pos + 3 })
        }
    } else {
        Err(stop_on(tokens, pos + 1, Cause::UnknownSigil))
    }
}

/// One expression, chosen by the kind of its first token.
pub open spec fn expression_at(tokens: Seq<TokenView>, sep: char, pos: int) -> Result<
    Parsed<CellView>,
    Stop,
>
    decreases tokens.len() - pos, 1int,
{
    if !in_stream(tokens, pos) {
        Err(ran_out())
    } else {
        let kind = kind_at(tokens, pos);
        let text = text_at(tokens, pos);
        if kind == TokenType::String {
            Ok(Parsed { value: CellView::Text(text), next: pos + 1 })
        } else if kind == TokenType::Glob {
            Ok(Parsed { value: CellView::Glob(text), next: pos + 1 })
        } else if kind == TokenType::Integer {
            match integer_of(text) {
                Some(v) => Ok(Parsed { value: CellView::Integer(v), next: pos + 1 }),
                None => Err(stop_on(tokens, step(tokens, pos), Cause::InvalidNumber)),
            }
        } else if is_operator(kind) {
            Ok(Parsed { value: CellView::Op(text), next: pos + 1 })
        } else if kind == TokenType::BlockStart {
            block_at(tokens, sep, pos)
        } else if kind == TokenType::Field {
            match path_at(tokens, sep, pos) {
                Ok(path) => Ok(Parsed { value: CellView::Field(path), next: pos + 1 }),
                Err(e) => Err(Stop { error: e, at: step(tokens, pos) }),
            }
        } else if kind == TokenType::Variable {
            match path_at(tokens, sep, pos) {
                Ok(path) => Ok(Parsed { value: CellView::Variable(path), next: pos + 1 }),
                Err(e) => Err(Stop { error: e, at: step(tokens, pos) }),
            }
        } else if kind == TokenType::ArrayVariable {
            match path_at(tokens, sep, pos) {
                Err(e) => Err(Stop { error: e, at: step(tokens, pos) }),
                Ok(path) => if !in_stream(tokens, pos + 1) {
                    Err(ran_out())
                } else if kind_at(tokens, pos + 1) != TokenType::ListStart {
                    Err(stop_on(tokens, pos + 1, Cause::ExpectedListStart))
                } else {
                    match expression_at(tokens, sep, pos + 2) {
                        Err(e) => Err(e),
                        Ok(index) => if !in_stream(tokens, index.next) {
                            Err(ran_out())
                        } else if kind_at(tokens, index.next) != TokenType::ListEnd {
                            Err(stop_on(tokens, index.next, Cause::ExpectedListEnd))
                        } else {
                            Ok(
                                Parsed {
                                    value: CellView::ArrayVariable(path, Box::new(index.value)),
                                    next: index.next + 1,
                                },
                            )
                        },
                    }
                },
            }
        } else if kind == TokenType::Regex {
            if text.len() < 3 {
                Err(stop_on(tokens, pos, Cause::BadToken))
            } else if regex_accepts(regex_source(text)) {
                Ok(Parsed { value: CellView::Regex(regex_source(text)), next: pos + 1 })
            } else {
                Err(
                    Stop {
                        error: ErrorView {
                            cause: Cause::InvalidRegex,
                            subject: regex_source(text),
                            position: tokens[pos].position,
                            detail: Seq::empty(),
                        },
                        at: step(tokens, pos),
                    },
                )
            }
        } else if kind == TokenType::QuotedString {
            if text.len() < 2 {
                Err(stop_on(tokens, pos, Cause::BadToken))
            } else {
                Ok(Parsed { value: CellView::Text(unescaped(quoted_body(text))), next: pos + 1 })
            }
        } else if kind == TokenType::ListStart {
            list_at(tokens, sep, pos + 1, Seq::<CellView>::empty())
        } else {
            Err(stop_on(tokens, step(tokens, pos), Cause::UnknownToken(kind)))
        }
    }
}

/// The jobs that a stream of tokens stands for, or the error that stops
/// the parse. The stream must hold nothing after the jobs.
pub open spec fn parsed_jobs(tokens: Seq<TokenView>, sep: char) -> Result<
    Seq<JobView>,
    ErrorView,
> {
    match jobs_at(tokens, sep, 0, Seq::<JobView>::empty()) {
        Err(stop) => Err(stop.error),
        Ok(jobs) => if kind_at(tokens, jobs.next) == TokenType::EOF {
            Ok(jobs.value)
        } else {
            Err(error_at(tokens, jobs.next, Cause::WrongTokenType))
        },
    }
}

/// The arguments that are collected when the arguments of a command are
/// parsed from `pos` on, whether the parse succeeds or stops at an error:
/// `acc`, and after it each argument that was parsed before the stop.
pub open spec fn arguments_collected(
    tokens: Seq<TokenView>,
    sep: char,
    pos: int,
    acc: Seq<ArgumentView>,
) -> Seq<ArgumentView>
    decreases tokens.len() - pos,
{
    if !in_stream(tokens, pos) || kind_at(tokens, pos) == TokenType::Error || ends_arguments(
        kind_at(tokens, pos),
    ) {
        acc
    } else {
        match argument_at(tokens, sep, pos) {
            Err(_) => acc,
            Ok(argument) => if advanced(tokens, pos, argument.next) {
                arguments_collected(tokens, sep, argument.next, acc.push(argument.value))
            } else {
                acc
            },
        }
    }
}

/// The commands that are collected when the commands of a job are parsed
/// from `pos` on, whether the parse succeeds or stops at an error: `acc`,
/// and after it each command that was parsed before the stop. A command
/// that fails to parse is not collected, whatever was parsed of it.
#[verifier::opaque]
pub open spec fn pipeline_collected(
    tokens: Seq<TokenView>,
    sep: char,
    pos: int,
    acc: Seq<CallView>,
) -> Seq<CallView>
    decreases tokens.len() - pos,
{
    match command_at(tokens, sep, pos) {
        Err(_) => acc,
        Ok(call) => if pos < call.next && in_stream(tokens, call.next) && kind_at(
            tokens,
            call.next,
        ) == TokenType::Pipe {
            pipeline_collected(tokens, sep, call.next + 1, acc.push(call.value))
        } else {
            acc.push(call.value)
        },
    }
}

/// What is collected from `pos` on, by what the first command gives.
pub proof fn lemma_pipeline_collected(
    tokens: Seq<TokenView>,
    sep: char,
    pos: int,
    acc: Seq<CallView>,
)
    ensures
        pipeline_collected(tokens, sep, pos, acc) == (match command_at(tokens, sep, pos) {
            Err(_) => acc,
            Ok(call) => if pos < call.next && in_stream(tokens, call.next) && kind_at(
                tokens,
                call.next,
            ) == TokenType::Pipe {
                pipeline_collected(tokens, sep, call.next + 1, acc.push(call.value))
            } else {
                acc.push(call.value)
            },
        }),
{
    reveal(pipeline_collected);
}

/// In a well-formed stream a token that does not end the stream has a
/// token after it.
pub proof fn lemma_has_next(tokens: Seq<TokenView>, pos: int)
    requires
        well_formed_stream(tokens),
        in_stream(tokens, pos),
        !is_final(kind_at(tokens, pos)),
    ensures
        in_stream(tokens, pos + 1),
{
    if pos == tokens.len() - 1 {
        assert(tokens.last() == tokens[pos]);
    }
}

/// Whether a result, if it is one, ends after `pos` and within the stream.
pub open spec fn moves_on<T>(tokens: Seq<TokenView>, pos: int, r: Result<Parsed<T>, Stop>) -> bool {
    r matches Ok(p) ==> pos < p.next < tokens.len()
}

/// Whether a result, if it is one, ends at or after `pos` and within the
/// stream.
pub open spec fn stays_in<T>(tokens: Seq<TokenView>, pos: int, r: Result<Parsed<T>, Stop>) -> bool {
    r matches Ok(p) ==> pos <= p.next < tokens.len()
}

/// On a well-formed stream, an expression that is parsed takes at least
/// one token and leaves at least the last.
pub proof fn lemma_expression_moves_on(tokens: Seq<TokenView>, sep: char, pos: int)
    requires
        well_formed_stream(tokens),
        in_stream(tokens, pos),
    ensures
        moves_on(tokens, pos, expression_at(tokens, sep, pos)),
    decreases tokens.len() - pos, 1int,
{
    let kind = kind_at(tokens, pos);
    if !is_final(kind) {
        lemma_has_next(tokens, pos);
        if kind == TokenType::BlockStart {
            lemma_block_moves_on(tokens, sep, pos);
        } else if kind == TokenType::ArrayVariable {
            if kind_at(tokens, pos + 1) == TokenType::ListStart {
                lemma_has_next(tokens, pos + 1);
                lemma_expression_moves_on(tokens, sep, pos + 2);
                let index = expression_at(tokens, sep, pos + 2);
                if index is Ok && kind_at(tokens, index->Ok_0.next) == TokenType::ListEnd {
                    lemma_has_next(tokens, index->Ok_0.next);
                }
            }
        } else if kind == TokenType::ListStart {
            lemma_list_moves_on(tokens, sep, pos + 1, Seq::empty());
        }
    }
}

/// On a well-formed stream, a block that is parsed takes at least one
/// token and leaves at least the last.
pub proof fn lemma_block_moves_on(tokens: Seq<TokenView>, sep: char, pos: int)
    requires
        well_formed_stream(tokens),
        in_stream(tokens, pos),
        in_stream(tokens, pos + 1),
    ensures
        moves_on(tokens, pos, block_at(tokens, sep, pos)),
    decreases tokens.len() - pos, 0int,
{
    let sigil = text_at(tokens, pos);
    if sigil.len() > 0 && sigil[0] == '{' {
        lemma_job_moves_on(tokens, sep, pos + 1);
        let job = job_at(tokens, sep, pos + 1);
        if job is Ok && kind_at(tokens, job->Ok_0.next) == TokenType::BlockEnd {
            lemma_has_next(tokens, job->Ok_0.next);
        }
    } else if sigil.len() > 0 && sigil[0] == '`' {
        lemma_jobs_move_on(tokens, sep, pos + 1, Seq::empty());
        let jobs = jobs_at(tokens, sep, pos + 1, Seq::empty());
        if jobs is Ok && kind_at(tokens, jobs->Ok_0.next) == TokenType::BlockEnd {
            lemma_has_next(tokens, jobs->Ok_0.next);
        }
    } else if sigil.len() > 0 && sigil[0] == '*' {
        if kind_at(tokens, pos + 1) == TokenType::Glob {
            lemma_has_next(tokens, pos + 1);
            if kind_at(tokens, pos + 2) == TokenType::BlockEnd {
                lemma_has_next(tokens, pos + 2);
            }
        }
    }
}

/// On a well-formed stream, a list that is parsed takes at least one token
/// and leaves at least the last.
pub proof fn lemma_list_moves_on(tokens: Seq<TokenView>, sep: char, pos: int, acc: Seq<CellView>)
    requires
        well_formed_stream(tokens),
        in_stream(tokens, pos),
    ensures
        moves_on(tokens, pos, list_at(tokens, sep, pos, acc)),
    decreases tokens.len() - pos, 2int,
{
    if kind_at(tokens, pos) == TokenType::ListEnd {
        lemma_has_next(tokens, pos);
    } else {
        lemma_expression_moves_on(tokens, sep, pos);
        let cell = expression_at(tokens, sep, pos);
        if cell is Ok {
            lemma_list_moves_on(tokens, sep, cell->Ok_0.next, acc.push(cell->Ok_0.value));
        }
    }
}

/// On a well-formed stream, an argument that is parsed takes at least one
/// token and leaves at least the last.
pub proof fn lemma_argument_moves_on(tokens: Seq<TokenView>, sep: char, pos: int)
    requires
        well_formed_stream(tokens),
        in_stream(tokens, pos),
    ensures
        moves_on(tokens, pos, argument_at(tokens, sep, pos)),
    decreases tokens.len() - pos, 3int,
{
    if kind_at(tokens, pos) == TokenType::String {
        lemma_has_next(tokens, pos);
        if kind_at(tokens, pos + 1) == TokenType::Assign {
            lemma_has_next(tokens, pos + 1);
            lemma_expression_moves_on(tokens, sep, pos + 2);
        }
    } else {
        lemma_expression_moves_on(tokens, sep, pos);
    }
}

/// On a well-formed stream, arguments that are parsed leave at least the
/// last token.
pub proof fn lemma_arguments_stay_in(
    tokens: Seq<TokenView>,
    sep: char,
    pos: int,
    acc: Seq<ArgumentView>,
)
    requires
        well_formed_stream(tokens),
        in_stream(tokens, pos),
    ensures
        stays_in(tokens, pos, arguments_at(tokens, sep, pos, acc)),
    decreases tokens.len() - pos, 4int,
{
    if kind_at(tokens, pos) != TokenType::Error && !ends_arguments(kind_at(tokens, pos)) {
        lemma_argument_moves_on(tokens, sep, pos);
        let argument = argument_at(tokens, sep, pos);
        if argument is Ok {
            lemma_arguments_stay_in(
                tokens,
                sep,
                argument->Ok_0.next,
                acc.push(argument->Ok_0.value),
            );
        }
    }
}

/// On a well-formed stream, a command that is parsed takes at least one
/// token and leaves at least the last.
pub proof fn lemma_command_moves_on(tokens: Seq<TokenView>, sep: char, pos: int)
    requires
        well_formed_stream(tokens),
        in_stream(tokens, pos),
    ensures
        moves_on(tokens, pos, command_at(tokens, sep, pos)),
    decreases tokens.len() - pos, 5int,
{
    if kind_at(tokens, pos) == TokenType::String {
        lemma_has_next(tokens, pos);
        lemma_arguments_stay_in(tokens, sep, pos + 1, Seq::empty());
    }
}

/// On a well-formed stream, commands that are parsed take at least one
/// token and leave at least the last.
pub proof fn lemma_pipeline_moves_on(
    tokens: Seq<TokenView>,
    sep: char,
    pos: int,
    acc: Seq<CallView>,
)
    requires
        well_formed_stream(tokens),
        in_stream(tokens, pos),
    ensures
        moves_on(tokens, pos, pipeline_at(tokens, sep, pos, acc)),
    decreases tokens.len() - pos, 6int,
{
    lemma_command_moves_on(tokens, sep, pos);
    let call = command_at(tokens, sep, pos);
    if call is Ok && kind_at(tokens, call->Ok_0.next) == TokenType::Pipe {
        lemma_has_next(tokens, call->Ok_0.next);
        lemma_pipeline_moves_on(tokens, sep, call->Ok_0.next + 1, acc.push(call->Ok_0.value));
    }
}

/// On a well-formed stream, a job that is parsed takes at least one token
/// and leaves at least the last.
pub proof fn lemma_job_moves_on(tokens: Seq<TokenView>, sep: char, pos: int)
    requires
        well_formed_stream(tokens),
        in_stream(tokens, pos),
    ensures
        moves_on(tokens, pos, job_at(tokens, sep, pos)),
    decreases tokens.len() - pos, 7int,
{
    lemma_pipeline_moves_on(tokens, sep, pos, Seq::empty());
}

/// On a well-formed stream, jobs that are parsed take at least one token
/// and leave at least the last.
pub proof fn lemma_jobs_move_on(tokens: Seq<TokenView>, sep: char, pos: int, acc: Seq<JobView>)
    requires
        well_formed_stream(tokens),
        in_stream(tokens, pos),
    ensures
        moves_on(tokens, pos, jobs_at(tokens, sep, pos, acc)),
    decreases tokens.len() - pos, 8int,
{
    if kind_at(tokens, pos) == TokenType::String {
        lemma_job_moves_on(tokens, sep, pos);
        let job = job_at(tokens, sep, pos);
        if job is Ok && kind_at(tokens, job->Ok_0.next) == TokenType::Separator {
            lemma_has_next(tokens, job->Ok_0.next);
            lemma_jobs_move_on(tokens, sep, job->Ok_0.next + 1, acc.push(job->Ok_0.value));
        }
    }
}

} // verus!
