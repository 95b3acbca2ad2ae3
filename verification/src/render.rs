//! Rendering: jobs written out as tokens and as text, and the law that
//! parsing what was rendered gives the jobs back.
//!
//! This covers jobs whose arguments are positional literals, texts and
//! integers, which is what a rendering of command names and literal values
//! can hold.
use vstd::prelude::*;
use crate::data::{
    argument_views, call_views, job_views, ArgumentDefinition, ArgumentView, CallDefinition,
    CallView, CellDefinition, CellView, JobDefinition, JobView,
};
use crate::errors::ErrorView;
use crate::grammar::{
    advanced, argument_at, arguments_at, command_at, ends_arguments, expression_at, in_stream,
    job_at, jobs_at, kind_at, parsed_jobs, pipeline_at, text_at, Parsed, Stop,
};
use crate::lexer::{
    blank_end, end_token, has_wildcard, is_blank, is_digit, is_wildcard, is_word, scan, tokenize,
    tokens_from, word_end, TokenType, TokenView,
};
use crate::literals::{
    all_digits, digits, lemma_digits, lemma_numeral, numeral, write_integer, written_number,
};
use crate::names::{all_free_of, all_nonempty, join, join_path, lemma_split_join};

verus! {

/// A string token with the given text.
pub open spec fn word(text: Seq<char>) -> TokenView {
    TokenView { kind: TokenType::String, text, position: 0 }
}

/// The pipe token.
pub open spec fn pipe() -> TokenView {
    TokenView { kind: TokenType::Pipe, text: seq!['|'], position: 0 }
}

/// The separator token.
pub open spec fn separator() -> TokenView {
    TokenView { kind: TokenType::Separator, text: seq![';'], position: 0 }
}

/// The token at the end of input.
pub open spec fn end() -> TokenView {
    TokenView { kind: TokenType::EOF, text: Seq::empty(), position: 0 }
}

/// A token for an integer: it holds the text that writes the integer.
pub open spec fn number(i: int) -> TokenView {
    TokenView { kind: TokenType::Integer, text: numeral(i), position: 0 }
}

/// Whether an argument is a literal without a name: a text, or an integer
/// that fits the integer type of values.
pub open spec fn literal_argument(a: ArgumentView) -> bool {
    &&& a.name is None
    &&& a.cell is Text || (a.cell matches CellView::Integer(i) && i128::MIN <= i <= i128::MAX)
}

/// The token of a literal argument.
pub open spec fn argument_token(a: ArgumentView) -> TokenView {
    match a.cell {
        CellView::Integer(i) => number(i),
        _ => word(a.cell->Text_0),
    }
}

/// Whether a call has a name of non-empty segments that hold no separator,
/// and literal arguments only.
pub open spec fn plain_call(call: CallView, sep: char) -> bool {
    &&& call.name.len() >= 1
    &&& all_nonempty(call.name)
    &&& all_free_of(call.name, sep)
    &&& forall|i: int| 0 <= i < call.arguments.len() ==> literal_argument(#[trigger] call.arguments[i])
}

/// Whether a job has at least one call and plain calls only.
pub open spec fn plain_job(job: JobView, sep: char) -> bool {
    &&& job.commands.len() >= 1
    &&& forall|i: int| 0 <= i < job.commands.len() ==> plain_call(#[trigger] job.commands[i], sep)
}

/// Whether there is at least one job and all jobs are plain.
pub open spec fn plain_jobs(jobs: Seq<JobView>, sep: char) -> bool {
    &&& jobs.len() >= 1
    &&& forall|i: int| 0 <= i < jobs.len() ==> plain_job(#[trigger] jobs[i], sep)
}

/// The tokens of literal arguments: one token each.
pub open spec fn argument_tokens(arguments: Seq<ArgumentView>) -> Seq<TokenView> {
    arguments.map_values(|a: ArgumentView| argument_token(a))
}

/// The tokens of a call: its name as one string token, then its arguments.
pub open spec fn call_tokens(call: CallView, sep: char) -> Seq<TokenView> {
    seq![word(join(call.name, sep))] + argument_tokens(call.arguments)
}

/// The tokens of the calls of a job, with a pipe between neighbours.
pub open spec fn job_tokens(calls: Seq<CallView>, sep: char) -> Seq<TokenView>
    decreases calls.len(),
{
    if calls.len() == 0 {
        Seq::empty()
    } else if calls.len() == 1 {
        call_tokens(calls[0], sep)
    } else {
        call_tokens(calls[0], sep) + seq![pipe()] + job_tokens(calls.skip(1), sep)
    }
}

/// The tokens of jobs, with a separator between neighbours.
pub open spec fn jobs_tokens(jobs: Seq<JobView>, sep: char) -> Seq<TokenView>
    decreases jobs.len(),
{
    if jobs.len() == 0 {
        Seq::empty()
    } else if jobs.len() == 1 {
        job_tokens(jobs[0].commands, sep)
    } else {
        job_tokens(jobs[0].commands, sep) + seq![separator()] + jobs_tokens(jobs.skip(1), sep)
    }
}

/// The stream of tokens that jobs are rendered as.
pub open spec fn rendered(jobs: Seq<JobView>, sep: char) -> Seq<TokenView> {
    jobs_tokens(jobs, sep).push(end())
}

/// Whether two tokens have the same kind and text. Where they stand in
/// the source is left out.
pub open spec fn same_token(a: TokenView, b: TokenView) -> bool {
    a.kind == b.kind && a.text == b.text
}

/// Whether the tokens from `pos` on start with the kinds and texts of
/// `part`.
pub open spec fn holds_at(tokens: Seq<TokenView>, pos: int, part: Seq<TokenView>) -> bool {
    &&& 0 <= pos
    &&& pos + part.len() <= tokens.len()
    &&& forall|i: int| 0 <= i < part.len() ==> same_token(tokens[pos + i], #[trigger] part[i])
}

/// Whether a stream has the kinds and texts of the rendering of `jobs`.
pub open spec fn renders(tokens: Seq<TokenView>, jobs: Seq<JobView>, sep: char) -> bool {
    &&& tokens.len() == rendered(jobs, sep).len()
    &&& holds_at(tokens, 0, rendered(jobs, sep))
}

/// Tokens that start with two parts start with the first, and go on with
/// the second.
proof fn lemma_holds_split(
    tokens: Seq<TokenView>,
    pos: int,
    first: Seq<TokenView>,
    second: Seq<TokenView>,
)
    requires
        holds_at(tokens, pos, first + second),
    ensures
        holds_at(tokens, pos, first),
        holds_at(tokens, pos + first.len(), second),
{
    let both = first + second;
    assert forall|i: int| 0 <= i < first.len() implies same_token(
        tokens[pos + i],
        #[trigger] first[i],
    ) by {
        assert(both[i] == first[i]);
    }
    assert forall|i: int| 0 <= i < second.len() implies same_token(
        tokens[pos + first.len() + i],
        #[trigger] second[i],
    ) by {
        assert(both[first.len() + i] == second[i]);
    }
}

/// Literal arguments that are followed by a token that ends the arguments
/// are parsed as they are.
proof fn lemma_arguments(
    tokens: Seq<TokenView>,
    sep: char,
    pos: int,
    arguments: Seq<ArgumentView>,
    acc: Seq<ArgumentView>,
)
    requires
        holds_at(tokens, pos, argument_tokens(arguments)),
        forall|i: int| 0 <= i < arguments.len() ==> literal_argument(#[trigger] arguments[i]),
        in_stream(tokens, pos + arguments.len()),
        ends_arguments(kind_at(tokens, pos + arguments.len())),
    ensures
        arguments_at(tokens, sep, pos, acc) == Ok::<Parsed<Seq<ArgumentView>>, Stop>(
            Parsed { value: acc + arguments, next: pos + arguments.len() },
        ),
    decreases arguments.len(),
{
    let part = argument_tokens(arguments);
    if arguments.len() == 0 {
        assert(acc + arguments =~= acc);
    } else {
        let first = arguments[0];
        let rest = arguments.skip(1);
        assert(same_token(tokens[pos + 0], part[0]));
        assert(part[0] == argument_token(first));
        assert(literal_argument(first));
        if arguments.len() > 1 {
            assert(same_token(tokens[pos + 1], part[1]));
            assert(part[1] == argument_token(arguments[1]));
            assert(kind_at(tokens, pos + 1) == TokenType::String || kind_at(tokens, pos + 1)
                == TokenType::Integer);
        }
        assert(!(in_stream(tokens, pos + 1) && kind_at(tokens, pos + 1) == TokenType::Assign));
        match first.cell {
            CellView::Integer(i) => {
                lemma_numeral(i);
                assert(kind_at(tokens, pos) == TokenType::Integer);
                assert(text_at(tokens, pos) == numeral(i));
                let parsed = ArgumentView { name: None, cell: CellView::Integer(i) };
                assert(parsed == first);
                assert(expression_at(tokens, sep, pos) == Ok::<Parsed<CellView>, Stop>(
                    Parsed { value: CellView::Integer(i), next: pos + 1 },
                ));
            },
            _ => {
                assert(kind_at(tokens, pos) == TokenType::String);
                let parsed = ArgumentView { name: None, cell: CellView::Text(text_at(tokens, pos)) };
                assert(parsed == first);
            },
        }
        assert(argument_at(tokens, sep, pos) == Ok::<Parsed<ArgumentView>, Stop>(
            Parsed { value: first, next: pos + 1 },
        ));
        assert(advanced(tokens, pos, pos + 1));
        assert(holds_at(tokens, pos + 1, argument_tokens(rest))) by {
            assert forall|i: int| 0 <= i < argument_tokens(rest).len() implies same_token(
                tokens[pos + 1 + i],
                #[trigger] argument_tokens(rest)[i],
            ) by {
                assert(same_token(tokens[pos + (i + 1)], part[i + 1]));
                assert(rest[i] == arguments[i + 1]);
            }
        }
        assert forall|i: int| 0 <= i < rest.len() implies literal_argument(#[trigger] rest[i]) by {
            assert(rest[i] == arguments[i + 1]);
        }
        lemma_arguments(tokens, sep, pos + 1, rest, acc.push(first));
        assert(acc.push(first) + rest =~= acc + arguments);
    }
}

/// The number of tokens of a call.
pub open spec fn call_length(call: CallView) -> int {
    1 + call.arguments.len() as int
}

/// A plain call that is followed by a token that ends the arguments is
/// parsed as it is.
proof fn lemma_command(tokens: Seq<TokenView>, sep: char, pos: int, call: CallView)
    requires
        holds_at(tokens, pos, call_tokens(call, sep)),
        plain_call(call, sep),
        in_stream(tokens, pos + call_length(call)),
        ends_arguments(kind_at(tokens, pos + call_length(call))),
    ensures
        command_at(tokens, sep, pos) == Ok::<Parsed<CallView>, Stop>(
            Parsed { value: call, next: pos + call_length(call) },
        ),
{
    let head = seq![word(join(call.name, sep))];
    lemma_holds_split(tokens, pos, head, argument_tokens(call.arguments));
    assert(same_token(tokens[pos + 0], head[0]));
    lemma_split_join(call.name, sep);
    lemma_arguments(tokens, sep, pos + 1, call.arguments, Seq::empty());
    assert(Seq::<ArgumentView>::empty() + call.arguments =~= call.arguments);
}

/// The number of tokens of the calls of a job.
pub open spec fn job_length(calls: Seq<CallView>) -> int
    decreases calls.len(),
{
    if calls.len() == 0 {
        0
    } else if calls.len() == 1 {
        call_length(calls[0])
    } else {
        call_length(calls[0]) + 1 + job_length(calls.skip(1))
    }
}

proof fn lemma_job_length(calls: Seq<CallView>, sep: char)
    ensures
        job_tokens(calls, sep).len() == job_length(calls),
        calls.len() >= 1 ==> job_length(calls) >= 1,
    decreases calls.len(),
{
    if calls.len() > 1 {
        lemma_job_length(calls.skip(1), sep);
    }
}

/// Plain calls with pipes between them, followed by a token that ends the
/// arguments and is no pipe, are parsed as they are.
proof fn lemma_pipeline(
    tokens: Seq<TokenView>,
    sep: char,
    pos: int,
    calls: Seq<CallView>,
    acc: Seq<CallView>,
)
    requires
        calls.len() >= 1,
        holds_at(tokens, pos, job_tokens(calls, sep)),
        forall|i: int| 0 <= i < calls.len() ==> plain_call(#[trigger] calls[i], sep),
        in_stream(tokens, pos + job_length(calls)),
        ends_arguments(kind_at(tokens, pos + job_length(calls))),
        kind_at(tokens, pos + job_length(calls)) != TokenType::Pipe,
    ensures
        pipeline_at(tokens, sep, pos, acc) == Ok::<Parsed<Seq<CallView>>, Stop>(
            Parsed { value: acc + calls, next: pos + job_length(calls) },
        ),
    decreases calls.len(),
{
    let first = calls[0];
    assert(plain_call(first, sep));
    if calls.len() == 1 {
        lemma_command(tokens, sep, pos, first);
        assert(acc.push(first) =~= acc + calls);
    } else {
        let rest = calls.skip(1);
        let pipe = seq![pipe()];
        lemma_job_length(rest, sep);
        assert(job_tokens(calls, sep) == (call_tokens(first, sep) + pipe) + job_tokens(rest, sep));
        lemma_holds_split(tokens, pos, call_tokens(first, sep) + pipe, job_tokens(rest, sep));
        lemma_holds_split(tokens, pos, call_tokens(first, sep), pipe);
        let after = pos + call_length(first);
        assert(same_token(tokens[after + 0], pipe[0]));
        assert(kind_at(tokens, after) == TokenType::Pipe);
        lemma_command(tokens, sep, pos, first);
        assert forall|i: int| 0 <= i < rest.len() implies plain_call(#[trigger] rest[i], sep) by {
            assert(rest[i] == calls[i + 1]);
        }
        lemma_pipeline(tokens, sep, after + 1, rest, acc.push(first));
        assert(acc.push(first) + rest =~= acc + calls);
        assert(job_length(calls) == call_length(first) + 1 + job_length(rest));
        assert(pos < after);
        assert(pipeline_at(tokens, sep, pos, acc) == pipeline_at(
            tokens,
            sep,
            after + 1,
            acc.push(first),
        ));
    }
}

/// The number of tokens of jobs.
pub open spec fn jobs_length(jobs: Seq<JobView>) -> int
    decreases jobs.len(),
{
    if jobs.len() == 0 {
        0
    } else if jobs.len() == 1 {
        job_length(jobs[0].commands)
    } else {
        job_length(jobs[0].commands) + 1 + jobs_length(jobs.skip(1))
    }
}

proof fn lemma_jobs_length(jobs: Seq<JobView>, sep: char)
    ensures
        jobs_tokens(jobs, sep).len() == jobs_length(jobs),
    decreases jobs.len(),
{
    if jobs.len() >= 1 {
        lemma_job_length(jobs[0].commands, sep);
    }
    if jobs.len() > 1 {
        lemma_jobs_length(jobs.skip(1), sep);
    }
}

/// Plain jobs with separators between them, followed by the end of input,
/// are parsed as they are.
proof fn lemma_jobs(
    tokens: Seq<TokenView>,
    sep: char,
    pos: int,
    jobs: Seq<JobView>,
    acc: Seq<JobView>,
)
    requires
        plain_jobs(jobs, sep),
        holds_at(tokens, pos, jobs_tokens(jobs, sep)),
        in_stream(tokens, pos + jobs_length(jobs)),
        kind_at(tokens, pos + jobs_length(jobs)) == TokenType::EOF,
    ensures
        jobs_at(tokens, sep, pos, acc) == Ok::<Parsed<Seq<JobView>>, Stop>(
            Parsed { value: acc + jobs, next: pos + jobs_length(jobs) },
        ),
    decreases jobs.len(),
{
    let first = jobs[0];
    let calls = first.commands;
    assert(plain_job(first, sep));
    lemma_job_length(calls, sep);
    let after = pos + job_length(calls);
    if jobs.len() == 1 {
        lemma_first_token(tokens, sep, pos, calls);
        lemma_pipeline(tokens, sep, pos, calls, Seq::empty());
        assert(Seq::<CallView>::empty() + calls =~= calls);
        assert(JobView { commands: calls } == first);
        assert(job_at(tokens, sep, pos) == Ok::<Parsed<JobView>, Stop>(
            Parsed { value: first, next: after },
        ));
        assert(pos < after < tokens.len());
        assert(acc.push(first) =~= acc + jobs);
    } else {
        let rest = jobs.skip(1);
        let separator = seq![separator()];
        lemma_jobs_length(rest, sep);
        assert(jobs_tokens(jobs, sep) == (job_tokens(calls, sep) + separator) + jobs_tokens(
            rest,
            sep,
        ));
        lemma_holds_split(tokens, pos, job_tokens(calls, sep) + separator, jobs_tokens(rest, sep));
        lemma_holds_split(tokens, pos, job_tokens(calls, sep), separator);
        assert(same_token(tokens[after + 0], separator[0]));
        assert(kind_at(tokens, after) == TokenType::Separator);
        lemma_first_token(tokens, sep, pos, calls);
        lemma_pipeline(tokens, sep, pos, calls, Seq::empty());
        assert(Seq::<CallView>::empty() + calls =~= calls);
        assert(JobView { commands: calls } == first);
        assert(job_at(tokens, sep, pos) == Ok::<Parsed<JobView>, Stop>(
            Parsed { value: first, next: after },
        ));
        assert(pos < after < tokens.len());
        assert(plain_jobs(rest, sep)) by {
            assert forall|i: int| 0 <= i < rest.len() implies plain_job(#[trigger] rest[i], sep) by {
                assert(rest[i] == jobs[i + 1]);
            }
        }
        lemma_jobs(tokens, sep, after + 1, rest, acc.push(first));
        assert(acc.push(first) + rest =~= acc + jobs);
    }
}

/// The tokens of a job start with a string token.
proof fn lemma_first_token(tokens: Seq<TokenView>, sep: char, pos: int, calls: Seq<CallView>)
    requires
        calls.len() >= 1,
        holds_at(tokens, pos, job_tokens(calls, sep)),
    ensures
        in_stream(tokens, pos),
        kind_at(tokens, pos) == TokenType::String,
{
    let part = job_tokens(calls, sep);
    lemma_job_length(calls, sep);
    assert(part[0] == call_tokens(calls[0], sep)[0]);
    assert(same_token(tokens[pos + 0], part[0]));
}

/// Parsing what was rendered gives the jobs back: for jobs with literal
/// positional arguments, the parser makes the very jobs of any stream that
/// has the kinds and texts of their rendering.
pub proof fn lemma_parse_rendered(tokens: Seq<TokenView>, jobs: Seq<JobView>, sep: char)
    requires
        plain_jobs(jobs, sep),
        renders(tokens, jobs, sep),
    ensures
        parsed_jobs(tokens, sep) == Ok::<Seq<JobView>, ErrorView>(jobs),
{
    let whole = rendered(jobs, sep);
    lemma_jobs_length(jobs, sep);
    assert(holds_at(tokens, 0, jobs_tokens(jobs, sep))) by {
        assert forall|i: int| 0 <= i < jobs_tokens(jobs, sep).len() implies same_token(
            tokens[0 + i],
            #[trigger] jobs_tokens(jobs, sep)[i],
        ) by {
            assert(same_token(tokens[0 + i], whole[i]));
        }
    }
    assert(same_token(tokens[0 + jobs_length(jobs)], whole[jobs_length(jobs)]));
    lemma_jobs(tokens, sep, 0, jobs, Seq::empty());
    assert(Seq::<JobView>::empty() + jobs =~= jobs);
}

/// Whether a text is a word that the lexer reads as one string token: it
/// is made of word characters, holds no wildcard, and does not start like
/// an integer.
pub open spec fn bare_word(w: Seq<char>) -> bool {
    &&& w.len() > 0
    &&& forall|i: int| 0 <= i < w.len() ==> is_word(#[trigger] w[i]) && !is_wildcard(w[i])
    &&& !is_digit(w[0])
    &&& !(w[0] == '-' && w.len() > 1 && is_digit(w[1]))
}

/// Whether a token of a rendering has a text that the lexer reads as this
/// token: a string token that is a bare word, an integer token that is
/// written as a number, a pipe or a separator.
pub open spec fn spellable(t: TokenView) -> bool {
    ||| t.kind == TokenType::String && bare_word(t.text)
    ||| t.kind == TokenType::Integer && written_number(t.text) is Some && t.text[0] != '+'
    ||| t == (TokenView { position: t.position, ..pipe() })
    ||| t == (TokenView { position: t.position, ..separator() })
}

/// The text of tokens: the text of each token, with a space after it.
pub open spec fn spelled(tokens: Seq<TokenView>) -> Seq<char>
    decreases tokens.len(),
{
    if tokens.len() == 0 {
        Seq::empty()
    } else {
        tokens[0].text + seq![' '] + spelled(tokens.skip(1))
    }
}

/// A run of word characters ends where the first other character stands.
proof fn lemma_word_run(text: Seq<char>, from: int, to: int)
    requires
        0 <= from <= to < text.len(),
        forall|i: int| from <= i < to ==> is_word(#[trigger] text[i]),
        !is_word(text[to]),
    ensures
        word_end(text, from) == to,
    decreases to - from,
{
    if from < to {
        lemma_word_run(text, from + 1, to);
    }
}

/// The lexer reads a spellable token that is followed by a space as this
/// token.
proof fn lemma_scan_spelled(text: Seq<char>, start: int, t: TokenView)
    requires
        spellable(t),
        0 <= start,
        start + t.text.len() < text.len(),
        forall|i: int| 0 <= i < t.text.len() ==> text[start + i] == #[trigger] t.text[i],
        text[start + t.text.len()] == ' ',
    ensures
        !is_blank(text[start]),
        scan(text, start) == (t.kind, start + t.text.len()),
{
    let w = t.text;
    let end = start + w.len();
    assert(text[start + 0] == w[0]);
    if t.kind == TokenType::String {
        assert(is_word(w[0]) && !is_wildcard(w[0]));
        assert forall|i: int| start + 1 <= i < end implies is_word(#[trigger] text[i]) by {
            assert(text[start + (i - start)] == w[i - start]);
        }
        lemma_word_run(text, start + 1, end);
        if w.len() > 1 {
            assert(text[start + 1] == w[1]);
            assert(is_word(w[1]) && !is_wildcard(w[1]));
        }
        assert(!has_wildcard(text, start, end)) by {
            assert forall|i: int| start <= i < end implies !is_wildcard(#[trigger] text[i]) by {
                assert(text[start + (i - start)] == w[i - start]);
            }
        }
    } else if t.kind == TokenType::Integer {
        let negative = w[0] == '-';
        let shown = if negative {
            w.skip(1)
        } else {
            w
        };
        assert(all_digits(shown) && shown.len() > 0);
        assert forall|i: int| 0 <= i < w.len() implies is_word(#[trigger] w[i]) by {
            if negative {
                if i > 0 {
                    assert(w[i] == shown[i - 1]);
                    assert(is_digit(shown[i - 1]));
                }
            } else {
                assert(is_digit(shown[i]));
            }
        }
        if negative {
            assert(w[1] == shown[0]);
            assert(is_digit(shown[0]));
            assert(text[start + 1] == w[1]);
        } else {
            assert(is_digit(shown[0]));
        }
        assert forall|i: int| start + 1 <= i < end implies is_word(#[trigger] text[i]) by {
            assert(text[start + (i - start)] == w[i - start]);
        }
        lemma_word_run(text, start + 1, end);
    }
}

/// A blank before a token does not change the tokens.
proof fn lemma_skip_blank(text: Seq<char>, pos: int)
    requires
        0 <= pos < text.len(),
        is_blank(text[pos]),
    ensures
        tokens_from(text, pos, 0) == tokens_from(text, pos + 1, 0),
{
}

/// The lexer reads the text of spellable tokens as these tokens, followed
/// by the end of input.
proof fn lemma_lex_spelled(prefix: Seq<char>, tokens: Seq<TokenView>)
    requires
        forall|i: int| 0 <= i < tokens.len() ==> spellable(#[trigger] tokens[i]),
    ensures
        holds_at(
            tokens_from(prefix + spelled(tokens), prefix.len() as int, 0),
            0,
            tokens.push(end()),
        ),
        tokens_from(prefix + spelled(tokens), prefix.len() as int, 0).len() == tokens.len() + 1,
    decreases tokens.len(),
{
    let text = prefix + spelled(tokens);
    let start = prefix.len() as int;
    let lexed = tokens_from(text, start, 0);
    if tokens.len() == 0 {
        assert(text =~= prefix);
        assert(lexed =~= seq![end_token(text)]);
        assert(same_token(lexed[0int + 0], tokens.push(end())[0]));
    } else {
        let t = tokens[0];
        let rest = tokens.skip(1);
        let stop = start + t.text.len();
        assert(spellable(t));
        let longer = prefix + t.text + seq![' '];
        assert(text =~= longer + spelled(rest));
        assert forall|i: int| 0 <= i < t.text.len() implies text[start + i] == #[trigger] t.text[i] by {}
        assert(text[stop] == ' ');
        lemma_scan_spelled(text, start, t);
        assert(blank_end(text, start) == start);
        assert(text.subrange(start, stop) =~= t.text);
        lemma_skip_blank(text, stop);
        assert forall|i: int| 0 <= i < rest.len() implies spellable(#[trigger] rest[i]) by {
            assert(rest[i] == tokens[i + 1]);
        }
        lemma_lex_spelled(longer, rest);
        let tail = tokens_from(text, stop + 1, 0);
        assert(lexed =~= seq![lexed[0]] + tail);
        assert(same_token(lexed[0], t));
        assert forall|i: int| 0 <= i < tokens.push(end()).len() implies same_token(
            lexed[0 + i],
            #[trigger] tokens.push(end())[i],
        ) by {
            if i > 0 {
                assert(lexed[i] == tail[i - 1]);
                assert(same_token(tail[0 + (i - 1)], rest.push(end())[i - 1]));
                assert(rest.push(end())[i - 1] == tokens.push(end())[i]);
            }
        }
    }
}

/// Whether every token has a text that the lexer reads as this token.
pub open spec fn all_spellable(tokens: Seq<TokenView>) -> bool {
    forall|i: int| 0 <= i < tokens.len() ==> spellable(#[trigger] tokens[i])
}

/// Whether the name of a call, written with `sep`, and each text among its
/// arguments is a bare word.
pub open spec fn bare_call(call: CallView, sep: char) -> bool {
    &&& bare_word(join(call.name, sep))
    &&& forall|i: int|
        0 <= i < call.arguments.len() ==> ((#[trigger] call.arguments[i]).cell matches CellView::Text(
            t,
        ) ==> bare_word(t))
}

/// Whether the names and the texts of all calls of all jobs are bare words.
pub open spec fn bare_jobs(jobs: Seq<JobView>, sep: char) -> bool {
    forall|i: int, j: int|
        0 <= i < jobs.len() && 0 <= j < jobs[i].commands.len() ==> bare_call(
            #[trigger] jobs[i].commands[j],
            sep,
        )
}

/// The lexer reads what writes an integer as an integer token.
pub proof fn lemma_number_spellable(i: int)
    ensures
        spellable(number(i)),
{
    lemma_numeral(i);
    if i >= 0 {
        lemma_digits(i as nat);
        assert(is_digit(digits(i as nat)[0]));
    }
}

proof fn lemma_spellable_concat(a: Seq<TokenView>, b: Seq<TokenView>)
    requires
        all_spellable(a),
        all_spellable(b),
    ensures
        all_spellable(a + b),
{
    assert forall|i: int| 0 <= i < (a + b).len() implies spellable(#[trigger] (a + b)[i]) by {
        if i < a.len() {
            assert((a + b)[i] == a[i]);
        } else {
            assert((a + b)[i] == b[i - a.len()]);
        }
    }
}

proof fn lemma_spellable_call(call: CallView, sep: char)
    requires
        plain_call(call, sep),
        bare_call(call, sep),
    ensures
        all_spellable(call_tokens(call, sep)),
{
    let arguments = argument_tokens(call.arguments);
    assert forall|i: int| 0 <= i < arguments.len() implies spellable(#[trigger] arguments[i]) by {
        let a = call.arguments[i];
        assert(literal_argument(a));
        match a.cell {
            CellView::Integer(n) => {
                lemma_number_spellable(n);
            },
            _ => {
                assert(bare_word(a.cell->Text_0));
            },
        }
    }
    let head = seq![word(join(call.name, sep))];
    assert(all_spellable(head));
    lemma_spellable_concat(head, arguments);
}

proof fn lemma_spellable_job(calls: Seq<CallView>, sep: char)
    requires
        forall|i: int| 0 <= i < calls.len() ==> plain_call(#[trigger] calls[i], sep) && bare_call(
            calls[i],
            sep,
        ),
    ensures
        all_spellable(job_tokens(calls, sep)),
    decreases calls.len(),
{
    if calls.len() > 0 {
        assert(plain_call(calls[0], sep) && bare_call(calls[0], sep));
        lemma_spellable_call(calls[0], sep);
        if calls.len() > 1 {
            let rest = calls.skip(1);
            assert forall|i: int| 0 <= i < rest.len() implies plain_call(#[trigger] rest[i], sep)
                && bare_call(rest[i], sep) by {
                assert(rest[i] == calls[i + 1]);
                assert(plain_call(calls[i + 1], sep) && bare_call(calls[i + 1], sep));
            }
            lemma_spellable_job(rest, sep);
            assert(all_spellable(seq![pipe()]));
            lemma_spellable_concat(call_tokens(calls[0], sep), seq![pipe()]);
            lemma_spellable_concat(
                call_tokens(calls[0], sep) + seq![pipe()],
                job_tokens(rest, sep),
            );
        }
    }
}

/// The tokens of plain jobs whose names and texts are bare words are all
/// tokens that the lexer reads as they are.
pub proof fn lemma_spellable_jobs(jobs: Seq<JobView>, sep: char)
    requires
        forall|i: int| 0 <= i < jobs.len() ==> plain_job(#[trigger] jobs[i], sep),
        bare_jobs(jobs, sep),
    ensures
        all_spellable(jobs_tokens(jobs, sep)),
    decreases jobs.len(),
{
    if jobs.len() > 0 {
        let calls = jobs[0].commands;
        assert(plain_job(jobs[0], sep));
        assert forall|j: int| 0 <= j < calls.len() implies plain_call(#[trigger] calls[j], sep)
            && bare_call(calls[j], sep) by {
            assert(bare_call(jobs[0].commands[j], sep));
        }
        lemma_spellable_job(calls, sep);
        if jobs.len() > 1 {
            let rest = jobs.skip(1);
            assert forall|i: int| 0 <= i < rest.len() implies plain_job(#[trigger] rest[i], sep) by {
                assert(rest[i] == jobs[i + 1]);
            }
            assert(bare_jobs(rest, sep)) by {
                assert forall|i: int, j: int|
                    0 <= i < rest.len() && 0 <= j < rest[i].commands.len() implies bare_call(
                    #[trigger] rest[i].commands[j],
                    sep,
                ) by {
                    assert(rest[i] == jobs[i + 1]);
                    assert(bare_call(jobs[i + 1].commands[j], sep));
                }
            }
            lemma_spellable_jobs(rest, sep);
            assert(all_spellable(seq![separator()]));
            lemma_spellable_concat(job_tokens(calls, sep), seq![separator()]);
            lemma_spellable_concat(
                job_tokens(calls, sep) + seq![separator()],
                jobs_tokens(rest, sep),
            );
        }
    }
}

/// The round trip: jobs with literal positional arguments, texts and
/// integers, written out as `render` writes them, with a space after each
/// word, number, pipe and separator, are parsed as the very jobs, provided
/// that each name and each text is a word that the lexer reads as a string
/// token.
pub proof fn lemma_parse_spelled(jobs: Seq<JobView>, sep: char)
    requires
        plain_jobs(jobs, sep),
        bare_jobs(jobs, sep),
    ensures
        parsed_jobs(tokenize(spelled(jobs_tokens(jobs, sep))), sep) == Ok::<Seq<JobView>, ErrorView>(
            jobs,
        ),
{
    let tokens = jobs_tokens(jobs, sep);
    let prefix = Seq::<char>::empty();
    lemma_spellable_jobs(jobs, sep);
    lemma_lex_spelled(prefix, tokens);
    assert(prefix + spelled(tokens) =~= spelled(tokens));
    lemma_parse_rendered(tokenize(spelled(tokens)), jobs, sep);
}

/// Whether every argument of a call is a literal without a name.
pub open spec fn literal_call(call: CallView) -> bool {
    forall|i: int| 0 <= i < call.arguments.len() ==> literal_argument(#[trigger] call.arguments[i])
}

/// Whether every argument of every call of a job is a literal without a
/// name.
pub open spec fn literal_job(job: JobView) -> bool {
    forall|i: int| 0 <= i < job.commands.len() ==> literal_call(#[trigger] job.commands[i])
}

/// Whether jobs can be rendered: every argument is a literal without a
/// name.
pub open spec fn renderable(jobs: Seq<JobView>) -> bool {
    forall|i: int| 0 <= i < jobs.len() ==> literal_job(#[trigger] jobs[i])
}

/// The text of tokens one after the other is the text of the first ones
/// followed by the text of the others.
pub proof fn lemma_spelled_concat(a: Seq<TokenView>, b: Seq<TokenView>)
    ensures
        spelled(a + b) == spelled(a) + spelled(b),
    decreases a.len(),
{
    if a.len() == 0 {
        assert(a + b =~= b);
        assert(spelled(a) + spelled(b) =~= spelled(b));
    } else {
        lemma_spelled_concat(a.skip(1), b);
        assert((a + b).skip(1) =~= a.skip(1) + b);
        assert(spelled(a + b) =~= spelled(a) + spelled(b));
    }
}

/// The text of one token.
proof fn lemma_spelled_one(t: TokenView)
    ensures
        spelled(seq![t]) == t.text.push(' '),
{
    let rest = seq![t].skip(1);
    assert(rest =~= Seq::<TokenView>::empty());
    assert(spelled(rest) =~= Seq::<char>::empty());
    assert(seq![t][0] == t);
    assert(spelled(seq![t]) =~= t.text.push(' '));
}

/// The tokens of calls with one more call at the end.
proof fn lemma_job_tokens_push(calls: Seq<CallView>, call: CallView, sep: char)
    ensures
        job_tokens(calls.push(call), sep) == if calls.len() == 0 {
            call_tokens(call, sep)
        } else {
            job_tokens(calls, sep) + seq![pipe()] + call_tokens(call, sep)
        },
    decreases calls.len(),
{
    let all = calls.push(call);
    if calls.len() == 0 {
    } else {
        assert(all[0] == calls[0]);
        assert(all.skip(1) =~= calls.skip(1).push(call));
        lemma_job_tokens_push(calls.skip(1), call, sep);
        if calls.len() == 1 {
            assert(calls.skip(1).len() == 0);
        } else {
            assert(job_tokens(all, sep) =~= job_tokens(calls, sep) + seq![pipe()] + call_tokens(
                call,
                sep,
            ));
        }
    }
}

/// The tokens of jobs with one more job at the end.
proof fn lemma_jobs_tokens_push(jobs: Seq<JobView>, job: JobView, sep: char)
    ensures
        jobs_tokens(jobs.push(job), sep) == if jobs.len() == 0 {
            job_tokens(job.commands, sep)
        } else {
            jobs_tokens(jobs, sep) + seq![separator()] + job_tokens(job.commands, sep)
        },
    decreases jobs.len(),
{
    let all = jobs.push(job);
    if jobs.len() == 0 {
    } else {
        assert(all[0] == jobs[0]);
        assert(all.skip(1) =~= jobs.skip(1).push(job));
        lemma_jobs_tokens_push(jobs.skip(1), job, sep);
        if jobs.len() == 1 {
            assert(jobs.skip(1).len() == 0);
        } else {
            assert(jobs_tokens(all, sep) =~= jobs_tokens(jobs, sep) + seq![separator()]
                + job_tokens(job.commands, sep));
        }
    }
}

/// Whether an argument is a literal without a name.
fn is_literal(argument: &ArgumentDefinition) -> (b: bool)
    ensures
        b == literal_argument(argument@),
{
    argument.name.is_none() && match &argument.cell {
        CellDefinition::Text(_) => true,
        CellDefinition::Integer(_) => true,
        _ => false,
    }
}

/// Whether every argument of a call is a literal without a name.
fn is_literal_call(call: &CallDefinition) -> (b: bool)
    ensures
        b == literal_call(call@),
{
    assert(call@.arguments =~= argument_views(call.arguments@));
    let mut i: usize = 0;
    while i < call.arguments.len()
        invariant
            i <= call.arguments.len(),
            call@.arguments == argument_views(call.arguments@),
            forall|j: int| 0 <= j < i ==> literal_argument(#[trigger] call@.arguments[j]),
        decreases call.arguments.len() - i,
    {
        if !is_literal(&call.arguments[i]) {
            assert(!literal_argument(call@.arguments[i as int]));
            return false;
        }
        i += 1;
    }
    true
}

/// Whether every argument of every call of a job is a literal without a
/// name.
fn is_literal_job(job: &JobDefinition) -> (b: bool)
    ensures
        b == literal_job(job@),
{
    assert(job@.commands =~= call_views(job.commands@));
    let mut i: usize = 0;
    while i < job.commands.len()
        invariant
            i <= job.commands.len(),
            job@.commands == call_views(job.commands@),
            forall|j: int| 0 <= j < i ==> literal_call(#[trigger] job@.commands[j]),
        decreases job.commands.len() - i,
    {
        if !is_literal_call(&job.commands[i]) {
            assert(!literal_call(job@.commands[i as int]));
            return false;
        }
        i += 1;
    }
    true
}

/// Writes a call: its name, then its arguments, with a space after each.
fn write_call(out: &mut String, call: &CallDefinition, sep: char)
    requires
        literal_call(call@),
    ensures
        final(out)@ == old(out)@ + spelled(call_tokens(call@, sep)),
{
    let ghost start = out@;
    let ghost arguments = argument_views(call.arguments@);
    let ghost head = seq![word(join(call@.name, sep))];
    assert(call@.arguments =~= arguments);
    let name = join_path(&call.name, sep);
    out.append(name.as_str());
    out.push(' ');
    proof {
        lemma_spelled_one(head[0]);
        assert(argument_tokens(arguments.take(0)) =~= Seq::<TokenView>::empty());
        assert(head + Seq::<TokenView>::empty() =~= head);
        assert(out@ =~= start + spelled(head));
    }
    let mut i: usize = 0;
    while i < call.arguments.len()
        invariant
            i <= call.arguments.len(),
            arguments == argument_views(call.arguments@),
            call@.arguments == arguments,
            literal_call(call@),
            out@ == start + spelled(head + argument_tokens(arguments.take(i as int))),
        decreases call.arguments.len() - i,
    {
        let ghost done = head + argument_tokens(arguments.take(i as int));
        let ghost token = argument_token(arguments[i as int]);
        assert(literal_argument(call@.arguments[i as int]));
        assert(arguments[i as int] == call.arguments@[i as int]@);
        match &call.arguments[i].cell {
            CellDefinition::Integer(value) => {
                let text = write_integer(*value);
                out.append(text.as_str());
            },
            CellDefinition::Text(text) => {
                out.append(text.as_str());
            },
            _ => {},
        }
        out.push(' ');
        proof {
            lemma_spelled_one(token);
            lemma_spelled_concat(done, seq![token]);
            assert(argument_tokens(arguments.take(i + 1)) =~= argument_tokens(
                arguments.take(i as int),
            ).push(token));
            assert(head + argument_tokens(arguments.take(i as int)).push(token) =~= done
                + seq![token]);
            assert(out@ =~= start + (spelled(done) + token.text.push(' ')));
        }
        i += 1;
    }
    assert(arguments.take(call.arguments.len() as int) =~= arguments);
}

/// Writes a job: its calls, with a pipe between neighbours.
fn write_job(out: &mut String, job: &JobDefinition, sep: char)
    requires
        literal_job(job@),
    ensures
        final(out)@ == old(out)@ + spelled(job_tokens(job@.commands, sep)),
{
    let ghost start = out@;
    let ghost calls = call_views(job.commands@);
    assert(job@.commands =~= calls);
    assert(calls.take(0) =~= Seq::<CallView>::empty());
    assert(start + spelled(job_tokens(calls.take(0), sep)) =~= start);
    let mut i: usize = 0;
    while i < job.commands.len()
        invariant
            i <= job.commands.len(),
            calls == call_views(job.commands@),
            job@.commands == calls,
            literal_job(job@),
            out@ == start + spelled(job_tokens(calls.take(i as int), sep)),
        decreases job.commands.len() - i,
    {
        let ghost done = job_tokens(calls.take(i as int), sep);
        let ghost call = calls[i as int];
        assert(call == job.commands@[i as int]@);
        assert(literal_call(job@.commands[i as int]));
        if i > 0 {
            out.push('|');
            out.push(' ');
        }
        let ghost middle = out@;
        write_call(out, &job.commands[i], sep);
        proof {
            assert(calls.take(i + 1) =~= calls.take(i as int).push(call));
            lemma_job_tokens_push(calls.take(i as int), call, sep);
            if i > 0 {
                lemma_spelled_one(pipe());
                lemma_spelled_concat(done, seq![pipe()]);
                lemma_spelled_concat(done + seq![pipe()], call_tokens(call, sep));
                assert(middle =~= start + spelled(done) + spelled(seq![pipe()]));
                assert(out@ =~= start + (spelled(done) + spelled(seq![pipe()]) + spelled(
                    call_tokens(call, sep),
                )));
            } else {
                assert(spelled(done) =~= Seq::<char>::empty());
                assert(out@ =~= start + spelled(call_tokens(call, sep)));
            }
        }
        i += 1;
    }
    assert(calls.take(job.commands.len() as int) =~= calls);
}

/// Writes jobs out as text: each word, pipe and separator with a space
/// after it. Every argument must be a literal without a name, a text or an
/// integer; else there is no text.
pub fn render(jobs: &Vec<JobDefinition>, sep: char) -> (r: Option<String>)
    ensures
        r is Some <==> renderable(job_views(jobs@)),
        r matches Some(text) ==> text@ == spelled(jobs_tokens(job_views(jobs@), sep)),
{
    let ghost views = job_views(jobs@);
    let mut i: usize = 0;
    while i < jobs.len()
        invariant
            i <= jobs.len(),
            views == job_views(jobs@),
            forall|j: int| 0 <= j < i ==> literal_job(#[trigger] views[j]),
        decreases jobs.len() - i,
    {
        assert(views[i as int] == jobs@[i as int]@);
        if !is_literal_job(&jobs[i]) {
            return None;
        }
        i += 1;
    }
    let mut out = String::new();
    assert(views.take(0) =~= Seq::<JobView>::empty());
    assert(out@ =~= spelled(jobs_tokens(views.take(0), sep)));
    let mut k: usize = 0;
    while k < jobs.len()
        invariant
            k <= jobs.len(),
            views == job_views(jobs@),
            renderable(views),
            out@ == spelled(jobs_tokens(views.take(k as int), sep)),
        decreases jobs.len() - k,
    {
        let ghost done = jobs_tokens(views.take(k as int), sep);
        let ghost job = views[k as int];
        assert(job == jobs@[k as int]@);
        assert(literal_job(views[k as int]));
        if k > 0 {
            out.push(';');
            out.push(' ');
        }
        let ghost middle = out@;
        write_job(&mut out, &jobs[k], sep);
        proof {
            assert(views.take(k + 1) =~= views.take(k as int).push(job));
            lemma_jobs_tokens_push(views.take(k as int), job, sep);
            if k > 0 {
                lemma_spelled_one(separator());
                lemma_spelled_concat(done, seq![separator()]);
                lemma_spelled_concat(done + seq![separator()], job_tokens(job.commands, sep));
                assert(middle =~= spelled(done) + spelled(seq![separator()]));
            } else {
                assert(spelled(done) =~= Seq::<char>::empty());
                assert(out@ =~= spelled(job_tokens(job.commands, sep)));
            }
        }
        k += 1;
    }
    assert(views.take(jobs.len() as int) =~= views);
    Some(out)
}

/// Jobs that the round trip covers can be rendered.
pub proof fn lemma_plain_jobs_renderable(jobs: Seq<JobView>, sep: char)
    requires
        plain_jobs(jobs, sep),
    ensures
        renderable(jobs),
{
    assert forall|i: int| 0 <= i < jobs.len() implies literal_job(#[trigger] jobs[i]) by {
        assert(plain_job(jobs[i], sep));
        assert forall|j: int| 0 <= j < jobs[i].commands.len() implies literal_call(
            #[trigger] jobs[i].commands[j],
        ) by {
            assert(plain_call(jobs[i].commands[j], sep));
        }
    }
}

} // verus!
