//! Parsing of source text, with `/` between the segments of a name.
use vstd::prelude::*;
use crate::data::JobView;
use crate::errors::{reports, Cause, CrushResult};
use crate::grammar::parsed_jobs;
use crate::job::{bind, bound_jobs, Job};
use crate::lexer::{tokenize, Lexer, TokenType};
use crate::names::{split_on, split_path, well_formed_path};
use crate::parser::parse_error;
use crate::text::texts;

verus! {

/// Splits a name at every `/`; `None` when a segment is empty.
pub fn parse_name(s: &str) -> (r: Option<Vec<String>>)
    ensures
        r is Some <==> well_formed_path(s@, '/'),
        r matches Some(v) ==> texts(v@) == split_on(s@, '/'),
{
    split_path(s, '/')
}

/// Parses a line or a script into jobs that run in the scope `env`. The
/// text must hold jobs and nothing else.
pub fn parse(s: &str, env: usize) -> (r: CrushResult<Vec<Job>>)
    ensures
        match parsed_jobs(tokenize(s@), '/') {
            Ok(jobs) => r matches Ok(bound) && bound_jobs(bound@) == jobs.map_values(
                |job: JobView| (job, env as int),
            ),
            Err(e) => r matches Err(error) && reports(error@, e),
        },
{
    let mut lexer = Lexer::with_separator(s, '/');
    let definitions = match crate::parser::parse(&mut lexer) {
        Ok(definitions) => definitions,
        Err(e) => {
            return Err(e);
        },
    };
    if lexer.peek_type() != TokenType::EOF {
        return Err(parse_error(Cause::WrongTokenType, &lexer));
    }
    Ok(bind(definitions, env))
}

} // verus!
