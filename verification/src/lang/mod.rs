//! The surface that the shell reads: source text to jobs that are ready to
//! run in a scope.
pub mod parser;
