//! The language core of a structured-data shell: source text is lexed and
//! parsed into job definitions, names are resolved in a tree of scopes, and
//! jobs run as pipelines of commands that exchange typed rows.
//!
//! Every function is verified against a contract over the mathematical view
//! of its arguments. The few items that speak for code outside the library
//! (regular expressions, two functions of the standard library) say so in
//! their documentation; their contracts are believed, not proved.
pub mod text;
pub mod errors;
pub mod names;
pub mod lexer;
pub mod pattern;
pub mod data;
pub mod literals;
pub mod grammar;
pub mod parser;
pub mod render;
pub mod value;
pub mod stream;
pub mod scope;
pub mod argument;
pub mod execution_context;
pub mod commands;
pub mod job;
pub mod lang;
