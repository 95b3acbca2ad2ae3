//! Errors: what went wrong, where, and with which text.
use vstd::prelude::*;
use crate::lexer::{kind_name, TokenType};

verus! {

/// The families of errors.
#[derive(Debug, Clone, Copy, PartialEq, Eq, Structural)]
pub enum ErrorKind {
    /// Unrecognized or unterminated token.
    Lex,
    /// A token where another was expected, or a malformed literal.
    Parse,
    /// A name that is not bound, a frozen scope, a duplicate declaration.
    NameResolution,
    /// Wrong number or kind of arguments to a command.
    Argument,
    /// A row or cell of the wrong kind.
    Type,
    /// A job that cannot be built.
    Construction,
    /// A stream whose other end has gone away.
    Runtime,
}

/// What went wrong.
#[derive(Debug, Clone, Copy, PartialEq, Eq, Structural)]
pub enum Cause {
    /// The lexer met text that is no token.
    BadToken,
    /// A job does not start with a command name.
    ExpectedCommandName,
    /// A command does not start with its name.
    ExpectedCommand,
    /// A job is followed by something other than a separator or the end.
    WrongTokenType,
    /// A variable or field name has an empty segment.
    IllegalVariableName,
    /// A command name has an empty segment.
    IllegalCommandName,
    /// An integer literal is no number or does not fit.
    InvalidNumber,
    /// A block is not closed.
    ExpectedBlockEnd,
    /// A glob block holds no glob.
    ExpectedGlob,
    /// A block starts with an unknown sigil.
    UnknownSigil,
    /// An indexed variable is not followed by `[`.
    ExpectedListStart,
    /// An index is not followed by `]`. In words this error names the
    /// bracket that opened the index.
    ExpectedListEnd,
    /// A token of the given kind, which starts no expression.
    UnknownToken(TokenType),
    /// A regular expression that does not compile.
    InvalidRegex,
    /// A name that no scope on the way binds.
    UnknownName,
    /// A name that is bound to something other than a scope.
    NotAScope,
    /// A declaration in a frozen scope.
    FrozenScope,
    /// A second declaration of a name in one scope.
    DuplicateName,
    /// Too few or too many arguments.
    WrongArgumentCount,
    /// More than the one argument that names the column.
    ExpectedOneField,
    /// An argument that is no field.
    ExpectedField,
    /// A field path of more than one segment.
    PathTooLong,
    /// A field that names no column.
    UnknownColumn,
    /// Input that is not a single column of integers.
    UnexpectedInputFormat,
    /// A row that does not match its column types.
    RowMismatch,
    /// A cell that is no integer.
    ExpectedInteger,
    /// A sum that does not fit the integer type.
    IntegerOverflow,
    /// A command name that the registry does not know.
    UnknownCommand,
    /// A job without any command.
    EmptyJob,
    /// An expression that cannot be evaluated.
    BadExpression,
    /// Input that is neither a stream nor a set of rows.
    ExpectedStream,
    /// Input to be deduplicated that is neither a stream nor a set of rows.
    ExpectedInputStream,
    /// Nothing was handed to the command.
    NoInput,
    /// The reading end of a stream has gone away.
    Disconnected,
    /// A stream has no more rows. This ends a scan; it is no fault.
    EndOfStream,
}

/// The family that a cause belongs to.
pub open spec fn family(cause: Cause) -> ErrorKind {
    match cause {
        Cause::BadToken => ErrorKind::Lex,
        Cause::ExpectedCommandName | Cause::ExpectedCommand | Cause::WrongTokenType
        | Cause::IllegalVariableName
        | Cause::IllegalCommandName | Cause::InvalidNumber | Cause::ExpectedBlockEnd
        | Cause::ExpectedGlob | Cause::UnknownSigil | Cause::ExpectedListStart
        | Cause::ExpectedListEnd | Cause::UnknownToken(_) | Cause::InvalidRegex => ErrorKind::Parse,
        Cause::UnknownName | Cause::NotAScope | Cause::FrozenScope | Cause::DuplicateName =>
            ErrorKind::NameResolution,
        Cause::WrongArgumentCount | Cause::ExpectedOneField | Cause::ExpectedField
        | Cause::PathTooLong
        | Cause::UnknownColumn | Cause::UnexpectedInputFormat => ErrorKind::Argument,
        Cause::RowMismatch | Cause::ExpectedInteger | Cause::IntegerOverflow => ErrorKind::Type,
        Cause::UnknownCommand | Cause::EmptyJob | Cause::BadExpression => ErrorKind::Construction,
        Cause::ExpectedStream | Cause::ExpectedInputStream | Cause::NoInput | Cause::Disconnected
        | Cause::EndOfStream =>
            ErrorKind::Runtime,
    }
}

/// What went wrong, in words.
pub open spec fn cause_text(cause: Cause) -> Seq<char> {
    match cause {
        Cause::BadToken => "Bad token"@,
        Cause::ExpectedCommandName => "Wrong token type, expected command name"@,
        Cause::ExpectedCommand => "Expected command name"@,
        Cause::WrongTokenType => "Wrong token type"@,
        Cause::IllegalVariableName => "Illegal varaible name"@,
        Cause::IllegalCommandName => "Illegal command name"@,
        Cause::InvalidNumber => "Invalid number"@,
        Cause::ExpectedBlockEnd => "Expected '}'"@,
        Cause::ExpectedGlob => "Expected string token"@,
        Cause::UnknownSigil => "Cannot handle sigil type"@,
        Cause::ExpectedListStart => "Expected '['"@,
        Cause::ExpectedListEnd => "Expected '['"@,
        Cause::UnknownToken(kind) => "Unknown token "@ + kind_name(kind),
        Cause::InvalidRegex => "Invalid regular expression"@,
        Cause::UnknownName => "Unknown name"@,
        Cause::NotAScope => "Not a scope"@,
        Cause::FrozenScope => "Scope is read only"@,
        Cause::DuplicateName => "Name is already declared"@,
        Cause::WrongArgumentCount => "Wrong number of arguments"@,
        Cause::ExpectedOneField => "Expected exactly one argument, a field defintition"@,
        Cause::ExpectedField => "Unexpected cell type, expected field"@,
        Cause::PathTooLong => "Path contains too many elements"@,
        Cause::UnknownColumn => "Unknown column"@,
        Cause::UnexpectedInputFormat =>
            "Unexpected input format, expected a single column of integers"@,
        Cause::RowMismatch => "Row does not match the column types"@,
        Cause::ExpectedInteger => "Invalid cell value, expected an integer"@,
        Cause::IntegerOverflow => "Integer overflow"@,
        Cause::UnknownCommand => "Unknown command"@,
        Cause::EmptyJob => "Empty job"@,
        Cause::BadExpression => "Cannot evaluate expression"@,
        Cause::ExpectedStream => "Expected a stream"@,
        Cause::ExpectedInputStream => "Expected input to be a stream"@,
        Cause::NoInput => "No input"@,
        Cause::Disconnected => "Stream is disconnected"@,
        Cause::EndOfStream => "End of stream"@,
    }
}

/// What went wrong, and after a colon the text that the error is about,
/// if there is one.
pub open spec fn headline(e: ErrorView) -> Seq<char> {
    if e.subject.len() == 0 {
        cause_text(e.cause)
    } else {
        cause_text(e.cause) + ": "@ + e.subject
    }
}

/// The description of an error: what went wrong, after a colon the text
/// that the error is about, if there is one, and after another colon the
/// detail, if there is one. A regular expression that does not compile is
/// described by what the compiler said of it, where it said anything.
pub open spec fn described(e: ErrorView) -> Seq<char> {
    if e.detail.len() == 0 {
        headline(e)
    } else if e.cause == Cause::InvalidRegex {
        e.detail
    } else {
        headline(e) + ": "@ + e.detail
    }
}

/// An error: its cause, the text it is about (the offending token, the
/// missing name), for errors in source text the offset of that token, and
/// what code outside the library said about the failure, if it was met
/// there.
#[derive(Debug, Clone)]
pub struct CrushError {
    pub cause: Cause,
    pub subject: String,
    pub position: usize,
    pub detail: String,
}

/// The mathematical view of an error.
pub struct ErrorView {
    pub cause: Cause,
    pub subject: Seq<char>,
    pub position: nat,
    pub detail: Seq<char>,
}

impl View for CrushError {
    type V = ErrorView;

    open spec fn view(&self) -> ErrorView {
        ErrorView {
            cause: self.cause,
            subject: self.subject@,
            position: self.position as nat,
            detail: self.detail@,
        }
    }
}

pub type CrushResult<T> = Result<T, CrushError>;

/// An error that is about no text.
pub open spec fn plain(cause: Cause) -> ErrorView {
    ErrorView { cause, subject: Seq::<char>::empty(), position: 0, detail: Seq::<char>::empty() }
}

/// An error that is about a name.
pub open spec fn about(cause: Cause, subject: Seq<char>) -> ErrorView {
    ErrorView { cause, subject, position: 0, detail: Seq::<char>::empty() }
}

/// Whether an error is the one that is expected. What code outside the
/// library says about a failure is not foretold: of the error for a regular
/// expression that does not compile, the detail may be any text. Of every
/// other error the detail is as expected.
pub open spec fn reports(error: ErrorView, expected: ErrorView) -> bool {
    &&& error.cause == expected.cause
    &&& error.subject == expected.subject
    &&& error.position == expected.position
    &&& expected.cause != Cause::InvalidRegex ==> error.detail == expected.detail
}

impl CrushError {
    /// The family of this error.
    pub fn kind(&self) -> (k: ErrorKind)
        ensures
            k == family(self.cause),
    {
        match self.cause {
            Cause::BadToken => ErrorKind::Lex,
            Cause::ExpectedCommandName | Cause::ExpectedCommand | Cause::WrongTokenType
        | Cause::IllegalVariableName
            | Cause::IllegalCommandName | Cause::InvalidNumber | Cause::ExpectedBlockEnd
            | Cause::ExpectedGlob | Cause::UnknownSigil | Cause::ExpectedListStart
            | Cause::ExpectedListEnd | Cause::UnknownToken(_) | Cause::InvalidRegex =>
                ErrorKind::Parse,
            Cause::UnknownName | Cause::NotAScope | Cause::FrozenScope | Cause::DuplicateName =>
                ErrorKind::NameResolution,
            Cause::WrongArgumentCount | Cause::ExpectedOneField | Cause::ExpectedField
        | Cause::PathTooLong
            | Cause::UnknownColumn | Cause::UnexpectedInputFormat => ErrorKind::Argument,
            Cause::RowMismatch | Cause::ExpectedInteger | Cause::IntegerOverflow =>
                ErrorKind::Type,
            Cause::UnknownCommand | Cause::EmptyJob | Cause::BadExpression =>
                ErrorKind::Construction,
            Cause::ExpectedStream | Cause::ExpectedInputStream | Cause::NoInput | Cause::Disconnected
        | Cause::EndOfStream =>
                ErrorKind::Runtime,
        }
    }

    /// A short description of the error, for display.
    pub fn message(&self) -> (text: String)
        ensures
            text@ == described(self@),
    {
        if self.cause == Cause::InvalidRegex && !self.detail.as_str().is_empty() {
            return self.detail.clone();
        }
        let text = match self.cause {
            Cause::BadToken => "Bad token",
            Cause::ExpectedCommandName => "Wrong token type, expected command name",
            Cause::ExpectedCommand => "Expected command name",
            Cause::WrongTokenType => "Wrong token type",
            Cause::IllegalVariableName => "Illegal varaible name",
            Cause::IllegalCommandName => "Illegal command name",
            Cause::InvalidNumber => "Invalid number",
            Cause::ExpectedBlockEnd => "Expected '}'",
            Cause::ExpectedGlob => "Expected string token",
            Cause::UnknownSigil => "Cannot handle sigil type",
            Cause::ExpectedListStart => "Expected '['",
            Cause::ExpectedListEnd => "Expected '['",
            Cause::UnknownToken(_) => "Unknown token ",
            Cause::InvalidRegex => "Invalid regular expression",
            Cause::UnknownName => "Unknown name",
            Cause::NotAScope => "Not a scope",
            Cause::FrozenScope => "Scope is read only",
            Cause::DuplicateName => "Name is already declared",
            Cause::WrongArgumentCount => "Wrong number of arguments",
            Cause::ExpectedOneField => "Expected exactly one argument, a field defintition",
            Cause::ExpectedField => "Unexpected cell type, expected field",
            Cause::PathTooLong => "Path contains too many elements",
            Cause::UnknownColumn => "Unknown column",
            Cause::UnexpectedInputFormat =>
                "Unexpected input format, expected a single column of integers",
            Cause::RowMismatch => "Row does not match the column types",
            Cause::ExpectedInteger => "Invalid cell value, expected an integer",
            Cause::IntegerOverflow => "Integer overflow",
            Cause::UnknownCommand => "Unknown command",
            Cause::EmptyJob => "Empty job",
            Cause::BadExpression => "Cannot evaluate expression",
            Cause::ExpectedStream => "Expected a stream",
            Cause::ExpectedInputStream => "Expected input to be a stream",
            Cause::NoInput => "No input",
            Cause::Disconnected => "Stream is disconnected",
            Cause::EndOfStream => "End of stream",
        };
        let mut out = String::from_str(text);
        if let Cause::UnknownToken(kind) = self.cause {
            out.append(kind.name());
        }
        if !self.subject.as_str().is_empty() {
            out.append(": ");
            out.append(self.subject.as_str());
        }
        if !self.detail.as_str().is_empty() {
            out.append(": ");
            out.append(self.detail.as_str());
        }
        out
    }
}

/// An error that is about no text.
pub fn fail<T>(cause: Cause) -> (r: CrushResult<T>)
    ensures
        r matches Err(e) && e@ == plain(cause),
{
    Err(CrushError { cause, subject: String::new(), position: 0, detail: String::new() })
}

/// An error that is about a name.
pub fn fail_about<T>(cause: Cause, subject: &str) -> (r: CrushResult<T>)
    ensures
        r matches Err(e) && e@ == about(cause, subject@),
{
    Err(
        CrushError {
            cause,
            subject: String::from_str(subject),
            position: 0,
            detail: String::new(),
        },
    )
}

} // verus!
