//! Arguments: the values that a command is called with.
use vstd::prelude::*;
use crate::errors::{fail, plain, Cause, CrushResult, ErrorView};
use crate::text::{copy_strings, texts};
use crate::value::{Value, ValueView};

verus! {

/// A value handed to a command, with a name or without.
#[derive(Debug)]
pub struct Argument {
    pub name: Option<String>,
    pub value: Value,
}

pub struct ArgumentModel {
    pub name: Option<Seq<char>>,
    pub value: ValueView,
}

impl View for Argument {
    type V = ArgumentModel;

    open spec fn view(&self) -> ArgumentModel {
        ArgumentModel {
            name: match self.name {
                Some(n) => Some(n@),
                None => None,
            },
            value: self.value@,
        }
    }
}

/// The views of a sequence of arguments, in order.
pub open spec fn argument_models(v: Seq<Argument>) -> Seq<ArgumentModel> {
    v.map_values(|a: Argument| a@)
}

impl Argument {
    /// An argument with a name.
    pub fn named(name: &str, value: Value) -> (a: Argument)
        ensures
            a@ == (ArgumentModel { name: Some(name@), value: value@ }),
    {
        Argument { name: Some(String::from_str(name)), value }
    }

    /// A positional argument.
    pub fn unnamed(value: Value) -> (a: Argument)
        ensures
            a@ == (ArgumentModel { name: None, value: value@ }),
    {
        Argument { name: None, value }
    }
}

/// Fails with `WrongArgumentCount` unless there are at least `min` and at
/// most `max` arguments.
pub fn check_len_range(arguments: &Vec<Argument>, min: usize, max: usize) -> (r: CrushResult<()>)
    ensures
        r is Ok <==> min <= arguments.len() <= max,
        r matches Err(e) ==> e@ == plain(Cause::WrongArgumentCount),
{
    if arguments.len() < min || arguments.len() > max {
        fail(Cause::WrongArgumentCount)
    } else {
        Ok(())
    }
}

/// The path of the column that a value names. Only a field names a
/// column.
pub open spec fn column_path(value: ValueView) -> Option<Seq<Seq<char>>> {
    match value {
        ValueView::Field(path) => Some(path),
        _ => None,
    }
}

/// The path of the column that argument `idx` names, if there is such an
/// argument.
pub open spec fn field_argument(arguments: Seq<ArgumentModel>, idx: int) -> Result<
    Option<Seq<Seq<char>>>,
    ErrorView,
> {
    if idx < 0 || idx >= arguments.len() {
        Ok(None)
    } else {
        match column_path(arguments[idx].value) {
            Some(path) => Ok(Some(path)),
            None => Err(plain(Cause::ExpectedField)),
        }
    }
}

/// The path of the column that a value names; an error when the value is
/// no field.
pub fn column_of(value: &Value) -> (r: CrushResult<Vec<String>>)
    ensures
        match column_path(value@) {
            Some(path) => r matches Ok(p) && texts(p@) == path,
            None => r matches Err(e) && e@ == plain(Cause::ExpectedField),
        },
{
    match value {
        Value::Field(path) => Ok(copy_strings(path)),
        _ => fail(Cause::ExpectedField),
    }
}

/// The path of the column that argument `idx` names; `None` when there
/// are fewer arguments; an error when the argument names no column.
pub fn optional_field(arguments: &Vec<Argument>, idx: usize) -> (r: CrushResult<
    Option<Vec<String>>,
>)
    ensures
        match field_argument(argument_models(arguments@), idx as int) {
            Ok(expected) => r matches Ok(found) && (found is Some <==> expected is Some) && (
            found matches Some(p) ==> texts(p@) == expected->0),
            Err(e) => r matches Err(error) && error@ == e,
        },
{
    if idx >= arguments.len() {
        return Ok(None);
    }
    assert(argument_models(arguments@)[idx as int] == arguments@[idx as int]@);
    match column_of(&arguments[idx].value) {
        Ok(path) => Ok(Some(path)),
        Err(e) => Err(e),
    }
}

} // verus!
