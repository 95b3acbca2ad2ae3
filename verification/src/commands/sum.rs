//! Integer aggregation: the sum of one column.
use vstd::prelude::*;
use crate::argument::{argument_models, column_of, column_path, Argument, ArgumentModel};
use crate::errors::{fail, family, plain, Cause, CrushResult, ErrorKind, ErrorView};
use crate::execution_context::{ExecutionContext, ValueSender};
use crate::stream::{Readable, RowsReader};
use crate::value::{
    column_views, field_index, find_field, kind_of, row_matches, value_views, ColumnType,
    ColumnView, RowView, TableView, Value, ValueType, ValueView,
};

verus! {

/// The column to add up. Without arguments the input must be one column of
/// integers. With one argument it must be a field of one segment that
/// names a column of integers.
pub open spec fn sum_column(types: Seq<ColumnView>, arguments: Seq<ArgumentModel>) -> Result<
    int,
    ErrorView,
> {
    if arguments.len() == 0 {
        if types.len() == 1 && types[0].cell_type == ValueType::Integer {
            Ok(0)
        } else {
            Err(plain(Cause::UnexpectedInputFormat))
        }
    } else if arguments.len() == 1 {
        match column_path(arguments[0].value) {
            Some(path) => match field_index(types, path) {
                Ok(i) => if types[i].cell_type == ValueType::Integer {
                    Ok(i)
                } else {
                    Err(plain(Cause::UnexpectedInputFormat))
                },
                Err(e) => Err(e),
            },
            None => Err(plain(Cause::ExpectedField)),
        }
    } else {
        Err(plain(Cause::ExpectedOneField))
    }
}

/// Reads the arguments: the index of the column to add up.
pub fn parse(input_type: &Vec<ColumnType>, arguments: &Vec<Argument>) -> (r: CrushResult<usize>)
    ensures
        match sum_column(column_views(input_type@), argument_models(arguments@)) {
            Ok(i) => r matches Ok(found) && found == i && 0 <= i < input_type.len(),
            Err(e) => r matches Err(error) && error@ == e,
        },
{
    let ghost types = column_views(input_type@);
    let ghost models = argument_models(arguments@);
    if arguments.len() == 0 {
        if input_type.len() == 1 && input_type[0].cell_type == ValueType::Integer {
            assert(types[0].cell_type == ValueType::Integer);
            Ok(0)
        } else {
            assert(types.len() == 1 ==> types[0].cell_type == input_type@[0].cell_type);
            fail(Cause::UnexpectedInputFormat)
        }
    } else if arguments.len() == 1 {
        assert(models[0] == arguments@[0]@);
        let column = match column_of(&arguments[0].value) {
            Ok(f) => match find_field(&f, input_type) {
                Ok(column) => column,
                Err(e) => {
                    return Err(e);
                },
            },
            Err(e) => {
                return Err(e);
            },
        };
        assert(types[column as int].cell_type == input_type@[column as int].cell_type);
        if input_type[column].cell_type == ValueType::Integer {
            Ok(column)
        } else {
            fail(Cause::UnexpectedInputFormat)
        }
    } else {
        fail(Cause::ExpectedOneField)
    }
}

/// Whether a number fits the integer type of values.
pub open spec fn fits(v: int) -> bool {
    i128::MIN <= v <= i128::MAX
}

/// The result of adding the cells of a column to `acc`, from the first row
/// to the last. The scan stops with `ExpectedInteger` at the first cell
/// that is no integer, and with `IntegerOverflow` at the first partial sum
/// that does not fit.
pub open spec fn scan_sum(rows: Seq<RowView>, column: int, acc: int) -> Result<int, ErrorView>
    decreases rows.len(),
{
    if rows.len() == 0 {
        Ok(acc)
    } else {
        match rows[0][column] {
            ValueView::Integer(i) => if fits(acc + i) {
                scan_sum(rows.skip(1), column, acc + i)
            } else {
                Err(plain(Cause::IntegerOverflow))
            },
            _ => Err(plain(Cause::ExpectedInteger)),
        }
    }
}

/// Adds up the cells of `column` over all rows of `s`.
pub fn sum_rows<R: Readable>(s: R, column: usize) -> (r: CrushResult<Value>)
    requires
        column < s.contents().types.len(),
    ensures
        match scan_sum(s.contents().rows, column as int, 0) {
            Ok(total) => r matches Ok(value) && value@ == ValueView::Integer(total),
            Err(e) => r matches Err(error) && error@ == e,
        },
{
    let ghost all = s.contents().rows;
    let ghost types = s.contents().types;
    let mut source = s;
    let mut res: i128 = 0;
    loop
        invariant
            column < types.len(),
            source.contents().types == types,
            all == s.contents().rows,
            scan_sum(all, column as int, 0) == scan_sum(
                source.contents().rows,
                column as int,
                res as int,
            ),
        decreases source.contents().rows.len(),
    {
        let ghost rest = source.contents().rows;
        match source.read() {
            Ok(row) => {
                assert(row_matches(rest[0], types));
                let cells = row.cells();
                let ghost cell = rest[0][column as int];
                assert(cells@[column as int]@ == cell) by {
                    assert(value_views(cells@)[column as int] == cells@[column as int]@);
                }
                match cells[column] {
                    Value::Integer(i) => {
                        assert(cell == ValueView::Integer(i as int));
                        match res.checked_add(i) {
                            Some(sum) => {
                                res = sum;
                            },
                            None => {
                                assert(!fits(res + i));
                                return fail(Cause::IntegerOverflow);
                            },
                        }
                    },
                    _ => {
                        assert(!(cell is Integer));
                        return fail(Cause::ExpectedInteger);
                    },
                }
            },
            Err(_) => {
                return Ok(Value::Integer(res));
            },
        }
    }
}

/// The number in a cell: the integer that it holds, and nothing for a cell
/// of another kind.
pub open spec fn cell_number(v: ValueView) -> int {
    match v {
        ValueView::Integer(i) => i,
        _ => 0,
    }
}

/// Adding the number in the cell of a column.
pub open spec fn add_cell(column: int) -> spec_fn(int, RowView) -> int {
    |acc: int, row: RowView| acc + cell_number(row[column])
}

/// The sum of the numbers in a column.
pub open spec fn column_total(rows: Seq<RowView>, column: int) -> int {
    rows.fold_left(0, add_cell(column))
}

/// A scan that succeeds gives what it started with plus the numbers in the
/// column.
pub proof fn lemma_scan_sum_adds(rows: Seq<RowView>, column: int, acc: int)
    ensures
        scan_sum(rows, column, acc) matches Ok(total) ==> total == rows.fold_left(
            acc,
            add_cell(column),
        ),
    decreases rows.len(),
{
    rows.lemma_fold_left_alt(acc, add_cell(column));
    if rows.len() > 0 {
        if let ValueView::Integer(i) = rows[0][column] {
            if fits(acc + i) {
                let rest = rows.skip(1);
                assert(rest == rows.subrange(1, rows.len() as int));
                lemma_scan_sum_adds(rest, column, acc + i);
                rest.lemma_fold_left_alt(acc + i, add_cell(column));
                assert(add_cell(column)(acc, rows[0]) == acc + i);
            }
        }
    }
}

/// The sum of a column is the same in whatever order the rows come.
pub proof fn lemma_total_ignores_order(a: Seq<RowView>, b: Seq<RowView>, column: int)
    requires
        a.to_multiset() == b.to_multiset(),
    ensures
        column_total(a, column) == column_total(b, column),
{
    let f = add_cell(column);
    assert(vstd::seq_lib::commutative_foldl(f)) by {
        assert forall|x: RowView, y: RowView, v: int| #[trigger] f(f(v, x), y) == f(f(v, y), x) by {}
    }
    vstd::seq_lib::lemma_fold_left_permutation(a, b, f, 0);
}

/// Aggregation does not depend on the order of the rows: two scans of the
/// same rows in different orders that both succeed give the same sum. (A
/// scan fails when a partial sum does not fit, which depends on the order.)
pub proof fn lemma_sum_ignores_order(a: Seq<RowView>, b: Seq<RowView>, column: int)
    requires
        a.to_multiset() == b.to_multiset(),
        scan_sum(a, column, 0) is Ok,
        scan_sum(b, column, 0) is Ok,
    ensures
        scan_sum(a, column, 0) == scan_sum(b, column, 0),
{
    lemma_scan_sum_adds(a, column, 0);
    lemma_scan_sum_adds(b, column, 0);
    lemma_total_ignores_order(a, b, column);
}

/// A scan over rows with a cell in the column that is no integer fails
/// with an error of the type family.
pub proof fn lemma_sum_rejects_other_cells(rows: Seq<RowView>, column: int, acc: int, i: int)
    requires
        0 <= i < rows.len(),
        !(rows[i][column] is Integer),
    ensures
        scan_sum(rows, column, acc) matches Err(e) && family(e.cause) == ErrorKind::Type,
    decreases rows.len(),
{
    if i > 0 {
        if let ValueView::Integer(first) = rows[0][column] {
            if fits(acc + first) {
                assert(rows.skip(1)[i - 1] == rows[i]);
                lemma_sum_rejects_other_cells(rows.skip(1), column, acc + first, i - 1);
            }
        }
    }
}

/// What the sum command makes of its input: the total, or the error.
pub open spec fn sum_of(input: Option<ValueView>, arguments: Seq<ArgumentModel>) -> Result<
    int,
    ErrorView,
> {
    match input {
        None => Err(plain(Cause::NoInput)),
        Some(ValueView::Stream(table)) => sum_of_rows(table, arguments),
        Some(ValueView::Rows(table)) => sum_of_rows(table, arguments),
        Some(_) => Err(plain(Cause::ExpectedStream)),
    }
}

/// The sum of the chosen column of a table, or the error.
#[verifier::opaque]
pub open spec fn sum_of_rows(table: TableView, arguments: Seq<ArgumentModel>) -> Result<
    int,
    ErrorView,
> {
    match sum_column(table.types, arguments) {
        Err(e) => Err(e),
        Ok(column) => scan_sum(table.rows, column, 0),
    }
}

/// The command gives the same sum for the same rows in any order, where
/// it gives a sum for both orders.
pub proof fn lemma_sum_of_rows_ignores_order(
    one: TableView,
    other: TableView,
    arguments: Seq<ArgumentModel>,
)
    requires
        one.types == other.types,
        one.rows.to_multiset() == other.rows.to_multiset(),
        sum_of_rows(one, arguments) is Ok,
        sum_of_rows(other, arguments) is Ok,
    ensures
        sum_of_rows(one, arguments) == sum_of_rows(other, arguments),
{
    reveal(sum_of_rows);
    let column = sum_column(one.types, arguments)->Ok_0;
    lemma_sum_ignores_order(one.rows, other.rows, column);
}

/// Adds up the chosen column of a source and sends the sum.
fn sum_source<R: Readable>(input: R, arguments: &Vec<Argument>, output: &mut ValueSender) -> (r:
    CrushResult<()>)
    ensures
        final(output).connected == old(output).connected,
        match sum_of_rows(input.contents(), argument_models(arguments@)) {
            Ok(total) => if old(output).connected {
                &&& r is Ok
                &&& final(output).delivered() == old(output).delivered().push(
                    ValueView::Integer(total),
                )
            } else {
                &&& r matches Err(e)
                &&& e@ == plain(Cause::Disconnected)
                &&& final(output).delivered() == old(output).delivered()
            },
            Err(e) => {
                &&& r matches Err(error)
                &&& error@ == e
                &&& final(output).delivered() == old(output).delivered()
            },
        },
{
    reveal(sum_of_rows);
    let column = match parse(input.types(), arguments) {
        Ok(column) => column,
        Err(e) => {
            return Err(e);
        },
    };
    match sum_rows(input, column) {
        Ok(total) => output.send(total),
        Err(e) => Err(e),
    }
}

/// The sum command: takes the rows handed to it and sends the sum of one
/// column as a single integer. The input is used up. On an error nothing
/// is sent.
pub fn perform(context: &mut ExecutionContext) -> (r: CrushResult<()>)
    ensures
        final(context).env == old(context).env,
        final(context).input.waiting() is None,
        final(context).arguments == old(context).arguments,
        final(context).printer == old(context).printer,
        final(context).output.connected == old(context).output.connected,
        match sum_of(old(context).input.waiting(), argument_models(old(context).arguments@)) {
            Ok(total) => if old(context).output.connected {
                &&& r is Ok
                &&& final(context).output.delivered() == old(context).output.delivered().push(
                    ValueView::Integer(total),
                )
            } else {
                &&& r matches Err(e)
                &&& e@ == plain(Cause::Disconnected)
                &&& final(context).output.delivered() == old(context).output.delivered()
            },
            Err(e) => {
                &&& r matches Err(error)
                &&& error@ == e
                &&& final(context).output.delivered() == old(context).output.delivered()
            },
        },
{
    let value = match context.input.recv() {
        Ok(value) => value,
        Err(e) => {
            return Err(e);
        },
    };
    let ghost input = value@;
    match value {
        Value::Stream(s) => {
            assert(input == ValueView::Stream(s@));
            sum_source(s, &context.arguments, &mut context.output)
        },
        Value::Rows(r) => {
            assert(input == ValueView::Rows(r@));
            sum_source(RowsReader::new(r), &context.arguments, &mut context.output)
        },
        other => {
            assert(!(input is Stream) && !(input is Rows)) by {
                assert(kind_of(other@) != ValueType::Stream && kind_of(other@) != ValueType::Rows);
            }
            fail(Cause::ExpectedStream)
        },
    }
}

} // verus!
