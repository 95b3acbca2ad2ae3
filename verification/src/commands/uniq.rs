//! Deduplication: forwards a row the first time its key is seen. The key
//! is the whole row, or the cell of one column. Keys are compared by what
//! they hold, and the keys that were seen are kept in a list.
use vstd::prelude::*;
use crate::argument::{
    argument_models, check_len_range, field_argument, optional_field, Argument, ArgumentModel,
};
use crate::errors::{fail, plain, Cause, CrushResult, ErrorView};
use crate::stream::{after_send, send_error, OutputStream, OutputView, Printer, Readable};
use crate::execution_context::{ExecutionContext, ValueSender};
use crate::value::{
    column_views, copy_columns, field_index, find_field, row_matches, rows_match, value_views,
    ColumnType, ColumnView, InputStream, Row, RowView, TableView, Value, ValueView,
};

verus! {

/// The key of a row: the cell of the chosen column, or all cells.
pub open spec fn row_key(row: RowView, column: Option<int>) -> Seq<ValueView> {
    match column {
        Some(i) => seq![row[i]],
        None => row,
    }
}

/// Whether a row before row `i` has the same key as row `i`.
pub open spec fn seen_before(rows: Seq<RowView>, column: Option<int>, i: int) -> bool {
    exists|j: int| 0 <= j < i && #[trigger] row_key(rows[j], column) == row_key(rows[i], column)
}

/// The rows whose key no earlier row has, in their order.
pub open spec fn dedup(rows: Seq<RowView>, column: Option<int>) -> Seq<RowView>
    decreases rows.len(),
{
    if rows.len() == 0 {
        Seq::empty()
    } else if seen_before(rows, column, rows.len() - 1) {
        dedup(rows.drop_last(), column)
    } else {
        dedup(rows.drop_last(), column).push(rows.last())
    }
}

/// The column that the arguments choose: none without arguments, else the
/// column that the one argument, a field, names.
pub open spec fn chosen_column(types: Seq<ColumnView>, arguments: Seq<ArgumentModel>) -> Result<
    Option<int>,
    ErrorView,
> {
    if arguments.len() > 1 {
        Err(plain(Cause::WrongArgumentCount))
    } else {
        match field_argument(arguments, 0) {
            Err(e) => Err(e),
            Ok(None) => Ok(None),
            Ok(Some(path)) => match field_index(types, path) {
                Ok(i) => Ok(Some(i)),
                Err(e) => Err(e),
            },
        }
    }
}

/// Reads the arguments: no argument, or one field that names a column.
pub fn parse(input_type: &Vec<ColumnType>, arguments: Vec<Argument>) -> (r: CrushResult<
    Option<usize>,
>)
    ensures
        match chosen_column(column_views(input_type@), argument_models(arguments@)) {
            Ok(column) => r matches Ok(found) && option_int(found) == column && has_column(
                column_views(input_type@),
                column,
            ),
            Err(e) => r matches Err(error) && error@ == e,
        },
{
    match check_len_range(&arguments, 0, 1) {
        Ok(()) => {},
        Err(e) => {
            return Err(e);
        },
    }
    match optional_field(&arguments, 0) {
        Err(e) => Err(e),
        Ok(None) => Ok(None),
        Ok(Some(f)) => match find_field(&f, input_type) {
            Ok(i) => Ok(Some(i)),
            Err(e) => Err(e),
        },
    }
}

/// Whether the chosen column, if one is chosen, is among the columns.
pub open spec fn has_column(types: Seq<ColumnView>, column: Option<int>) -> bool {
    match column {
        Some(i) => 0 <= i < types.len(),
        None => true,
    }
}

/// The stream after each of the rows was sent to it.
pub open spec fn send_all(out: OutputView, rows: Seq<RowView>) -> OutputView
    decreases rows.len(),
{
    if rows.len() == 0 {
        out
    } else {
        after_send(send_all(out, rows.drop_last()), rows.last())
    }
}

/// The errors of the sends that failed when each of the rows was sent.
pub open spec fn send_failures(out: OutputView, rows: Seq<RowView>) -> Seq<ErrorView>
    decreases rows.len(),
{
    if rows.len() == 0 {
        Seq::empty()
    } else {
        let before = send_failures(out, rows.drop_last());
        match send_error(send_all(out, rows.drop_last()), rows.last()) {
            Some(e) => before.push(e),
            None => before,
        }
    }
}

/// A column index as an integer.
pub open spec fn option_int(column: Option<usize>) -> Option<int> {
    match column {
        Some(i) => Some(i as int),
        None => None,
    }
}

/// Whether the cells of a row that make its key are equal to the key `b`.
fn key_matches(row: &Row, column: Option<usize>, b: &Vec<Value>) -> (r: bool)
    requires
        column matches Some(i) ==> i < row@.len(),
    ensures
        r == (row_key(row@, option_int(column)) == value_views(b@)),
{
    let cells = row.cells();
    let ghost key = row_key(row@, option_int(column));
    match column {
        Some(i) => {
            assert(key[0] == cells@[i as int]@);
            if b.len() != 1 {
                assert(key.len() != value_views(b@).len());
                return false;
            }
            assert(value_views(b@)[0] == b@[0]@);
            let same = cells[i].same(&b[0]);
            if same {
                assert(key =~= value_views(b@));
            } else {
                assert(key[0] != value_views(b@)[0]);
            }
            same
        },
        None => {
            if cells.len() != b.len() {
                assert(key.len() != value_views(b@).len());
                return false;
            }
            let mut k: usize = 0;
            while k < cells.len()
                invariant
                    k <= cells.len(),
                    cells.len() == b.len(),
                    key == value_views(cells@),
                    key == row_key(row@, option_int(column)),
                    forall|j: int| 0 <= j < k ==> cells@[j]@ == b@[j]@,
                decreases cells.len() - k,
            {
                assert(key[k as int] == cells@[k as int]@);
                assert(value_views(b@)[k as int] == b@[k as int]@);
                if !cells[k].same(&b[k]) {
                    assert(key[k as int] != value_views(b@)[k as int]);
                    return false;
                }
                k += 1;
            }
            assert(key =~= value_views(b@));
            true
        },
    }
}

/// A copy of the cells of a row that make its key.
fn key_of(row: &Row, column: Option<usize>) -> (key: Vec<Value>)
    requires
        column matches Some(i) ==> i < row@.len(),
    ensures
        value_views(key@) == row_key(row@, option_int(column)),
{
    let cells = row.cells();
    let ghost wanted = row_key(row@, option_int(column));
    let mut key: Vec<Value> = Vec::new();
    match column {
        Some(i) => {
            assert(wanted[0] == cells@[i as int]@);
            key.push(cells[i].duplicate());
            assert(value_views(key@) =~= wanted);
        },
        None => {
            let mut k: usize = 0;
            while k < cells.len()
                invariant
                    k <= cells.len(),
                    key.len() == k,
                    wanted == value_views(cells@),
                    forall|j: int| 0 <= j < k ==> key@[j]@ == cells@[j]@,
                decreases cells.len() - k,
            {
                assert(wanted[k as int] == cells@[k as int]@);
                key.push(cells[k].duplicate());
                k += 1;
            }
            assert(value_views(key@) =~= wanted);
        },
    }
    key
}

/// Whether one of the keys in `seen` is `key`.
pub open spec fn key_seen(seen: Seq<Vec<Value>>, key: Seq<ValueView>) -> bool {
    exists|s: int| 0 <= s < seen.len() && value_views(#[trigger] seen[s]@) == key
}

/// Whether one of the first `n` rows has the key `key`.
pub open spec fn key_occurs(rows: Seq<RowView>, column: Option<int>, n: int, key: Seq<ValueView>) -> bool {
    exists|j: int| 0 <= j < n && #[trigger] row_key(rows[j], column) == key
}

/// Whether one of the keys in `seen` is the key of the row.
fn is_seen(seen: &Vec<Vec<Value>>, row: &Row, column: Option<usize>) -> (r: bool)
    requires
        column matches Some(i) ==> i < row@.len(),
    ensures
        r == key_seen(seen@, row_key(row@, option_int(column))),
{
    let mut s: usize = 0;
    while s < seen.len()
        invariant
            s <= seen.len(),
            column matches Some(i) ==> i < row@.len(),
            forall|t: int|
                0 <= t < s ==> value_views(#[trigger] seen@[t]@) != row_key(
                    row@,
                    option_int(column),
                ),
        decreases seen.len() - s,
    {
        if key_matches(row, column, &seen[s]) {
            return true;
        }
        s += 1;
    }
    false
}

/// Forwards to `output` each row of `input` whose key was not seen before,
/// in the order of the input, until the input ends. Values of every kind
/// can be keys: two keys are the same when they hold the same. A send that
/// fails is reported to `printer` and the scan goes on. When the chosen
/// column is not among the columns, the first row cannot be looked at: the
/// scan ends there with an error, and an input without rows is scanned
/// without one.
pub fn run<R: Readable>(
    idx: Option<usize>,
    input: &mut R,
    output: &mut OutputStream,
    printer: &mut Printer,
) -> (r: CrushResult<()>)
    ensures
        final(input).contents().types == old(input).contents().types,
        final(printer).lines == old(printer).lines,
        has_column(old(input).contents().types, option_int(idx)) ==> {
            &&& r is Ok
            &&& final(input).contents().rows.len() == 0
            &&& final(output)@ == send_all(
                old(output)@,
                dedup(old(input).contents().rows, option_int(idx)),
            )
            &&& final(printer).reported() == old(printer).reported() + send_failures(
                old(output)@,
                dedup(old(input).contents().rows, option_int(idx)),
            )
        },
        !has_column(old(input).contents().types, option_int(idx)) ==> {
            &&& final(output)@ == old(output)@
            &&& final(printer).reported() == old(printer).reported()
            &&& if old(input).contents().rows.len() == 0 {
                r is Ok && final(input).contents() == old(input).contents()
            } else {
                &&& r matches Err(e)
                &&& e@ == plain(Cause::UnknownColumn)
                &&& final(input).contents().rows == old(input).contents().rows.skip(1)
            }
        },
{
    let columns = input.types().len();
    let in_range = match idx {
        Some(i) => i < columns,
        None => true,
    };
    if !in_range {
        return match input.read() {
            Ok(_) => fail(Cause::UnknownColumn),
            Err(_) => Ok(()),
        };
    }
    let ghost column = option_int(idx);
    let ghost all = input.contents().rows;
    let ghost types = input.contents().types;
    let ghost out0 = output@;
    let ghost reported0 = printer.reported();
    let mut seen: Vec<Vec<Value>> = Vec::new();
    let ghost mut n: int = 0;
    assert(all.take(0) =~= Seq::<RowView>::empty());
    assert(all.skip(0) =~= all);
    assert(reported0 + Seq::<ErrorView>::empty() =~= reported0);
    loop
        invariant
            column == option_int(idx),
            has_column(types, column),
            rows_match(all, types),
            0 <= n <= all.len(),
            input.contents().types == types,
            input.contents().rows == all.skip(n),
            output@ == send_all(out0, dedup(all.take(n), column)),
            printer.reported() == reported0 + send_failures(out0, dedup(all.take(n), column)),
            printer.lines == old(printer).lines,
            types == old(input).contents().types,
            all == old(input).contents().rows,
            out0 == old(output)@,
            reported0 == old(printer).reported(),
            forall|s: int|
                0 <= s < seen.len() ==> key_occurs(
                    all,
                    column,
                    n,
                    value_views(#[trigger] seen@[s]@),
                ),
            forall|j: int| 0 <= j < n ==> key_seen(seen@, #[trigger] row_key(all[j], column)),
        decreases all.len() - n,
    {
        let row = match input.read() {
            Ok(row) => row,
            Err(_) => {
                assert(all.take(n) =~= all);
                return Ok(());
            },
        };
        let ghost next = all.take(n + 1);
        proof {
            assert(row@ == all[n]);
            assert(row_matches(all[n], types));
            assert(all.skip(n).skip(1) =~= all.skip(n + 1));
            assert(next.drop_last() =~= all.take(n));
            assert(next.last() == all[n]);
            lemma_key_in_row(row@, types, column);
            assert(seen_before(next, column, n) <==> key_seen(seen@, row_key(row@, column))) by {
                if seen_before(next, column, n) {
                    let j = choose|j: int|
                        0 <= j < n && #[trigger] row_key(next[j], column) == row_key(
                            next[n],
                            column,
                        );
                    assert(next[j] == all[j]);
                    assert(key_seen(seen@, row_key(all[j], column)));
                }
                if key_seen(seen@, row_key(row@, column)) {
                    let s = choose|s: int|
                        0 <= s < seen.len() && value_views(#[trigger] seen@[s]@) == row_key(
                            row@,
                            column,
                        );
                    assert(key_occurs(all, column, n, value_views(seen@[s]@)));
                    let j = choose|j: int|
                        0 <= j < n && #[trigger] row_key(all[j], column) == value_views(
                            seen@[s]@,
                        );
                    assert(next[j] == all[j]);
                    assert(row_key(next[j], column) == row_key(next[n], column));
                }
            }
        }
        if !is_seen(&seen, &row, idx) {
            let key = key_of(&row, idx);
            let ghost old_seen = seen@;
            seen.push(key);
            let ghost kept = dedup(all.take(n), column);
            assert(dedup(next, column) == kept.push(row@));
            assert(kept.push(row@).drop_last() =~= kept);
            let sent = output.send(row);
            printer.handle_error(sent);
            proof {
                let e = send_error(send_all(out0, kept), all[n]);
                if e is Some {
                    assert(reported0 + send_failures(out0, kept).push(e->0) =~= (reported0
                        + send_failures(out0, kept)).push(e->0));
                }
                assert forall|s: int| 0 <= s < seen.len() implies key_occurs(
                    all,
                    column,
                    n + 1,
                    value_views(#[trigger] seen@[s]@),
                ) by {
                    if s < old_seen.len() {
                        assert(seen@[s] == old_seen[s]);
                        assert(key_occurs(all, column, n, value_views(old_seen[s]@)));
                        let j = choose|j: int|
                            0 <= j < n && #[trigger] row_key(all[j], column) == value_views(
                                old_seen[s]@,
                            );
                        assert(row_key(all[j], column) == value_views(seen@[s]@));
                    } else {
                        assert(row_key(all[n], column) == value_views(seen@[s]@));
                    }
                }
                assert forall|j: int| 0 <= j < n + 1 implies key_seen(
                    seen@,
                    #[trigger] row_key(all[j], column),
                ) by {
                    if j < n {
                        assert(key_seen(old_seen, row_key(all[j], column)));
                        let s = choose|s: int|
                            0 <= s < old_seen.len() && value_views(#[trigger] old_seen[s]@)
                                == row_key(all[j], column);
                        assert(seen@[s] == old_seen[s]);
                        assert(value_views(seen@[s]@) == row_key(all[j], column));
                    } else {
                        let s = seen.len() - 1;
                        assert(value_views(seen@[s]@) == row_key(all[j], column));
                    }
                }
            }
        } else {
            proof {
                assert(dedup(next, column) == dedup(all.take(n), column));
                assert forall|s: int| 0 <= s < seen.len() implies key_occurs(
                    all,
                    column,
                    n + 1,
                    value_views(#[trigger] seen@[s]@),
                ) by {
                    assert(key_occurs(all, column, n, value_views(seen@[s]@)));
                    let j = choose|j: int|
                        0 <= j < n && #[trigger] row_key(all[j], column) == value_views(
                            seen@[s]@,
                        );
                    assert(row_key(all[j], column) == value_views(seen@[s]@));
                }
            }
        }
        proof {
            n = n + 1;
        }
    }
}

/// The chosen column of a row that matches its columns is among its cells.
proof fn lemma_key_in_row(row: RowView, types: Seq<ColumnView>, column: Option<int>)
    requires
        row_matches(row, types),
        has_column(types, column),
    ensures
        column matches Some(i) ==> 0 <= i < row.len(),
{
}

/// Whether a row of the input has no earlier row with the same key.
pub open spec fn first_occurrence(rows: Seq<RowView>, column: Option<int>, i: int) -> bool {
    0 <= i < rows.len() && !seen_before(rows, column, i)
}

/// The indices of the rows that are kept, in order.
pub open spec fn kept_indices(rows: Seq<RowView>, column: Option<int>) -> Seq<int>
    decreases rows.len(),
{
    if rows.len() == 0 {
        Seq::empty()
    } else if seen_before(rows, column, rows.len() - 1) {
        kept_indices(rows.drop_last(), column)
    } else {
        kept_indices(rows.drop_last(), column).push(rows.len() - 1)
    }
}

/// Whether an earlier row has the same key does not depend on later rows.
proof fn lemma_seen_before_prefix(rows: Seq<RowView>, column: Option<int>, i: int)
    requires
        0 <= i < rows.len() - 1,
    ensures
        seen_before(rows.drop_last(), column, i) == seen_before(rows, column, i),
{
    let front = rows.drop_last();
    if seen_before(front, column, i) {
        let j = choose|j: int|
            0 <= j < i && #[trigger] row_key(front[j], column) == row_key(front[i], column);
        assert(row_key(rows[j], column) == row_key(rows[i], column));
    }
    if seen_before(rows, column, i) {
        let j = choose|j: int|
            0 <= j < i && #[trigger] row_key(rows[j], column) == row_key(rows[i], column);
        assert(row_key(front[j], column) == row_key(front[i], column));
    }
}

/// The rows that are kept are the first occurrences of their keys, in the
/// order of the input: row `a` of the output is the row of the input at
/// index `kept_indices[a]`, these indices grow, each is a first occurrence,
/// and each first occurrence is among them.
pub proof fn lemma_dedup_order(rows: Seq<RowView>, column: Option<int>)
    ensures
        kept_indices(rows, column).len() == dedup(rows, column).len(),
        forall|a: int|
            0 <= a < dedup(rows, column).len() ==> first_occurrence(
                rows,
                column,
                #[trigger] kept_indices(rows, column)[a],
            ) && dedup(rows, column)[a] == rows[kept_indices(rows, column)[a]],
        forall|a: int, b: int|
            0 <= a < b < dedup(rows, column).len() ==> #[trigger] kept_indices(rows, column)[a]
                < #[trigger] kept_indices(rows, column)[b],
        forall|i: int|
            first_occurrence(rows, column, i) ==> #[trigger] kept_indices(rows, column).contains(
                i,
            ),
    decreases rows.len(),
{
    if rows.len() > 0 {
        let front = rows.drop_last();
        let last = rows.len() - 1;
        lemma_dedup_order(front, column);
        let idx = kept_indices(rows, column);
        let before = kept_indices(front, column);
        let d = dedup(rows, column);
        assert forall|a: int| 0 <= a < d.len() implies first_occurrence(
            rows,
            column,
            #[trigger] idx[a],
        ) && d[a] == rows[idx[a]] by {
            if a < before.len() {
                assert(idx[a] == before[a]);
                assert(first_occurrence(front, column, before[a]));
                lemma_seen_before_prefix(rows, column, before[a]);
                assert(front[before[a]] == rows[before[a]]);
            }
        }
        assert forall|a: int, b: int| 0 <= a < b < d.len() implies #[trigger] idx[a]
            < #[trigger] idx[b] by {
            assert(idx[a] == before[a]);
            assert(first_occurrence(front, column, before[a]));
            if b < before.len() {
                assert(idx[b] == before[b]);
            }
        }
        assert forall|i: int| first_occurrence(rows, column, i) implies #[trigger] idx.contains(
            i,
        ) by {
            if i < last {
                lemma_seen_before_prefix(rows, column, i);
                assert(first_occurrence(front, column, i));
                assert(before.contains(i));
                let a = choose|a: int| 0 <= a < before.len() && before[a] == i;
                assert(idx[a] == i);
            } else {
                assert(idx[idx.len() - 1] == i);
            }
        }
    }
}

/// No two rows that are kept have the same key.
pub proof fn lemma_dedup_distinct(rows: Seq<RowView>, column: Option<int>)
    ensures
        distinct_keys(dedup(rows, column), column),
{
    lemma_dedup_order(rows, column);
    let d = dedup(rows, column);
    let idx = kept_indices(rows, column);
    assert forall|a: int, b: int| 0 <= a < b < d.len() implies #[trigger] row_key(d[a], column)
        != #[trigger] row_key(d[b], column) by {
        assert(idx[a] < idx[b]);
        assert(first_occurrence(rows, column, idx[b]));
        if row_key(d[a], column) == row_key(d[b], column) {
            assert(row_key(rows[idx[a]], column) == row_key(rows[idx[b]], column));
            assert(seen_before(rows, column, idx[b]));
        }
    }
}

/// Whether no two rows have the same key.
pub open spec fn distinct_keys(rows: Seq<RowView>, column: Option<int>) -> bool {
    forall|a: int, b: int|
        0 <= a < b < rows.len() ==> #[trigger] row_key(rows[a], column) != #[trigger] row_key(
            rows[b],
            column,
        )
}

/// Rows without two equal keys are all kept.
pub proof fn lemma_dedup_keeps_distinct(rows: Seq<RowView>, column: Option<int>)
    requires
        distinct_keys(rows, column),
    ensures
        dedup(rows, column) == rows,
    decreases rows.len(),
{
    if rows.len() > 0 {
        let front = rows.drop_last();
        assert(distinct_keys(front, column)) by {
            assert forall|a: int, b: int| 0 <= a < b < front.len() implies #[trigger] row_key(
                front[a],
                column,
            ) != #[trigger] row_key(front[b], column) by {
                assert(row_key(rows[a], column) != row_key(rows[b], column));
            }
        }
        lemma_dedup_keeps_distinct(front, column);
        if seen_before(rows, column, rows.len() - 1) {
            let j = choose|j: int|
                0 <= j < rows.len() - 1 && #[trigger] row_key(rows[j], column) == row_key(
                    rows[rows.len() - 1],
                    column,
                );
            assert(row_key(rows[j], column) != row_key(rows[rows.len() - 1], column));
        }
        assert(front.push(rows.last()) =~= rows);
    }
}

/// Deduplication is idempotent: deduplicating what it gives changes
/// nothing.
pub proof fn lemma_dedup_idempotent(rows: Seq<RowView>, column: Option<int>)
    ensures
        dedup(dedup(rows, column), column) == dedup(rows, column),
{
    lemma_dedup_distinct(rows, column);
    lemma_dedup_keeps_distinct(dedup(rows, column), column);
}

/// The rows that are kept match the columns that the input matches.
pub proof fn lemma_dedup_matches(rows: Seq<RowView>, column: Option<int>, types: Seq<ColumnView>)
    requires
        rows_match(rows, types),
    ensures
        rows_match(dedup(rows, column), types),
{
    lemma_dedup_order(rows, column);
    let d = dedup(rows, column);
    assert forall|a: int| 0 <= a < d.len() implies row_matches(#[trigger] d[a], types) by {
        let i = kept_indices(rows, column)[a];
        assert(first_occurrence(rows, column, i));
        assert(row_matches(rows[i], types));
    }
}

/// A stream whose reading end is there takes all rows that match its
/// columns, and no send fails.
pub proof fn lemma_send_all_taken(out: OutputView, rows: Seq<RowView>)
    requires
        out.connected,
        rows_match(rows, out.types),
    ensures
        send_all(out, rows) == (OutputView { rows: out.rows + rows, ..out }),
        send_failures(out, rows) == Seq::<ErrorView>::empty(),
    decreases rows.len(),
{
    if rows.len() == 0 {
        assert(out.rows + rows =~= out.rows);
    } else {
        let front = rows.drop_last();
        assert(rows_match(front, out.types)) by {
            assert forall|i: int| 0 <= i < front.len() implies row_matches(
                #[trigger] front[i],
                out.types,
            ) by {
                assert(front[i] == rows[i]);
            }
        }
        lemma_send_all_taken(out, front);
        assert(row_matches(rows[rows.len() - 1], out.types));
        assert((out.rows + front).push(rows.last()) =~= out.rows + rows);
    }
}

/// What the command makes of the rows handed to it: the rows with their
/// first occurrences only, or the error.
pub open spec fn uniq_rows(table: TableView, arguments: Seq<ArgumentModel>, connected: bool) -> Result<
    TableView,
    ErrorView,
> {
    match chosen_column(table.types, arguments) {
        Err(e) => Err(e),
        Ok(column) => if !connected {
            Err(plain(Cause::Disconnected))
        } else {
            Ok(TableView { types: table.types, rows: dedup(table.rows, column) })
        },
    }
}

/// What the command makes of its input.
pub open spec fn uniq_of(input: Option<ValueView>, arguments: Seq<ArgumentModel>, connected: bool) -> Result<
    TableView,
    ErrorView,
> {
    match input {
        None => Err(plain(Cause::NoInput)),
        Some(ValueView::Stream(table)) => uniq_rows(table, arguments, connected),
        Some(ValueView::Rows(table)) => uniq_rows(table, arguments, connected),
        Some(_) => Err(plain(Cause::ExpectedInputStream)),
    }
}

/// Running the command on its own output changes nothing: with the same
/// arguments, the rows that it gives are given back as they are.
pub proof fn lemma_uniq_twice(table: TableView, arguments: Seq<ArgumentModel>)
    requires
        uniq_rows(table, arguments, true) is Ok,
    ensures
        uniq_rows(uniq_rows(table, arguments, true)->Ok_0, arguments, true) == uniq_rows(
            table,
            arguments,
            true,
        ),
{
    let column = chosen_column(table.types, arguments)->Ok_0;
    lemma_dedup_idempotent(table.rows, column);
}

/// Deduplicates a stream and sends the result as a stream.
fn uniq_stream(
    input: InputStream,
    arguments: Vec<Argument>,
    output: &mut ValueSender,
    printer: &mut Printer,
) -> (r: CrushResult<()>)
    ensures
        final(output).connected == old(output).connected,
        final(printer).lines == old(printer).lines,
        final(printer).reported() == old(printer).reported(),
        match uniq_rows(input@, argument_models(arguments@), old(output).connected) {
            Ok(table) => {
                &&& r is Ok
                &&& final(output).delivered() == old(output).delivered().push(
                    ValueView::Stream(table),
                )
            },
            Err(e) => {
                &&& r matches Err(error)
                &&& error@ == e
                &&& final(output).delivered() == old(output).delivered()
            },
        },
{
    let mut input = input;
    let idx = match parse(input.types(), arguments) {
        Ok(idx) => idx,
        Err(e) => {
            return Err(e);
        },
    };
    let mut rows = match output.initialize(copy_columns(input.types())) {
        Ok(rows) => rows,
        Err(e) => {
            return Err(e);
        },
    };
    let ghost table = input.contents();
    let ghost start = rows@;
    let ghost kept = dedup(table.rows, option_int(idx));
    proof {
        lemma_dedup_matches(table.rows, option_int(idx), table.types);
        lemma_send_all_taken(start, kept);
        assert(printer.reported() + Seq::<ErrorView>::empty() =~= printer.reported());
        assert(start.rows + kept =~= kept);
    }
    match run(idx, &mut input, &mut rows, printer) {
        Ok(()) => {},
        Err(e) => {
            return Err(e);
        },
    }
    output.send(Value::Stream(rows.finish()))
}

/// Whether a value that is handed to a command holds rows.
pub open spec fn holds_rows(input: Option<ValueView>) -> bool {
    input matches Some(v) && (v is Stream || v is Rows)
}

/// The command: takes the rows handed to it and sends a stream of the
/// rows whose key was not seen before. The input is used up, and so are
/// the arguments when the input holds rows. On an error nothing is sent.
pub fn uniq(context: &mut ExecutionContext) -> (r: CrushResult<()>)
    ensures
        final(context).env == old(context).env,
        final(context).input.waiting() is None,
        argument_models(final(context).arguments@) == (if holds_rows(
            old(context).input.waiting(),
        ) {
            Seq::empty()
        } else {
            argument_models(old(context).arguments@)
        }),
        final(context).output.connected == old(context).output.connected,
        final(context).printer.lines == old(context).printer.lines,
        final(context).printer.reported() == old(context).printer.reported(),
        match uniq_of(
            old(context).input.waiting(),
            argument_models(old(context).arguments@),
            old(context).output.connected,
        ) {
            Ok(table) => {
                &&& r is Ok
                &&& final(context).output.delivered() == old(context).output.delivered().push(
                    ValueView::Stream(table),
                )
            },
            Err(e) => {
                &&& r matches Err(error)
                &&& error@ == e
                &&& final(context).output.delivered() == old(context).output.delivered()
            },
        },
{
    let value = match context.input.recv() {
        Ok(value) => value,
        Err(e) => {
            return Err(e);
        },
    };
    match value.readable() {
        Some(input) => {
            let mut arguments: Vec<Argument> = Vec::new();
            std::mem::swap(&mut context.arguments, &mut arguments);
            assert(argument_models(context.arguments@) =~= Seq::empty());
            uniq_stream(input, arguments, &mut context.output, &mut context.printer)
        },
        _ => fail(Cause::ExpectedInputStream),
    }
}

} // verus!
