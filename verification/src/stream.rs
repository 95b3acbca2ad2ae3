//! Streams of rows: sources that are read row by row, and the sink that a
//! command writes to. Every row that enters or leaves a stream matches the
//! columns of the stream.
use vstd::prelude::*;
use crate::errors::{fail, plain, Cause, CrushError, CrushResult, ErrorView};
use crate::text::texts;
use crate::value::{
    column_views, row_matches, row_views, rows_match, ColumnType, ColumnView, InputStream, Row,
    RowView, Table, TableView,
};

verus! {

/// A source of rows.
pub trait Readable {
    /// The columns, and the rows that are still to come.
    spec fn contents(&self) -> TableView;

    /// Takes the next row. Once the rows are used up it fails with
    /// `EndOfStream`, which is no fault.
    fn read(&mut self) -> (r: CrushResult<Row>)
        ensures
            final(self).contents().types == old(self).contents().types,
            rows_match(old(self).contents().rows, old(self).contents().types),
            match r {
                Ok(row) => {
                    &&& old(self).contents().rows.len() > 0
                    &&& row@ == old(self).contents().rows[0]
                    &&& final(self).contents().rows == old(self).contents().rows.skip(1)
                },
                Err(e) => {
                    &&& old(self).contents().rows.len() == 0
                    &&& final(self).contents() == old(self).contents()
                    &&& e@ == plain(Cause::EndOfStream)
                },
            },
    ;

    /// The columns.
    fn types(&self) -> (types: &Vec<ColumnType>)
        ensures
            column_views(types@) == self.contents().types,
            rows_match(self.contents().rows, self.contents().types),
    ;
}

impl Readable for InputStream {
    open spec fn contents(&self) -> TableView {
        self@
    }

    fn read(&mut self) -> (r: CrushResult<Row>) {
        self.next_row()
    }

    fn types(&self) -> (types: &Vec<ColumnType>) {
        self.columns()
    }
}

/// A source that yields the rows of a table.
pub struct RowsReader {
    rows: InputStream,
}

impl RowsReader {
    /// A reader at the first row of `table`.
    pub fn new(table: Table) -> (reader: RowsReader)
        ensures
            reader.contents() == table@,
    {
        RowsReader { rows: InputStream::from_table(table) }
    }
}

impl Readable for RowsReader {
    closed spec fn contents(&self) -> TableView {
        self.rows@
    }

    fn read(&mut self) -> (r: CrushResult<Row>) {
        self.rows.next_row()
    }

    fn types(&self) -> (types: &Vec<ColumnType>) {
        self.rows.columns()
    }
}

/// The writing end of a stream of rows. It takes rows that match its
/// columns for as long as the reading end is there.
pub struct OutputStream {
    types: Vec<ColumnType>,
    rows: Vec<Row>,
    connected: bool,
}

/// The view of an output stream: its columns, the rows that were sent, and
/// whether the reading end is still there.
pub struct OutputView {
    pub types: Seq<ColumnView>,
    pub rows: Seq<RowView>,
    pub connected: bool,
}

/// What `send` makes of a row: the error, if the row is not taken.
pub open spec fn send_error(out: OutputView, row: RowView) -> Option<ErrorView> {
    if !out.connected {
        Some(plain(Cause::Disconnected))
    } else if !row_matches(row, out.types) {
        Some(plain(Cause::RowMismatch))
    } else {
        None
    }
}

/// The stream after `send` was called with a row.
pub open spec fn after_send(out: OutputView, row: RowView) -> OutputView {
    if send_error(out, row) is None {
        OutputView { rows: out.rows.push(row), ..out }
    } else {
        out
    }
}

impl View for OutputStream {
    type V = OutputView;

    closed spec fn view(&self) -> OutputView {
        OutputView {
            types: column_views(self.types@),
            rows: row_views(self.rows@),
            connected: self.connected,
        }
    }
}

impl OutputStream {
    #[verifier::type_invariant]
    spec fn valid(&self) -> bool {
        rows_match(row_views(self.rows@), column_views(self.types@))
    }

    /// A stream with the given columns, with nothing sent and the reading
    /// end in place.
    pub fn new(types: Vec<ColumnType>) -> (out: OutputStream)
        ensures
            out@ == (OutputView {
                types: column_views(types@),
                rows: Seq::<RowView>::empty(),
                connected: true,
            }),
    {
        let out = OutputStream { types, rows: Vec::new(), connected: true };
        assert(out@.rows =~= Seq::<RowView>::empty());
        out
    }

    /// The columns.
    pub fn types(&self) -> (types: &Vec<ColumnType>)
        ensures
            column_views(types@) == self@.types,
    {
        &self.types
    }

    /// Sends a row. Fails with `Disconnected` when the reading end has gone
    /// away, and with `RowMismatch` when the row does not match the columns.
    pub fn send(&mut self, row: Row) -> (r: CrushResult<()>)
        ensures
            final(self)@ == after_send(old(self)@, row@),
            match send_error(old(self)@, row@) {
                None => r is Ok,
                Some(e) => r matches Err(error) && error@ == e,
            },
    {
        proof {
            use_type_invariant(&*self);
        }
        if !self.connected {
            return fail(Cause::Disconnected);
        }
        if !row.matches(&self.types) {
            return fail(Cause::RowMismatch);
        }
        let ghost before = row_views(self.rows@);
        let mut rows: Vec<Row> = Vec::new();
        std::mem::swap(&mut self.rows, &mut rows);
        rows.push(row);
        assert(row_views(rows@) =~= before.push(row@));
        std::mem::swap(&mut self.rows, &mut rows);
        Ok(())
    }

    /// Takes the reading end away: from now on `send` fails.
    pub fn close(&mut self)
        ensures
            final(self)@ == (OutputView { connected: false, ..old(self)@ }),
    {
        proof {
            use_type_invariant(&*self);
        }
        self.connected = false;
    }

    /// Ends the stream and hands what was sent to the reader.
    pub fn finish(self) -> (input: InputStream)
        ensures
            input@ == (TableView { types: self@.types, rows: self@.rows }),
    {
        proof {
            use_type_invariant(&self);
        }
        match InputStream::new(self.types, self.rows) {
            Ok(input) => input,
            Err(_) => InputStream::empty(),
        }
    }
}

/// The sink for messages and errors that a job reports while it runs.
pub struct Printer {
    pub lines: Vec<String>,
    pub errors: Vec<CrushError>,
}

/// The views of a sequence of errors, in order.
pub open spec fn error_views(v: Seq<CrushError>) -> Seq<ErrorView> {
    v.map_values(|e: CrushError| e@)
}

impl Printer {
    /// The errors that were reported, in order.
    pub open spec fn reported(&self) -> Seq<ErrorView> {
        error_views(self.errors@)
    }

    /// A printer that has nothing reported.
    pub fn new() -> (printer: Printer)
        ensures
            printer.reported() == Seq::<ErrorView>::empty(),
            printer.lines@.len() == 0,
    {
        let printer = Printer { lines: Vec::new(), errors: Vec::new() };
        assert(printer.reported() =~= Seq::<ErrorView>::empty());
        printer
    }

    /// The lines that were reported, in order.
    pub open spec fn printed(&self) -> Seq<Seq<char>> {
        texts(self.lines@)
    }

    /// Reports a line of text.
    pub fn line(&mut self, text: &str)
        ensures
            final(self).errors == old(self).errors,
            final(self).printed() == old(self).printed().push(text@),
    {
        let ghost before = self.printed();
        self.lines.push(String::from_str(text));
        assert(self.printed() =~= before.push(text@));
    }

    /// Reports an error.
    pub fn crush_error(&mut self, error: CrushError)
        ensures
            final(self).reported() == old(self).reported().push(error@),
            final(self).lines == old(self).lines,
    {
        let ghost before = self.reported();
        self.errors.push(error);
        assert(self.reported() =~= before.push(error@));
    }

    /// Reports the error of a result that failed; a result that succeeded
    /// is handed on.
    pub fn handle_error<T>(&mut self, result: CrushResult<T>) -> (value: Option<T>)
        ensures
            final(self).lines == old(self).lines,
            match result {
                Ok(v) => value == Some(v) && final(self).reported() == old(self).reported(),
                Err(e) => value is None && final(self).reported() == old(self).reported().push(
                    e@,
                ),
            },
    {
        match result {
            Ok(v) => Some(v),
            Err(e) => {
                self.crush_error(e);
                None
            },
        }
    }
}

} // verus!
