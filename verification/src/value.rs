//! Values: what expressions evaluate to and what flows between commands.
use vstd::prelude::*;
use crate::data::{copy_jobs, job_views, same_jobs, JobDefinition, JobView};
use crate::errors::{about, fail, fail_about, plain, Cause, CrushResult};
use crate::text::{copy_strings, same_strings, texts};

verus! {

/// The kinds of values.
#[derive(Debug, Clone, Copy, PartialEq, Eq, Structural)]
pub enum ValueType {
    Bool,
    Integer,
    Text,
    Field,
    Glob,
    Regex,
    Op,
    List,
    Scope,
    Rows,
    Stream,
    Closure,
}

/// A column of a table or a stream: its name and the kind of its cells.
#[derive(Debug)]
pub struct ColumnType {
    pub name: String,
    pub cell_type: ValueType,
}

pub struct ColumnView {
    pub name: Seq<char>,
    pub cell_type: ValueType,
}

impl View for ColumnType {
    type V = ColumnView;

    open spec fn view(&self) -> ColumnView {
        ColumnView { name: self.name@, cell_type: self.cell_type }
    }
}

/// The views of a sequence of columns, in order.
pub open spec fn column_views(v: Seq<ColumnType>) -> Seq<ColumnView> {
    v.map_values(|c: ColumnType| c@)
}

/// A value.
#[derive(Debug)]
pub enum Value {
    Bool(bool),
    Integer(i128),
    Text(String),
    Field(Vec<String>),
    Glob(String),
    Regex(String, regex::Regex),
    Op(String),
    List(Vec<Value>),
    /// A scope, by its index in the scope tree.
    Scope(usize),
    /// Rows that are all there.
    Rows(Table),
    /// Rows that are read one by one.
    Stream(InputStream),
    Closure(Closure),
}

/// One row: a value for each column.
#[derive(Debug)]
pub struct Row {
    pub cells: Vec<Value>,
}

/// Rows with their columns. Every row has one cell of the right kind for
/// each column.
#[derive(Debug)]
pub struct Table {
    types: Vec<ColumnType>,
    rows: Vec<Row>,
}

/// The reading end of a stream of rows: the columns, and the rows that were
/// not read yet. Every row has one cell of the right kind for each column.
#[derive(Debug)]
pub struct InputStream {
    types: Vec<ColumnType>,
    /// The rows to come, the next one last.
    pending: Vec<Row>,
}

/// Jobs, and the scope in which they were written: names in the jobs are
/// looked up from there, wherever the closure is called.
#[derive(Debug)]
pub struct Closure {
    pub jobs: Vec<JobDefinition>,
    pub scope: usize,
}

/// The mathematical view of a value. A regular expression is viewed as its
/// source, a stream as the rows that are still to be read.
pub enum ValueView {
    Bool(bool),
    Integer(int),
    Text(Seq<char>),
    Field(Seq<Seq<char>>),
    Glob(Seq<char>),
    Regex(Seq<char>),
    Op(Seq<char>),
    List(Seq<ValueView>),
    Scope(nat),
    Rows(TableView),
    Stream(TableView),
    Closure(Seq<JobView>, nat),
}

/// The view of a row: the views of its cells.
pub type RowView = Seq<ValueView>;

pub struct TableView {
    pub types: Seq<ColumnView>,
    pub rows: Seq<RowView>,
}

/// The kind of a value.
pub open spec fn kind_of(v: ValueView) -> ValueType {
    match v {
        ValueView::Bool(_) => ValueType::Bool,
        ValueView::Integer(_) => ValueType::Integer,
        ValueView::Text(_) => ValueType::Text,
        ValueView::Field(_) => ValueType::Field,
        ValueView::Glob(_) => ValueType::Glob,
        ValueView::Regex(_) => ValueType::Regex,
        ValueView::Op(_) => ValueType::Op,
        ValueView::List(_) => ValueType::List,
        ValueView::Scope(_) => ValueType::Scope,
        ValueView::Rows(_) => ValueType::Rows,
        ValueView::Stream(_) => ValueType::Stream,
        ValueView::Closure(_, _) => ValueType::Closure,
    }
}

/// Whether a row has one cell of the right kind for each column.
pub open spec fn row_matches(row: RowView, types: Seq<ColumnView>) -> bool {
    &&& row.len() == types.len()
    &&& forall|i: int| 0 <= i < row.len() ==> kind_of(#[trigger] row[i]) == types[i].cell_type
}

/// Whether every row has one cell of the right kind for each column.
pub open spec fn rows_match(rows: Seq<RowView>, types: Seq<ColumnView>) -> bool {
    forall|i: int| 0 <= i < rows.len() ==> row_matches(#[trigger] rows[i], types)
}

/// The index of the first column with the given name.
pub open spec fn column_index(types: Seq<ColumnView>, name: Seq<char>) -> Option<int> {
    if exists|i: int| 0 <= i < types.len() && (#[trigger] types[i]).name == name {
        Some(
            choose|i: int|
                0 <= i < types.len() && (#[trigger] types[i]).name == name && forall|j: int|
                    0 <= j < i ==> (#[trigger] types[j]).name != name,
        )
    } else {
        None
    }
}

impl Value {
    /// What this value stands for.
    pub open spec fn model(&self) -> ValueView
        decreases self,
    {
        match self {
            Value::Bool(b) => ValueView::Bool(*b),
            Value::Integer(i) => ValueView::Integer(*i as int),
            Value::Text(s) => ValueView::Text(s@),
            Value::Field(path) => ValueView::Field(texts(path@)),
            Value::Glob(s) => ValueView::Glob(s@),
            Value::Regex(s, _) => ValueView::Regex(s@),
            Value::Op(s) => ValueView::Op(s@),
            Value::List(items) => ValueView::List(
                Seq::new(
                    items.len() as nat,
                    |i: int|
                        if 0 <= i < items.len() {
                            items[i].model()
                        } else {
                            arbitrary()
                        },
                ),
            ),
            Value::Scope(id) => ValueView::Scope(*id as nat),
            Value::Rows(table) => ValueView::Rows(table.model()),
            Value::Stream(stream) => ValueView::Stream(stream.model()),
            Value::Closure(closure) => ValueView::Closure(
                job_views(closure.jobs@),
                closure.scope as nat,
            ),
        }
    }
}

impl Row {
    /// The views of the cells.
    pub open spec fn model(&self) -> RowView
        decreases self,
    {
        Seq::new(
            self.cells.len() as nat,
            |i: int|
                if 0 <= i < self.cells.len() {
                    self.cells[i].model()
                } else {
                    arbitrary()
                },
        )
    }
}

impl Table {
    /// The columns and the rows.
    pub closed spec fn model(&self) -> TableView
        decreases self,
    {
        TableView {
            types: column_views(self.types@),
            rows: Seq::new(
                self.rows.len() as nat,
                |i: int|
                    if 0 <= i < self.rows.len() {
                        self.rows[i].model()
                    } else {
                        arbitrary()
                    },
            ),
        }
    }

    #[verifier::type_invariant]
    spec fn valid(&self) -> bool {
        rows_match(row_views(self.rows@), column_views(self.types@))
    }
}

impl InputStream {
    /// The columns and the rows that are still to be read.
    pub closed spec fn model(&self) -> TableView
        decreases self,
    {
        TableView {
            types: column_views(self.types@),
            rows: Seq::new(
                self.pending.len() as nat,
                |i: int|
                    if 0 <= i < self.pending.len() {
                        self.pending[self.pending.len() - 1 - i].model()
                    } else {
                        arbitrary()
                    },
            ),
        }
    }

    #[verifier::type_invariant]
    spec fn valid(&self) -> bool {
        rows_match(row_views(self.pending@), column_views(self.types@))
    }

    /// The rows to come are the pending rows, last to first.
    proof fn lemma_model(&self)
        ensures
            self.model().rows == row_views(self.pending@).reverse(),
    {
        assert(self.model().rows =~= row_views(self.pending@).reverse());
    }
}

impl View for Value {
    type V = ValueView;

    open spec fn view(&self) -> ValueView {
        self.model()
    }
}

impl View for Row {
    type V = RowView;

    open spec fn view(&self) -> RowView {
        self.model()
    }
}

impl View for Table {
    type V = TableView;

    open spec fn view(&self) -> TableView {
        self.model()
    }
}

impl View for InputStream {
    type V = TableView;

    open spec fn view(&self) -> TableView {
        self.model()
    }
}

/// The views of a sequence of values, in order.
pub open spec fn value_views(v: Seq<Value>) -> Seq<ValueView> {
    v.map_values(|x: Value| x@)
}

/// The views of a sequence of rows, in order.
pub open spec fn row_views(v: Seq<Row>) -> Seq<RowView> {
    v.map_values(|r: Row| r@)
}

impl ColumnType {
    /// A column called `name` with cells of kind `cell_type`.
    pub fn new(name: &str, cell_type: ValueType) -> (c: ColumnType)
        ensures
            c@ == (ColumnView { name: name@, cell_type }),
    {
        ColumnType { name: String::from_str(name), cell_type }
    }

    /// A copy of this column.
    pub fn duplicate(&self) -> (c: ColumnType)
        ensures
            c@ == self@,
    {
        ColumnType { name: self.name.clone(), cell_type: self.cell_type }
    }
}

/// A copy of a list of columns.
pub fn copy_columns(types: &Vec<ColumnType>) -> (r: Vec<ColumnType>)
    ensures
        column_views(r@) == column_views(types@),
{
    let mut r: Vec<ColumnType> = Vec::new();
    let mut i: usize = 0;
    while i < types.len()
        invariant
            i <= types.len(),
            r.len() == i,
            forall|j: int| 0 <= j < i ==> r@[j]@ == types@[j]@,
        decreases types.len() - i,
    {
        r.push(types[i].duplicate());
        i += 1;
    }
    assert(column_views(r@) =~= column_views(types@));
    r
}

impl Value {
    /// The kind of this value.
    pub fn value_type(&self) -> (t: ValueType)
        ensures
            t == kind_of(self@),
    {
        match self {
            Value::Bool(_) => ValueType::Bool,
            Value::Integer(_) => ValueType::Integer,
            Value::Text(_) => ValueType::Text,
            Value::Field(_) => ValueType::Field,
            Value::Glob(_) => ValueType::Glob,
            Value::Regex(_, _) => ValueType::Regex,
            Value::Op(_) => ValueType::Op,
            Value::List(_) => ValueType::List,
            Value::Scope(_) => ValueType::Scope,
            Value::Rows(_) => ValueType::Rows,
            Value::Stream(_) => ValueType::Stream,
            Value::Closure(_) => ValueType::Closure,
        }
    }
}

impl Row {
    /// A row of the given cells.
    pub fn new(cells: Vec<Value>) -> (row: Row)
        ensures
            row@ == value_views(cells@),
    {
        let row = Row { cells };
        assert(row@ =~= value_views(cells@));
        row
    }

    /// The cells of this row.
    pub fn cells(&self) -> (cells: &Vec<Value>)
        ensures
            value_views(cells@) == self@,
    {
        assert(value_views(self.cells@) =~= self@);
        &self.cells
    }

    /// Whether this row has one cell of the right kind for each column.
    pub fn matches(&self, types: &Vec<ColumnType>) -> (r: bool)
        ensures
            r == row_matches(self@, column_views(types@)),
    {
        if self.cells.len() != types.len() {
            return false;
        }
        let mut i: usize = 0;
        while i < self.cells.len()
            invariant
                i <= self.cells.len(),
                self.cells.len() == types.len(),
                forall|j: int| 0 <= j < i ==> kind_of(#[trigger] self@[j]) == column_views(types@)[j].cell_type,
            decreases self.cells.len() - i,
        {
            if self.cells[i].value_type() != types[i].cell_type {
                assert(kind_of(self@[i as int]) != column_views(types@)[i as int].cell_type);
                return false;
            }
            i += 1;
        }
        true
    }
}

/// The index of the first column called `name`; an error about the name
/// when there is none.
pub fn find_field_from_str(name: &str, types: &Vec<ColumnType>) -> (r: CrushResult<usize>)
    ensures
        match column_index(column_views(types@), name@) {
            Some(i) => r matches Ok(found) && found == i && 0 <= i < types.len(),
            None => r matches Err(e) && e@ == about(Cause::UnknownColumn, name@),
        },
{
    let ghost columns = column_views(types@);
    let mut i: usize = 0;
    while i < types.len()
        invariant
            i <= types.len(),
            columns == column_views(types@),
            forall|j: int| 0 <= j < i ==> (#[trigger] columns[j]).name != name@,
        decreases types.len() - i,
    {
        if types[i].name.as_str().eq(name) {
            assert(columns[i as int].name == name@);
            return Ok(i);
        }
        i += 1;
    }
    fail_about(Cause::UnknownColumn, name)
}

/// The index of the column that a field names. A field names a column by a
/// path of one segment.
pub open spec fn field_index(types: Seq<ColumnView>, path: Seq<Seq<char>>) -> Result<
    int,
    crate::errors::ErrorView,
> {
    if path.len() != 1 {
        Err(plain(Cause::PathTooLong))
    } else {
        match column_index(types, path[0]) {
            Some(i) => Ok(i),
            None => Err(about(Cause::UnknownColumn, path[0])),
        }
    }
}

/// The index of the column that the field `path` names.
pub fn find_field(path: &Vec<String>, types: &Vec<ColumnType>) -> (r: CrushResult<usize>)
    ensures
        match field_index(column_views(types@), texts(path@)) {
            Ok(i) => r matches Ok(found) && found == i && 0 <= i < types.len(),
            Err(e) => r matches Err(error) && error@ == e,
        },
{
    if path.len() != 1 {
        return fail(Cause::PathTooLong);
    }
    find_field_from_str(path[0].as_str(), types)
}

/// Whether every row has one cell of the right kind for each column.
pub fn all_match(rows: &Vec<Row>, types: &Vec<ColumnType>) -> (r: bool)
    ensures
        r == rows_match(row_views(rows@), column_views(types@)),
{
    let mut i: usize = 0;
    while i < rows.len()
        invariant
            i <= rows.len(),
            forall|j: int|
                0 <= j < i ==> row_matches(#[trigger] row_views(rows@)[j], column_views(types@)),
        decreases rows.len() - i,
    {
        if !rows[i].matches(types) {
            assert(!row_matches(row_views(rows@)[i as int], column_views(types@)));
            return false;
        }
        i += 1;
    }
    true
}

/// The rows in the opposite order.
fn reversed(rows: Vec<Row>) -> (r: Vec<Row>)
    ensures
        row_views(r@) == row_views(rows@).reverse(),
        r.len() == rows.len(),
        forall|j: int|
            0 <= j < r.len() ==> (#[trigger] r@[j])@ == row_views(rows@)[rows.len() - 1 - j],
{
    let mut rows = rows;
    let ghost all = row_views(rows@);
    let mut r: Vec<Row> = Vec::new();
    while rows.len() > 0
        invariant
            rows.len() + r.len() == all.len(),
            row_views(rows@) == all.take(rows.len() as int),
            forall|j: int| 0 <= j < r.len() ==> (#[trigger] r@[j])@ == all[all.len() - 1 - j],
        decreases rows.len(),
    {
        let ghost before = row_views(rows@);
        let row = rows.pop().unwrap();
        assert(row@ == before[before.len() - 1]);
        assert(row_views(rows@) =~= before.drop_last());
        r.push(row);
    }
    assert(row_views(r@) =~= all.reverse());
    r
}

impl Table {
    /// A table of the given rows. Fails when a row does not match the
    /// columns.
    pub fn new(types: Vec<ColumnType>, rows: Vec<Row>) -> (r: CrushResult<Table>)
        ensures
            match r {
                Ok(table) => rows_match(row_views(rows@), column_views(types@)) && table@ == (
                TableView { types: column_views(types@), rows: row_views(rows@) }),
                Err(e) => !rows_match(row_views(rows@), column_views(types@)) && e@ == plain(
                    Cause::RowMismatch,
                ),
            },
    {
        if !all_match(&rows, &types) {
            return fail(Cause::RowMismatch);
        }
        let ghost views = row_views(rows@);
        let table = Table { types, rows };
        assert(table.model().rows =~= views);
        Ok(table)
    }

    /// The columns.
    pub fn types(&self) -> (types: &Vec<ColumnType>)
        ensures
            column_views(types@) == self@.types,
    {
        &self.types
    }

    /// The rows. Each of them matches the columns.
    pub fn rows(&self) -> (rows: &Vec<Row>)
        ensures
            row_views(rows@) == self@.rows,
            rows_match(self@.rows, self@.types),
    {
        proof {
            use_type_invariant(self);
        }
        assert(row_views(self.rows@) =~= self.model().rows);
        &self.rows
    }

    /// The columns and the rows, apart.
    pub fn into_parts(self) -> (parts: (Vec<ColumnType>, Vec<Row>))
        ensures
            column_views(parts.0@) == self@.types,
            row_views(parts.1@) == self@.rows,
            rows_match(self@.rows, self@.types),
    {
        proof {
            use_type_invariant(&self);
        }
        assert(row_views(self.rows@) =~= self.model().rows);
        (self.types, self.rows)
    }
}

impl InputStream {
    /// A stream that yields the given rows in order. Fails when a row does
    /// not match the columns.
    pub fn new(types: Vec<ColumnType>, rows: Vec<Row>) -> (r: CrushResult<InputStream>)
        ensures
            match r {
                Ok(stream) => rows_match(row_views(rows@), column_views(types@)) && stream@ == (
                TableView { types: column_views(types@), rows: row_views(rows@) }),
                Err(e) => !rows_match(row_views(rows@), column_views(types@)) && e@ == plain(
                    Cause::RowMismatch,
                ),
            },
    {
        if !all_match(&rows, &types) {
            return fail(Cause::RowMismatch);
        }
        let ghost views = row_views(rows@);
        let pending = reversed(rows);
        assert(rows_match(row_views(pending@), column_views(types@))) by {
            assert forall|i: int| 0 <= i < pending@.len() implies row_matches(
                #[trigger] row_views(pending@)[i],
                column_views(types@),
            ) by {
                assert(row_views(pending@)[i] == pending@[i]@);
                assert(pending@[i]@ == views[views.len() - 1 - i]);
            }
        }
        let stream = InputStream { types, pending };
        proof {
            stream.lemma_model();
            assert(views.reverse().reverse() =~= views);
        }
        Ok(stream)
    }

    /// A stream without columns and without rows.
    pub fn empty() -> (stream: InputStream)
        ensures
            stream@ == (TableView {
                types: Seq::<ColumnView>::empty(),
                rows: Seq::<RowView>::empty(),
            }),
    {
        let stream = InputStream { types: Vec::new(), pending: Vec::new() };
        assert(stream.model().rows =~= Seq::<RowView>::empty());
        assert(stream.model().types =~= Seq::<ColumnView>::empty());
        stream
    }

    /// A stream that yields the rows of a table in order.
    pub fn from_table(table: Table) -> (stream: InputStream)
        ensures
            stream@ == table@,
    {
        proof {
            use_type_invariant(&table);
        }
        let ghost views = row_views(table.rows@);
        assert(table.model().rows =~= views);
        let pending = reversed(table.rows);
        assert(rows_match(row_views(pending@), column_views(table.types@))) by {
            assert forall|i: int| 0 <= i < pending@.len() implies row_matches(
                #[trigger] row_views(pending@)[i],
                column_views(table.types@),
            ) by {
                assert(row_views(pending@)[i] == pending@[i]@);
                assert(pending@[i]@ == views[views.len() - 1 - i]);
            }
        }
        let stream = InputStream { types: table.types, pending };
        proof {
            stream.lemma_model();
            assert(views.reverse().reverse() =~= views);
        }
        stream
    }

    /// The columns. The rows that are still to come match them.
    pub fn columns(&self) -> (types: &Vec<ColumnType>)
        ensures
            column_views(types@) == self@.types,
            rows_match(self@.rows, self@.types),
    {
        proof {
            use_type_invariant(self);
            self.lemma_model();
        }
        &self.types
    }

    /// Takes the next row. At the end of the stream it fails with
    /// `EndOfStream`, which is no fault.
    pub fn next_row(&mut self) -> (r: CrushResult<Row>)
        ensures
            final(self)@.types == old(self)@.types,
            rows_match(old(self)@.rows, old(self)@.types),
            match r {
                Ok(row) => old(self)@.rows.len() > 0 && row@ == old(self)@.rows[0]
                    && final(self)@.rows == old(self)@.rows.skip(1),
                Err(e) => old(self)@.rows.len() == 0 && final(self)@ == old(self)@ && e@ == plain(
                    Cause::EndOfStream,
                ),
            },
    {
        proof {
            use_type_invariant(&*self);
            self.lemma_model();
        }
        let ghost before = self.model().rows;
        let ghost held = row_views(self.pending@);
        let mut pending: Vec<Row> = Vec::new();
        std::mem::swap(&mut self.pending, &mut pending);
        let next = pending.pop();
        assert(rows_match(row_views(pending@), column_views(self.types@))) by {
            assert forall|i: int| 0 <= i < pending@.len() implies row_matches(
                #[trigger] row_views(pending@)[i],
                column_views(self.types@),
            ) by {
                assert(row_views(pending@)[i] == held[i]);
            }
        }
        std::mem::swap(&mut self.pending, &mut pending);
        proof {
            self.lemma_model();
        }
        match next {
            Some(row) => {
                assert(row@ == before[0]);
                assert(self.model().rows =~= before.skip(1));
                Ok(row)
            },
            None => {
                assert(self.model().rows =~= before);
                fail(Cause::EndOfStream)
            },
        }
    }
}

impl Value {
    /// The rows of this value as a stream, when it is a stream or a set of
    /// rows.
    pub fn readable(self) -> (r: Option<InputStream>)
        ensures
            match self@ {
                ValueView::Stream(rows) => r matches Some(s) && s@ == rows,
                ValueView::Rows(rows) => r matches Some(s) && s@ == rows,
                _ => r is None,
            },
    {
        match self {
            Value::Stream(stream) => Some(stream),
            Value::Rows(table) => Some(InputStream::from_table(table)),
            _ => None,
        }
    }
}

/// A copy of a list of values.
pub fn copy_values(values: &Vec<Value>) -> (r: Vec<Value>)
    ensures
        value_views(r@) == value_views(values@),
    decreases values,
{
    let mut r: Vec<Value> = Vec::new();
    let mut i: usize = 0;
    while i < values.len()
        invariant
            i <= values.len(),
            r.len() == i,
            forall|j: int| 0 <= j < i ==> r@[j]@ == values@[j]@,
        decreases values.len() - i,
    {
        r.push(values[i].duplicate());
        i += 1;
    }
    assert(value_views(r@) =~= value_views(values@));
    r
}

/// A copy of a list of rows.
pub fn copy_rows(rows: &Vec<Row>) -> (r: Vec<Row>)
    ensures
        row_views(r@) == row_views(rows@),
        r.len() == rows.len(),
    decreases rows,
{
    let mut r: Vec<Row> = Vec::new();
    let mut i: usize = 0;
    while i < rows.len()
        invariant
            i <= rows.len(),
            r.len() == i,
            forall|j: int| 0 <= j < i ==> r@[j]@ == rows@[j]@,
        decreases rows.len() - i,
    {
        r.push(rows[i].duplicate());
        i += 1;
    }
    assert(row_views(r@) =~= row_views(rows@));
    r
}

impl Value {
    /// A copy of this value.
    pub fn duplicate(&self) -> (r: Value)
        ensures
            r@ == self@,
        decreases self,
    {
        match self {
            Value::Bool(b) => Value::Bool(*b),
            Value::Integer(i) => Value::Integer(*i),
            Value::Text(s) => Value::Text(s.clone()),
            Value::Field(path) => Value::Field(copy_strings(path)),
            Value::Glob(s) => Value::Glob(s.clone()),
            Value::Regex(s, compiled) => Value::Regex(s.clone(), compiled.clone()),
            Value::Op(s) => Value::Op(s.clone()),
            Value::List(items) => {
                let r = copy_values(items);
                let copy = Value::List(r);
                assert(copy@->List_0 =~= value_views(r@));
                assert(self@->List_0 =~= value_views(items@));
                copy
            },
            Value::Scope(id) => Value::Scope(*id),
            Value::Rows(table) => Value::Rows(table.duplicate()),
            Value::Stream(stream) => Value::Stream(stream.duplicate()),
            Value::Closure(closure) => Value::Closure(
                Closure { jobs: copy_jobs(&closure.jobs), scope: closure.scope },
            ),
        }
    }
}

impl Row {
    /// A copy of this row.
    pub fn duplicate(&self) -> (r: Row)
        ensures
            r@ == self@,
        decreases self,
    {
        let cells = copy_values(&self.cells);
        let copy = Row { cells };
        assert(copy@ =~= value_views(cells@));
        assert(self@ =~= value_views(self.cells@));
        copy
    }
}

impl Table {
    /// A copy of this table.
    pub fn duplicate(&self) -> (r: Table)
        ensures
            r@ == self@,
        decreases self,
    {
        proof {
            use_type_invariant(self);
        }
        let types = copy_columns(&self.types);
        let rows = copy_rows(&self.rows);
        let copy = Table { types, rows };
        assert(copy.model().rows =~= row_views(rows@));
        assert(self.model().rows =~= row_views(self.rows@));
        copy
    }
}

impl InputStream {
    /// A copy of this stream: it yields copies of the rows that this one
    /// still holds.
    pub fn duplicate(&self) -> (r: InputStream)
        ensures
            r@ == self@,
        decreases self,
    {
        proof {
            use_type_invariant(self);
            self.lemma_model();
        }
        let types = copy_columns(&self.types);
        let pending = copy_rows(&self.pending);
        let copy = InputStream { types, pending };
        proof {
            copy.lemma_model();
        }
        copy
    }
}

/// Whether two lists of values hold the same.
pub fn same_values(a: &Vec<Value>, b: &Vec<Value>) -> (r: bool)
    ensures
        r == (value_views(a@) == value_views(b@)),
    decreases a,
{
    if a.len() != b.len() {
        assert(value_views(a@).len() != value_views(b@).len());
        return false;
    }
    let mut i: usize = 0;
    while i < a.len()
        invariant
            i <= a.len(),
            a.len() == b.len(),
            forall|j: int| 0 <= j < i ==> a@[j]@ == b@[j]@,
        decreases a.len() - i,
    {
        if !a[i].same(&b[i]) {
            assert(value_views(a@)[i as int] != value_views(b@)[i as int]);
            return false;
        }
        i += 1;
    }
    assert(value_views(a@) =~= value_views(b@));
    true
}

/// Whether two lists of rows hold the same.
pub fn same_rows(a: &Vec<Row>, b: &Vec<Row>) -> (r: bool)
    ensures
        r == (row_views(a@) == row_views(b@)),
    decreases a,
{
    if a.len() != b.len() {
        assert(row_views(a@).len() != row_views(b@).len());
        return false;
    }
    let mut i: usize = 0;
    while i < a.len()
        invariant
            i <= a.len(),
            a.len() == b.len(),
            forall|j: int| 0 <= j < i ==> a@[j]@ == b@[j]@,
        decreases a.len() - i,
    {
        if !a[i].same(&b[i]) {
            assert(row_views(a@)[i as int] != row_views(b@)[i as int]);
            return false;
        }
        i += 1;
    }
    assert(row_views(a@) =~= row_views(b@));
    true
}

/// Whether two lists of columns are the same.
pub fn same_columns(a: &Vec<ColumnType>, b: &Vec<ColumnType>) -> (r: bool)
    ensures
        r == (column_views(a@) == column_views(b@)),
{
    if a.len() != b.len() {
        assert(column_views(a@).len() != column_views(b@).len());
        return false;
    }
    let mut i: usize = 0;
    while i < a.len()
        invariant
            i <= a.len(),
            a.len() == b.len(),
            forall|j: int| 0 <= j < i ==> a@[j]@ == b@[j]@,
        decreases a.len() - i,
    {
        if !(a[i].name == b[i].name && a[i].cell_type == b[i].cell_type) {
            assert(column_views(a@)[i as int] != column_views(b@)[i as int]);
            return false;
        }
        i += 1;
    }
    assert(column_views(a@) =~= column_views(b@));
    true
}

impl Value {
    /// Whether two values hold the same. Regular expressions are the same
    /// when their sources are, and streams when the rows that they still
    /// hold are.
    pub fn same(&self, other: &Value) -> (r: bool)
        ensures
            r == (self@ == other@),
        decreases self,
    {
        match self {
            Value::Bool(x) => match other {
                Value::Bool(y) => *x == *y,
                _ => false,
            },
            Value::Integer(x) => match other {
                Value::Integer(y) => *x == *y,
                _ => false,
            },
            Value::Text(x) => match other {
                Value::Text(y) => *x == *y,
                _ => false,
            },
            Value::Field(x) => match other {
                Value::Field(y) => same_strings(x, y),
                _ => false,
            },
            Value::Glob(x) => match other {
                Value::Glob(y) => *x == *y,
                _ => false,
            },
            Value::Regex(x, _) => match other {
                Value::Regex(y, _) => *x == *y,
                _ => false,
            },
            Value::Op(x) => match other {
                Value::Op(y) => *x == *y,
                _ => false,
            },
            Value::List(x) => match other {
                Value::List(y) => {
                    assert(self@->List_0 =~= value_views(x@));
                    assert(other@->List_0 =~= value_views(y@));
                    same_values(x, y)
                },
                _ => false,
            },
            Value::Scope(x) => match other {
                Value::Scope(y) => *x == *y,
                _ => false,
            },
            Value::Rows(x) => match other {
                Value::Rows(y) => x.same(y),
                _ => false,
            },
            Value::Stream(x) => match other {
                Value::Stream(y) => x.same(y),
                _ => false,
            },
            Value::Closure(x) => match other {
                Value::Closure(y) => x.scope == y.scope && same_jobs(&x.jobs, &y.jobs),
                _ => false,
            },
        }
    }
}

impl Row {
    /// Whether two rows hold the same.
    pub fn same(&self, other: &Row) -> (r: bool)
        ensures
            r == (self@ == other@),
        decreases self,
    {
        assert(self@ =~= value_views(self.cells@));
        assert(other@ =~= value_views(other.cells@));
        same_values(&self.cells, &other.cells)
    }
}

impl Table {
    /// Whether two tables have the same columns and hold the same rows.
    pub fn same(&self, other: &Table) -> (r: bool)
        ensures
            r == (self@ == other@),
        decreases self,
    {
        assert(self.model().rows =~= row_views(self.rows@));
        assert(other.model().rows =~= row_views(other.rows@));
        same_columns(&self.types, &other.types) && same_rows(&self.rows, &other.rows)
    }
}

impl InputStream {
    /// Whether two streams have the same columns and still hold the same
    /// rows.
    pub fn same(&self, other: &InputStream) -> (r: bool)
        ensures
            r == (self@ == other@),
        decreases self,
    {
        proof {
            self.lemma_model();
            other.lemma_model();
            let a = row_views(self.pending@);
            let b = row_views(other.pending@);
            assert(a.reverse().reverse() =~= a);
            assert(b.reverse().reverse() =~= b);
        }
        same_columns(&self.types, &other.types) && same_rows(&self.pending, &other.pending)
    }
}

} // verus!
