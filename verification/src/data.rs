//! Definitions: what the parser makes of source text. A definition is not
//! evaluated; it holds literals, references and nested jobs as written.
use vstd::prelude::*;
use crate::text::{copy_strings, same_strings, texts};

verus! {

/// An expression in argument position.
#[derive(Debug)]
pub enum CellDefinition {
    /// Literal text.
    Text(String),
    /// An integer literal.
    Integer(i128),
    /// A glob pattern.
    Glob(String),
    /// A regular expression: its source and its compiled form.
    Regex(String, regex::Regex),
    /// A field of the input, by path.
    Field(Vec<String>),
    /// A variable, by path.
    Variable(Vec<String>),
    /// An element of a variable: the path and the index.
    ArrayVariable(Vec<String>, Box<CellDefinition>),
    /// A list of expressions.
    List(Vec<CellDefinition>),
    /// A comparison or match operator, as a value.
    Op(String),
    /// A job that runs when the argument is evaluated; its result is the value.
    JobDefinition(JobDefinition),
    /// Jobs that run when the closure is called.
    ClosureDefinition(Vec<JobDefinition>),
}

/// An argument: an expression, with a name or without.
#[derive(Debug)]
pub struct ArgumentDefinition {
    pub name: Option<String>,
    pub cell: CellDefinition,
}

/// One stage of a pipeline: the command's name and its arguments.
#[derive(Debug)]
pub struct CallDefinition {
    pub name: Vec<String>,
    pub arguments: Vec<ArgumentDefinition>,
}

/// A pipeline: the output of each command is the input of the next.
#[derive(Debug)]
pub struct JobDefinition {
    pub commands: Vec<CallDefinition>,
}

/// The mathematical view of a `CellDefinition`. A regular expression is
/// viewed as its source.
pub enum CellView {
    Text(Seq<char>),
    Integer(int),
    Glob(Seq<char>),
    Regex(Seq<char>),
    Field(Seq<Seq<char>>),
    Variable(Seq<Seq<char>>),
    ArrayVariable(Seq<Seq<char>>, Box<CellView>),
    List(Seq<CellView>),
    Op(Seq<char>),
    Job(JobView),
    Closure(Seq<JobView>),
}

pub struct ArgumentView {
    pub name: Option<Seq<char>>,
    pub cell: CellView,
}

pub struct CallView {
    pub name: Seq<Seq<char>>,
    pub arguments: Seq<ArgumentView>,
}

pub struct JobView {
    pub commands: Seq<CallView>,
}

impl CellDefinition {
    /// What this definition stands for.
    pub open spec fn model(&self) -> CellView
        decreases self,
    {
        match self {
            CellDefinition::Text(s) => CellView::Text(s@),
            CellDefinition::Integer(i) => CellView::Integer(*i as int),
            CellDefinition::Glob(s) => CellView::Glob(s@),
            CellDefinition::Regex(s, _) => CellView::Regex(s@),
            CellDefinition::Field(path) => CellView::Field(texts(path@)),
            CellDefinition::Variable(path) => CellView::Variable(texts(path@)),
            CellDefinition::ArrayVariable(path, index) => CellView::ArrayVariable(
                texts(path@),
                Box::new(index.model()),
            ),
            CellDefinition::List(cells) => CellView::List(
                Seq::new(
                    cells.len() as nat,
                    |i: int|
                        if 0 <= i < cells.len() {
                            cells[i].model()
                        } else {
                            arbitrary()
                        },
                ),
            ),
            CellDefinition::Op(s) => CellView::Op(s@),
            CellDefinition::JobDefinition(job) => CellView::Job(job.model()),
            CellDefinition::ClosureDefinition(jobs) => CellView::Closure(
                Seq::new(
                    jobs.len() as nat,
                    |i: int|
                        if 0 <= i < jobs.len() {
                            jobs[i].model()
                        } else {
                            arbitrary()
                        },
                ),
            ),
        }
    }
}

impl ArgumentDefinition {
    /// What this definition stands for.
    pub open spec fn model(&self) -> ArgumentView
        decreases self,
    {
        ArgumentView {
            name: match self.name {
                Some(n) => Some(n@),
                None => None,
            },
            cell: self.cell.model(),
        }
    }
}

impl CallDefinition {
    /// What this definition stands for.
    pub open spec fn model(&self) -> CallView
        decreases self,
    {
        CallView {
            name: texts(self.name@),
            arguments: Seq::new(
                self.arguments.len() as nat,
                |i: int|
                    if 0 <= i < self.arguments.len() {
                        self.arguments[i].model()
                    } else {
                        arbitrary()
                    },
            ),
        }
    }
}

impl JobDefinition {
    /// What this definition stands for.
    pub open spec fn model(&self) -> JobView
        decreases self,
    {
        JobView {
            commands: Seq::new(
                self.commands.len() as nat,
                |i: int|
                    if 0 <= i < self.commands.len() {
                        self.commands[i].model()
                    } else {
                        arbitrary()
                    },
            ),
        }
    }
}

impl View for CellDefinition {
    type V = CellView;

    open spec fn view(&self) -> CellView {
        self.model()
    }
}

impl View for ArgumentDefinition {
    type V = ArgumentView;

    open spec fn view(&self) -> ArgumentView {
        self.model()
    }
}

impl View for CallDefinition {
    type V = CallView;

    open spec fn view(&self) -> CallView {
        self.model()
    }
}

impl View for JobDefinition {
    type V = JobView;

    open spec fn view(&self) -> JobView {
        self.model()
    }
}

/// The views of a sequence of expressions, in order.
pub open spec fn cell_views(v: Seq<CellDefinition>) -> Seq<CellView> {
    v.map_values(|c: CellDefinition| c@)
}

/// The views of a sequence of arguments, in order.
pub open spec fn argument_views(v: Seq<ArgumentDefinition>) -> Seq<ArgumentView> {
    v.map_values(|a: ArgumentDefinition| a@)
}

/// The views of a sequence of calls, in order.
pub open spec fn call_views(v: Seq<CallDefinition>) -> Seq<CallView> {
    v.map_values(|c: CallDefinition| c@)
}

/// The views of a sequence of jobs, in order.
pub open spec fn job_views(v: Seq<JobDefinition>) -> Seq<JobView> {
    v.map_values(|j: JobDefinition| j@)
}

impl CellDefinition {
    /// Literal text.
    pub fn text(s: &str) -> (cell: CellDefinition)
        ensures
            cell@ == CellView::Text(s@),
    {
        CellDefinition::Text(String::from_str(s))
    }

    /// An operator as a value.
    pub fn op(s: &str) -> (cell: CellDefinition)
        ensures
            cell@ == CellView::Op(s@),
    {
        CellDefinition::Op(String::from_str(s))
    }

    /// A list of expressions.
    pub fn list(cells: Vec<CellDefinition>) -> (cell: CellDefinition)
        ensures
            cell@ == CellView::List(cell_views(cells@)),
    {
        let cell = CellDefinition::List(cells);
        assert(cell@->List_0 =~= cell_views(cells@));
        cell
    }

    /// A closure over jobs.
    pub fn closure(jobs: Vec<JobDefinition>) -> (cell: CellDefinition)
        ensures
            cell@ == CellView::Closure(job_views(jobs@)),
    {
        let cell = CellDefinition::ClosureDefinition(jobs);
        assert(cell@->Closure_0 =~= job_views(jobs@));
        cell
    }
}

impl ArgumentDefinition {
    /// An argument with a name.
    pub fn named(name: &str, cell: CellDefinition) -> (argument: ArgumentDefinition)
        ensures
            argument@ == (ArgumentView { name: Some(name@), cell: cell@ }),
    {
        ArgumentDefinition { name: Some(String::from_str(name)), cell }
    }

    /// A positional argument.
    pub fn unnamed(cell: CellDefinition) -> (argument: ArgumentDefinition)
        ensures
            argument@ == (ArgumentView { name: None, cell: cell@ }),
    {
        ArgumentDefinition { name: None, cell }
    }
}

impl CallDefinition {
    /// A call of the command `name` with `arguments`.
    pub fn new(name: Vec<String>, arguments: Vec<ArgumentDefinition>) -> (call: CallDefinition)
        ensures
            call@ == (CallView { name: texts(name@), arguments: argument_views(arguments@) }),
    {
        let call = CallDefinition { name, arguments };
        assert(call@.arguments =~= argument_views(arguments@));
        call
    }
}

impl JobDefinition {
    /// A pipeline of `commands`.
    pub fn new(commands: Vec<CallDefinition>) -> (job: JobDefinition)
        ensures
            job@ == (JobView { commands: call_views(commands@) }),
    {
        let job = JobDefinition { commands };
        assert(job@.commands =~= call_views(commands@));
        job
    }
}

/// A copy of a list of expressions.
pub fn copy_cells(cells: &Vec<CellDefinition>) -> (r: Vec<CellDefinition>)
    ensures
        cell_views(r@) == cell_views(cells@),
    decreases cells,
{
    let mut r: Vec<CellDefinition> = Vec::new();
    let mut i: usize = 0;
    while i < cells.len()
        invariant
            i <= cells.len(),
            r.len() == i,
            forall|j: int| 0 <= j < i ==> r@[j]@ == cells@[j]@,
        decreases cells.len() - i,
    {
        r.push(cells[i].duplicate());
        i += 1;
    }
    assert(cell_views(r@) =~= cell_views(cells@));
    r
}

/// A copy of a list of jobs.
pub fn copy_jobs(jobs: &Vec<JobDefinition>) -> (r: Vec<JobDefinition>)
    ensures
        job_views(r@) == job_views(jobs@),
    decreases jobs,
{
    let mut r: Vec<JobDefinition> = Vec::new();
    let mut i: usize = 0;
    while i < jobs.len()
        invariant
            i <= jobs.len(),
            r.len() == i,
            forall|j: int| 0 <= j < i ==> r@[j]@ == jobs@[j]@,
        decreases jobs.len() - i,
    {
        r.push(jobs[i].duplicate());
        i += 1;
    }
    assert(job_views(r@) =~= job_views(jobs@));
    r
}

impl CellDefinition {
    /// A copy of this expression.
    pub fn duplicate(&self) -> (r: CellDefinition)
        ensures
            r@ == self@,
        decreases self,
    {
        match self {
            CellDefinition::Text(s) => CellDefinition::Text(s.clone()),
            CellDefinition::Integer(i) => CellDefinition::Integer(*i),
            CellDefinition::Glob(s) => CellDefinition::Glob(s.clone()),
            CellDefinition::Regex(s, compiled) => CellDefinition::Regex(s.clone(), compiled.clone()),
            CellDefinition::Field(path) => CellDefinition::Field(copy_strings(path)),
            CellDefinition::Variable(path) => CellDefinition::Variable(copy_strings(path)),
            CellDefinition::ArrayVariable(path, index) => CellDefinition::ArrayVariable(
                copy_strings(path),
                Box::new(index.duplicate()),
            ),
            CellDefinition::List(cells) => {
                let r = copy_cells(cells);
                let copy = CellDefinition::List(r);
                assert(copy@->List_0 =~= cell_views(r@));
                assert(self@->List_0 =~= cell_views(cells@));
                copy
            },
            CellDefinition::Op(s) => CellDefinition::Op(s.clone()),
            CellDefinition::JobDefinition(job) => CellDefinition::JobDefinition(job.duplicate()),
            CellDefinition::ClosureDefinition(jobs) => {
                let r = copy_jobs(jobs);
                let copy = CellDefinition::ClosureDefinition(r);
                assert(copy@->Closure_0 =~= job_views(r@));
                assert(self@->Closure_0 =~= job_views(jobs@));
                copy
            },
        }
    }
}

impl ArgumentDefinition {
    /// A copy of this argument.
    pub fn duplicate(&self) -> (r: ArgumentDefinition)
        ensures
            r@ == self@,
        decreases self,
    {
        ArgumentDefinition {
            name: match &self.name {
                Some(n) => Some(n.clone()),
                None => None,
            },
            cell: self.cell.duplicate(),
        }
    }
}

impl CallDefinition {
    /// A copy of this call.
    pub fn duplicate(&self) -> (r: CallDefinition)
        ensures
            r@ == self@,
        decreases self,
    {
        let mut arguments: Vec<ArgumentDefinition> = Vec::new();
        let mut i: usize = 0;
        while i < self.arguments.len()
            invariant
                i <= self.arguments.len(),
                arguments.len() == i,
                forall|j: int| 0 <= j < i ==> arguments@[j]@ == self.arguments@[j]@,
            decreases self.arguments.len() - i,
        {
            arguments.push(self.arguments[i].duplicate());
            i += 1;
        }
        let copy = CallDefinition { name: copy_strings(&self.name), arguments };
        assert(copy@.arguments =~= self@.arguments);
        copy
    }
}

impl JobDefinition {
    /// A copy of this job.
    pub fn duplicate(&self) -> (r: JobDefinition)
        ensures
            r@ == self@,
        decreases self,
    {
        let mut commands: Vec<CallDefinition> = Vec::new();
        let mut i: usize = 0;
        while i < self.commands.len()
            invariant
                i <= self.commands.len(),
                commands.len() == i,
                forall|j: int| 0 <= j < i ==> commands@[j]@ == self.commands@[j]@,
            decreases self.commands.len() - i,
        {
            commands.push(self.commands[i].duplicate());
            i += 1;
        }
        let copy = JobDefinition { commands };
        assert(copy@.commands =~= self@.commands);
        copy
    }
}

/// Whether two texts that may be missing are both missing or the same.
fn same_name(a: &Option<String>, b: &Option<String>) -> (r: bool)
    ensures
        r == (match (*a, *b) {
            (Some(x), Some(y)) => x@ == y@,
            (None, None) => true,
            _ => false,
        }),
{
    match (a, b) {
        (Some(x), Some(y)) => *x == *y,
        (None, None) => true,
        _ => false,
    }
}

/// Whether two lists of expressions stand for the same.
pub fn same_cells(a: &Vec<CellDefinition>, b: &Vec<CellDefinition>) -> (r: bool)
    ensures
        r == (cell_views(a@) == cell_views(b@)),
    decreases a,
{
    if a.len() != b.len() {
        assert(cell_views(a@).len() != cell_views(b@).len());
        return false;
    }
    let mut i: usize = 0;
    while i < a.len()
        invariant
            i <= a.len(),
            a.len() == b.len(),
            forall|j: int| 0 <= j < i ==> a@[j]@ == b@[j]@,
        decreases a.len() - i,
    {
        if !a[i].same(&b[i]) {
            assert(cell_views(a@)[i as int] != cell_views(b@)[i as int]);
            return false;
        }
        i += 1;
    }
    assert(cell_views(a@) =~= cell_views(b@));
    true
}

/// Whether two lists of arguments stand for the same.
pub fn same_arguments(a: &Vec<ArgumentDefinition>, b: &Vec<ArgumentDefinition>) -> (r: bool)
    ensures
        r == (argument_views(a@) == argument_views(b@)),
    decreases a,
{
    if a.len() != b.len() {
        assert(argument_views(a@).len() != argument_views(b@).len());
        return false;
    }
    let mut i: usize = 0;
    while i < a.len()
        invariant
            i <= a.len(),
            a.len() == b.len(),
            forall|j: int| 0 <= j < i ==> a@[j]@ == b@[j]@,
        decreases a.len() - i,
    {
        if !a[i].same(&b[i]) {
            assert(argument_views(a@)[i as int] != argument_views(b@)[i as int]);
            return false;
        }
        i += 1;
    }
    assert(argument_views(a@) =~= argument_views(b@));
    true
}

/// Whether two lists of calls stand for the same.
pub fn same_calls(a: &Vec<CallDefinition>, b: &Vec<CallDefinition>) -> (r: bool)
    ensures
        r == (call_views(a@) == call_views(b@)),
    decreases a,
{
    if a.len() != b.len() {
        assert(call_views(a@).len() != call_views(b@).len());
        return false;
    }
    let mut i: usize = 0;
    while i < a.len()
        invariant
            i <= a.len(),
            a.len() == b.len(),
            forall|j: int| 0 <= j < i ==> a@[j]@ == b@[j]@,
        decreases a.len() - i,
    {
        if !a[i].same(&b[i]) {
            assert(call_views(a@)[i as int] != call_views(b@)[i as int]);
            return false;
        }
        i += 1;
    }
    assert(call_views(a@) =~= call_views(b@));
    true
}

/// Whether two lists of jobs stand for the same.
pub fn same_jobs(a: &Vec<JobDefinition>, b: &Vec<JobDefinition>) -> (r: bool)
    ensures
        r == (job_views(a@) == job_views(b@)),
    decreases a,
{
    if a.len() != b.len() {
        assert(job_views(a@).len() != job_views(b@).len());
        return false;
    }
    let mut i: usize = 0;
    while i < a.len()
        invariant
            i <= a.len(),
            a.len() == b.len(),
            forall|j: int| 0 <= j < i ==> a@[j]@ == b@[j]@,
        decreases a.len() - i,
    {
        if !a[i].same(&b[i]) {
            assert(job_views(a@)[i as int] != job_views(b@)[i as int]);
            return false;
        }
        i += 1;
    }
    assert(job_views(a@) =~= job_views(b@));
    true
}

impl CellDefinition {
    /// Whether two expressions stand for the same. Regular expressions are
    /// the same when their sources are.
    pub fn same(&self, other: &CellDefinition) -> (r: bool)
        ensures
            r == (self@ == other@),
        decreases self,
    {
        match self {
            CellDefinition::Text(x) => match other {
                CellDefinition::Text(y) => *x == *y,
                _ => false,
            },
            CellDefinition::Integer(x) => match other {
                CellDefinition::Integer(y) => *x == *y,
                _ => false,
            },
            CellDefinition::Glob(x) => match other {
                CellDefinition::Glob(y) => *x == *y,
                _ => false,
            },
            CellDefinition::Regex(x, _) => match other {
                CellDefinition::Regex(y, _) => *x == *y,
                _ => false,
            },
            CellDefinition::Field(x) => match other {
                CellDefinition::Field(y) => same_strings(x, y),
                _ => false,
            },
            CellDefinition::Variable(x) => match other {
                CellDefinition::Variable(y) => same_strings(x, y),
                _ => false,
            },
            CellDefinition::ArrayVariable(x, i) => match other {
                CellDefinition::ArrayVariable(y, j) => same_strings(x, y) && i.same(j),
                _ => false,
            },
            CellDefinition::List(x) => match other {
                CellDefinition::List(y) => {
                    assert(self@->List_0 =~= cell_views(x@));
                    assert(other@->List_0 =~= cell_views(y@));
                    same_cells(x, y)
                },
                _ => false,
            },
            CellDefinition::Op(x) => match other {
                CellDefinition::Op(y) => *x == *y,
                _ => false,
            },
            CellDefinition::JobDefinition(x) => match other {
                CellDefinition::JobDefinition(y) => x.same(y),
                _ => false,
            },
            CellDefinition::ClosureDefinition(x) => match other {
                CellDefinition::ClosureDefinition(y) => {
                    assert(self@->Closure_0 =~= job_views(x@));
                    assert(other@->Closure_0 =~= job_views(y@));
                    same_jobs(x, y)
                },
                _ => false,
            },
        }
    }
}

impl ArgumentDefinition {
    /// Whether two arguments stand for the same.
    pub fn same(&self, other: &ArgumentDefinition) -> (r: bool)
        ensures
            r == (self@ == other@),
        decreases self,
    {
        same_name(&self.name, &other.name) && self.cell.same(&other.cell)
    }
}

impl CallDefinition {
    /// Whether two calls stand for the same.
    pub fn same(&self, other: &CallDefinition) -> (r: bool)
        ensures
            r == (self@ == other@),
        decreases self,
    {
        assert(self@.arguments =~= argument_views(self.arguments@));
        assert(other@.arguments =~= argument_views(other.arguments@));
        same_strings(&self.name, &other.name) && same_arguments(&self.arguments, &other.arguments)
    }
}

impl JobDefinition {
    /// Whether two jobs stand for the same.
    pub fn same(&self, other: &JobDefinition) -> (r: bool)
        ensures
            r == (self@ == other@),
        decreases self,
    {
        assert(self@.commands =~= call_views(self.commands@));
        assert(other@.commands =~= call_views(other.commands@));
        same_calls(&self.commands, &other.commands)
    }
}

} // verus!
