//! Jobs: pipelines that are bound to the scope in which they run.
use vstd::prelude::*;
use crate::argument::{argument_models, Argument, ArgumentModel};
use crate::commands::sum::{perform, sum_of};
use crate::commands::uniq::{uniq, uniq_of};
use crate::data::{
    copy_jobs, job_views, ArgumentDefinition, ArgumentView, CallDefinition, CallView,
    CellDefinition, CellView, JobDefinition, JobView,
};
use crate::errors::{about, fail, fail_about, plain, Cause, CrushResult, ErrorView};
use crate::execution_context::{ExecutionContext, ValueReceiver, ValueSender};
use crate::names::{join, join_path};
use crate::scope::{fresh, resolve_path, ScopeTree, ScopeView};
use crate::stream::Printer;
use crate::text::{copy_strings, same_strings, texts};
use crate::value::{value_views, Closure, Value, ValueView};

verus! {

/// A job definition and the scope in which it runs.
#[derive(Debug)]
pub struct Job {
    pub definition: JobDefinition,
    pub env: usize,
}

impl View for Job {
    type V = (JobView, int);

    open spec fn view(&self) -> (JobView, int) {
        (self.definition@, self.env as int)
    }
}

/// The views of a sequence of jobs, in order.
pub open spec fn bound_jobs(v: Seq<Job>) -> Seq<(JobView, int)> {
    v.map_values(|j: Job| j@)
}

/// Binds each definition to the scope `env`.
pub fn bind(definitions: Vec<JobDefinition>, env: usize) -> (jobs: Vec<Job>)
    ensures
        bound_jobs(jobs@) == job_views(definitions@).map_values(|job: JobView| (job, env as int)),
{
    let ghost wanted = job_views(definitions@).map_values(|job: JobView| (job, env as int));
    let mut definitions = definitions;
    let mut reversed: Vec<Job> = Vec::new();
    while definitions.len() > 0
        invariant
            definitions.len() + reversed.len() == wanted.len(),
            forall|i: int| 0 <= i < definitions.len() ==> (#[trigger] definitions@[i])@ == wanted[i].0,
            forall|i: int|
                0 <= i < reversed.len() ==> (#[trigger] reversed@[i])@ == wanted[wanted.len() - 1
                    - i],
            forall|i: int| 0 <= i < wanted.len() ==> (#[trigger] wanted[i]).1 == env,
        decreases definitions.len(),
    {
        let definition = definitions.pop().unwrap();
        reversed.push(Job { definition, env });
    }
    let mut jobs: Vec<Job> = Vec::new();
    while reversed.len() > 0
        invariant
            jobs.len() + reversed.len() == wanted.len(),
            forall|i: int|
                0 <= i < reversed.len() ==> (#[trigger] reversed@[i])@ == wanted[wanted.len() - 1
                    - i],
            forall|i: int| 0 <= i < jobs.len() ==> (#[trigger] jobs@[i])@ == wanted[i],
        decreases reversed.len(),
    {
        let job = reversed.pop().unwrap();
        jobs.push(job);
    }
    assert(bound_jobs(jobs@) =~= wanted);
    jobs
}

/// The commands that a registry can name.
#[derive(Debug, Clone, Copy, PartialEq, Eq, Structural)]
pub enum Command {
    /// Forwards the first row of each key.
    Uniq,
    /// Adds up a column.
    Sum,
    /// Hands its input on as it is.
    Forward,
}

/// The commands that jobs can call, by name.
pub struct Registry {
    names: Vec<Vec<String>>,
    commands: Vec<Command>,
}

/// The command that a name stands for: the first entry with that name.
pub open spec fn command_named(
    entries: Seq<(Seq<Seq<char>>, Command)>,
    name: Seq<Seq<char>>,
    k: int,
) -> Option<Command>
    decreases entries.len() - k,
{
    if k < 0 || k >= entries.len() {
        None
    } else if entries[k].0 == name {
        Some(entries[k].1)
    } else {
        command_named(entries, name, k + 1)
    }
}

impl Registry {
    /// The entries, in the order in which they were registered.
    pub closed spec fn view(&self) -> Seq<(Seq<Seq<char>>, Command)> {
        Seq::new(
            self.names.len() as nat,
            |i: int| (texts(self.names[i]@), self.commands[i]),
        )
    }

    pub closed spec fn wf(&self) -> bool {
        self.names.len() == self.commands.len()
    }

    /// A registry without commands.
    pub fn new() -> (registry: Registry)
        ensures
            registry.wf(),
            registry@ == Seq::<(Seq<Seq<char>>, Command)>::empty(),
    {
        let registry = Registry { names: Vec::new(), commands: Vec::new() };
        assert(registry@ =~= Seq::<(Seq<Seq<char>>, Command)>::empty());
        registry
    }

    /// The registry of the commands that come with the library: `uniq`
    /// and `sum`.
    pub fn builtin() -> (registry: Registry)
        ensures
            registry.wf(),
            registry@ == seq![(seq!["uniq"@], Command::Uniq), (seq!["sum"@], Command::Sum)],
    {
        let mut registry = Registry::new();
        let mut uniq_name: Vec<String> = Vec::new();
        uniq_name.push(String::from_str("uniq"));
        assert(texts(uniq_name@) =~= seq!["uniq"@]);
        registry.register(uniq_name, Command::Uniq);
        let mut sum_name: Vec<String> = Vec::new();
        sum_name.push(String::from_str("sum"));
        assert(texts(sum_name@) =~= seq!["sum"@]);
        registry.register(sum_name, Command::Sum);
        assert(registry@ =~= seq![(seq!["uniq"@], Command::Uniq), (seq!["sum"@], Command::Sum)]);
        registry
    }

    /// Adds a command under a name. A name that is registered already
    /// keeps its first meaning.
    pub fn register(&mut self, name: Vec<String>, command: Command)
        requires
            old(self).wf(),
        ensures
            final(self).wf(),
            final(self)@ == old(self)@.push((texts(name@), command)),
    {
        self.names.push(name);
        self.commands.push(command);
        assert(self@ =~= old(self)@.push((texts(name@), command)));
    }

    /// The command that `name` stands for.
    pub fn find(&self, name: &Vec<String>) -> (r: Option<Command>)
        requires
            self.wf(),
        ensures
            r == command_named(self@, texts(name@), 0),
    {
        let mut k: usize = 0;
        while k < self.names.len()
            invariant
                self.wf(),
                k <= self.names.len(),
                command_named(self@, texts(name@), 0) == command_named(
                    self@,
                    texts(name@),
                    k as int,
                ),
            decreases self.names.len() - k,
        {
            if same_strings(&self.names[k], name) {
                return Some(self.commands[k]);
            }
            k += 1;
        }
        None
    }
}

/// A command that is ready to run: what it is, and the values of its
/// arguments.
pub struct Stage {
    pub command: Command,
    pub arguments: Vec<Argument>,
}

pub struct StageView {
    pub command: Command,
    pub arguments: Seq<ArgumentModel>,
}

impl View for Stage {
    type V = StageView;

    open spec fn view(&self) -> StageView {
        StageView { command: self.command, arguments: argument_models(self.arguments@) }
    }
}

/// The views of a sequence of stages, in order.
pub open spec fn stage_views(v: Seq<Stage>) -> Seq<StageView> {
    v.map_values(|s: Stage| s@)
}

/// What a stage makes of its input.
#[verifier::opaque]
pub open spec fn stage_result(stage: StageView, input: Option<ValueView>) -> Result<
    ValueView,
    ErrorView,
> {
    match stage.command {
        Command::Uniq => match uniq_of(input, stage.arguments, true) {
            Ok(table) => Ok(ValueView::Stream(table)),
            Err(e) => Err(e),
        },
        Command::Sum => match sum_of(input, stage.arguments) {
            Ok(total) => Ok(ValueView::Integer(total)),
            Err(e) => Err(e),
        },
        Command::Forward => match input {
            Some(v) => Ok(v),
            None => Err(plain(Cause::NoInput)),
        },
    }
}

/// What the stages from `k` on make of an input: the output of each is the
/// input of the next, and the first error ends the run.
pub open spec fn pipeline_result(stages: Seq<StageView>, k: int, input: Option<ValueView>) -> Result<
    Option<ValueView>,
    ErrorView,
>
    decreases stages.len() - k,
{
    if k < 0 || k >= stages.len() {
        Ok(input)
    } else {
        match stage_result(stages[k], input) {
            Ok(v) => pipeline_result(stages, k + 1, Some(v)),
            Err(e) => Err(e),
        }
    }
}

/// The value of an expression in the scope `env`. Literals stand for
/// themselves; a variable stands for what its path is bound to; an indexed
/// variable for the element of the list that the variable is bound to; a
/// job for its result when it runs without input; a closure for its jobs
/// together with the scope `env`.
pub open spec fn evaluated(
    cell: CellView,
    registry: Seq<(Seq<Seq<char>>, Command)>,
    tree: Seq<ScopeView>,
    env: int,
) -> Result<ValueView, ErrorView>
    decreases cell, 0int,
{
    match cell {
        CellView::Text(t) => Ok(ValueView::Text(t)),
        CellView::Integer(i) => Ok(ValueView::Integer(i)),
        CellView::Glob(g) => Ok(ValueView::Glob(g)),
        CellView::Regex(r) => Ok(ValueView::Regex(r)),
        CellView::Field(path) => Ok(ValueView::Field(path)),
        CellView::Op(o) => Ok(ValueView::Op(o)),
        CellView::Variable(path) => resolve_path(tree, env, path),
        CellView::ArrayVariable(path, index) => match resolve_path(tree, env, path) {
            Err(e) => Err(e),
            Ok(list) => match evaluated(*index, registry, tree, env) {
                Err(e) => Err(e),
                Ok(position) => element(list, position),
            },
        },
        CellView::List(cells) => match evaluated_all(cells, 0, Seq::empty(), registry, tree, env) {
            Ok(values) => Ok(ValueView::List(values)),
            Err(e) => Err(e),
        },
        CellView::Job(job) => match job_result(job, registry, tree, env, None) {
            Err(e) => Err(e),
            Ok(Some(v)) => Ok(v),
            Ok(None) => Err(plain(Cause::BadExpression)),
        },
        CellView::Closure(jobs) => Ok(ValueView::Closure(jobs, env as nat)),
    }
}

/// The element of a list at a position.
pub open spec fn element(list: ValueView, position: ValueView) -> Result<ValueView, ErrorView> {
    match (list, position) {
        (ValueView::List(items), ValueView::Integer(i)) => if 0 <= i < items.len() {
            Ok(items[i])
        } else {
            Err(plain(Cause::BadExpression))
        },
        _ => Err(plain(Cause::BadExpression)),
    }
}

/// The values `acc` followed by the values of the expressions
/// `cells[k..]`, or the first error.
pub open spec fn evaluated_all(
    cells: Seq<CellView>,
    k: int,
    acc: Seq<ValueView>,
    registry: Seq<(Seq<Seq<char>>, Command)>,
    tree: Seq<ScopeView>,
    env: int,
) -> Result<Seq<ValueView>, ErrorView>
    decreases cells, cells.len() - k,
{
    if k < 0 || k >= cells.len() {
        Ok(acc)
    } else {
        match evaluated(cells[k], registry, tree, env) {
            Err(e) => Err(e),
            Ok(v) => evaluated_all(cells, k + 1, acc.push(v), registry, tree, env),
        }
    }
}

/// The arguments `acc` followed by the values of the arguments
/// `arguments[k..]`, or the first error.
pub open spec fn evaluated_arguments(
    arguments: Seq<ArgumentView>,
    k: int,
    acc: Seq<ArgumentModel>,
    registry: Seq<(Seq<Seq<char>>, Command)>,
    tree: Seq<ScopeView>,
    env: int,
) -> Result<Seq<ArgumentModel>, ErrorView>
    decreases arguments, arguments.len() - k,
{
    if k < 0 || k >= arguments.len() {
        Ok(acc)
    } else {
        match evaluated(arguments[k].cell, registry, tree, env) {
            Err(e) => Err(e),
            Ok(v) => evaluated_arguments(
                arguments,
                k + 1,
                acc.push(ArgumentModel { name: arguments[k].name, value: v }),
                registry,
                tree,
                env,
            ),
        }
    }
}

/// The stage for a call: the command that its name stands for, with the
/// values of its arguments. A name that the registry does not know is an
/// error about the name.
pub open spec fn staged(
    call: CallView,
    registry: Seq<(Seq<Seq<char>>, Command)>,
    tree: Seq<ScopeView>,
    env: int,
) -> Result<StageView, ErrorView>
    decreases call, 0int,
{
    match command_named(registry, call.name, 0) {
        None => Err(about(Cause::UnknownCommand, join(call.name, '/'))),
        Some(command) => match evaluated_arguments(
            call.arguments,
            0,
            Seq::empty(),
            registry,
            tree,
            env,
        ) {
            Err(e) => Err(e),
            Ok(arguments) => Ok(StageView { command, arguments }),
        },
    }
}

/// The stages `acc` followed by the stages for the calls `calls[k..]`, or
/// the first error.
pub open spec fn staged_all(
    calls: Seq<CallView>,
    k: int,
    acc: Seq<StageView>,
    registry: Seq<(Seq<Seq<char>>, Command)>,
    tree: Seq<ScopeView>,
    env: int,
) -> Result<Seq<StageView>, ErrorView>
    decreases calls, calls.len() - k,
{
    if k < 0 || k >= calls.len() {
        Ok(acc)
    } else {
        match staged(calls[k], registry, tree, env) {
            Err(e) => Err(e),
            Ok(stage) => staged_all(calls, k + 1, acc.push(stage), registry, tree, env),
        }
    }
}

/// The stages of a job. A job without calls cannot be built.
pub open spec fn built(
    job: JobView,
    registry: Seq<(Seq<Seq<char>>, Command)>,
    tree: Seq<ScopeView>,
    env: int,
) -> Result<Seq<StageView>, ErrorView>
    decreases job, 1int,
{
    if job.commands.len() == 0 {
        Err(plain(Cause::EmptyJob))
    } else {
        staged_all(job.commands, 0, Seq::empty(), registry, tree, env)
    }
}

/// What a job makes of its input: all its stages are built first, then
/// they run one after the other.
pub open spec fn job_result(
    job: JobView,
    registry: Seq<(Seq<Seq<char>>, Command)>,
    tree: Seq<ScopeView>,
    env: int,
    input: Option<ValueView>,
) -> Result<Option<ValueView>, ErrorView>
    decreases job, 2int,
{
    match built(job, registry, tree, env) {
        Err(e) => Err(e),
        Ok(stages) => pipeline_result(stages, 0, input),
    }
}

/// The view of a value that may be missing.
pub open spec fn option_view(v: Option<Value>) -> Option<ValueView> {
    match v {
        Some(x) => Some(x@),
        None => None,
    }
}

/// The element of a list at a position.
pub fn element_of(list: &Value, position: &Value) -> (r: CrushResult<Value>)
    ensures
        match element(list@, position@) {
            Ok(v) => r matches Ok(value) && value@ == v,
            Err(e) => r matches Err(error) && error@ == e,
        },
{
    match list {
        Value::List(items) => {
            assert(list@ == ValueView::List(value_views(items@))) by {
                assert(list@->List_0 =~= value_views(items@));
            }
            match position {
                Value::Integer(i) => {
                    if *i >= 0 && *i < items.len() as i128 {
                        let at = *i as usize;
                        assert(value_views(items@)[at as int] == items@[at as int]@);
                        Ok(items[at].duplicate())
                    } else {
                        fail(Cause::BadExpression)
                    }
                },
                _ => fail(Cause::BadExpression),
            }
        },
        _ => fail(Cause::BadExpression),
    }
}

/// The values of expressions, in order.
pub fn evaluate_all(
    cells: &Vec<CellDefinition>,
    registry: &Registry,
    tree: &ScopeTree,
    env: usize,
) -> (r: CrushResult<Vec<Value>>)
    requires
        registry.wf(),
        tree.wf(),
    ensures
        match evaluated_all(
            crate::data::cell_views(cells@),
            0,
            Seq::empty(),
            registry@,
            tree@,
            env as int,
        ) {
            Ok(values) => r matches Ok(found) && value_views(found@) == values,
            Err(e) => r matches Err(error) && error@ == e,
        },
    decreases cells, 0int,
{
    let ghost views = crate::data::cell_views(cells@);
    let mut values: Vec<Value> = Vec::new();
    let mut k: usize = 0;
    assert(value_views(values@) =~= Seq::empty());
    while k < cells.len()
        invariant
            registry.wf(),
            tree.wf(),
            k <= cells.len(),
            views == crate::data::cell_views(cells@),
            evaluated_all(views, 0, Seq::empty(), registry@, tree@, env as int) == evaluated_all(
                views,
                k as int,
                value_views(values@),
                registry@,
                tree@,
                env as int,
            ),
        decreases cells.len() - k,
    {
        let ghost before = value_views(values@);
        assert(views[k as int] == cells@[k as int]@);
        match evaluate(&cells[k], registry, tree, env) {
            Ok(v) => {
                values.push(v);
                assert(value_views(values@) =~= before.push(v@));
            },
            Err(e) => {
                return Err(e);
            },
        }
        k += 1;
    }
    Ok(values)
}

/// The value of an expression in the scope `env`.
pub fn evaluate(cell: &CellDefinition, registry: &Registry, tree: &ScopeTree, env: usize) -> (r:
    CrushResult<Value>)
    requires
        registry.wf(),
        tree.wf(),
    ensures
        match evaluated(cell@, registry@, tree@, env as int) {
            Ok(v) => r matches Ok(value) && value@ == v,
            Err(e) => r matches Err(error) && error@ == e,
        },
    decreases cell, 1int,
{
    match cell {
        CellDefinition::Text(t) => Ok(Value::Text(t.clone())),
        CellDefinition::Integer(i) => Ok(Value::Integer(*i)),
        CellDefinition::Glob(g) => Ok(Value::Glob(g.clone())),
        CellDefinition::Regex(source, compiled) => Ok(
            Value::Regex(source.clone(), compiled.clone()),
        ),
        CellDefinition::Field(path) => Ok(Value::Field(copy_strings(path))),
        CellDefinition::Op(o) => Ok(Value::Op(o.clone())),
        CellDefinition::Variable(path) => match tree.get_path(env, path) {
            Ok(v) => Ok(v.duplicate()),
            Err(e) => Err(e),
        },
        CellDefinition::ArrayVariable(path, index) => {
            let list = match tree.get_path(env, path) {
                Ok(v) => v,
                Err(e) => {
                    return Err(e);
                },
            };
            let position = match evaluate(index, registry, tree, env) {
                Ok(v) => v,
                Err(e) => {
                    return Err(e);
                },
            };
            element_of(list, &position)
        },
        CellDefinition::List(cells) => {
            assert(cell@->List_0 =~= crate::data::cell_views(cells@));
            match evaluate_all(cells, registry, tree, env) {
                Ok(values) => {
                    let list = Value::List(values);
                    assert(list@->List_0 =~= value_views(values@));
                    Ok(list)
                },
                Err(e) => Err(e),
            }
        },
        CellDefinition::JobDefinition(job) => match run_job(job, registry, tree, env, None) {
            Err(e) => Err(e),
            Ok(Some(v)) => Ok(v),
            Ok(None) => fail(Cause::BadExpression),
        },
        CellDefinition::ClosureDefinition(jobs) => {
            assert(cell@->Closure_0 =~= job_views(jobs@));
            Ok(Value::Closure(Closure { jobs: copy_jobs(jobs), scope: env }))
        },
    }
}

/// The values of the arguments of a call, in order.
pub fn evaluate_arguments(
    arguments: &Vec<ArgumentDefinition>,
    registry: &Registry,
    tree: &ScopeTree,
    env: usize,
) -> (r: CrushResult<Vec<Argument>>)
    requires
        registry.wf(),
        tree.wf(),
    ensures
        match evaluated_arguments(
            crate::data::argument_views(arguments@),
            0,
            Seq::empty(),
            registry@,
            tree@,
            env as int,
        ) {
            Ok(values) => r matches Ok(found) && argument_models(found@) == values,
            Err(e) => r matches Err(error) && error@ == e,
        },
    decreases arguments, 0int,
{
    let ghost views = crate::data::argument_views(arguments@);
    let mut values: Vec<Argument> = Vec::new();
    let mut k: usize = 0;
    assert(argument_models(values@) =~= Seq::empty());
    while k < arguments.len()
        invariant
            registry.wf(),
            tree.wf(),
            k <= arguments.len(),
            views == crate::data::argument_views(arguments@),
            evaluated_arguments(views, 0, Seq::empty(), registry@, tree@, env as int)
                == evaluated_arguments(
                views,
                k as int,
                argument_models(values@),
                registry@,
                tree@,
                env as int,
            ),
        decreases arguments.len() - k,
    {
        let ghost before = argument_models(values@);
        assert(views[k as int] == arguments@[k as int]@);
        match evaluate(&arguments[k].cell, registry, tree, env) {
            Ok(v) => {
                let name = match &arguments[k].name {
                    Some(n) => Some(n.clone()),
                    None => None,
                };
                let argument = Argument { name, value: v };
                values.push(argument);
                assert(argument_models(values@) =~= before.push(argument@));
            },
            Err(e) => {
                return Err(e);
            },
        }
        k += 1;
    }
    Ok(values)
}

/// Builds the stage for a call.
pub fn build_stage(call: &CallDefinition, registry: &Registry, tree: &ScopeTree, env: usize) -> (r:
    CrushResult<Stage>)
    requires
        registry.wf(),
        tree.wf(),
    ensures
        match staged(call@, registry@, tree@, env as int) {
            Ok(stage) => r matches Ok(found) && found@ == stage,
            Err(e) => r matches Err(error) && error@ == e,
        },
    decreases call, 1int,
{
    assert(call@.arguments =~= crate::data::argument_views(call.arguments@));
    let command = match registry.find(&call.name) {
        Some(command) => command,
        None => {
            let name = join_path(&call.name, '/');
            return fail_about(Cause::UnknownCommand, name.as_str());
        },
    };
    match evaluate_arguments(&call.arguments, registry, tree, env) {
        Ok(arguments) => Ok(Stage { command, arguments }),
        Err(e) => Err(e),
    }
}

/// Builds the stages of a job. Nothing runs yet, but for the jobs that
/// arguments hold.
pub fn build(job: &JobDefinition, registry: &Registry, tree: &ScopeTree, env: usize) -> (r:
    CrushResult<Vec<Stage>>)
    requires
        registry.wf(),
        tree.wf(),
    ensures
        match built(job@, registry@, tree@, env as int) {
            Ok(stages) => r matches Ok(found) && stage_views(found@) == stages,
            Err(e) => r matches Err(error) && error@ == e,
        },
    decreases job, 2int,
{
    let ghost calls = job@.commands;
    assert(calls =~= crate::data::call_views(job.commands@));
    if job.commands.len() == 0 {
        return fail(Cause::EmptyJob);
    }
    let mut stages: Vec<Stage> = Vec::new();
    let mut k: usize = 0;
    assert(stage_views(stages@) =~= Seq::empty());
    while k < job.commands.len()
        invariant
            registry.wf(),
            tree.wf(),
            k <= job.commands.len(),
            calls == crate::data::call_views(job.commands@),
            calls == job@.commands,
            calls.len() > 0,
            staged_all(calls, 0, Seq::empty(), registry@, tree@, env as int) == staged_all(
                calls,
                k as int,
                stage_views(stages@),
                registry@,
                tree@,
                env as int,
            ),
        decreases job.commands.len() - k,
    {
        let ghost before = stage_views(stages@);
        assert(calls[k as int] == job.commands@[k as int]@);
        match build_stage(&job.commands[k], registry, tree, env) {
            Ok(stage) => {
                assert(staged(calls[k as int], registry@, tree@, env as int) == Ok::<
                    StageView,
                    ErrorView,
                >(stage@));
                assert(staged_all(calls, k as int, before, registry@, tree@, env as int)
                    == staged_all(
                    calls,
                    k + 1,
                    before.push(stage@),
                    registry@,
                    tree@,
                    env as int,
                ));
                stages.push(stage);
                assert(stage_views(stages@) =~= before.push(stage@));
            },
            Err(e) => {
                assert(staged_all(calls, k as int, before, registry@, tree@, env as int)
                    == Err::<Seq<StageView>, ErrorView>(e@));
                return Err(e);
            },
        }
        k += 1;
    }
    Ok(stages)
}

/// Runs one stage on its input.
pub fn run_stage(stage: Stage, input: Option<Value>, env: usize) -> (r: CrushResult<Value>)
    ensures
        match stage_result(stage@, option_view(input)) {
            Ok(v) => r matches Ok(value) && value@ == v,
            Err(e) => r matches Err(error) && error@ == e,
        },
{
    reveal(stage_result);
    match stage.command {
        Command::Forward => match input {
            Some(v) => Ok(v),
            None => fail(Cause::NoInput),
        },
        Command::Uniq => {
            let mut context = ExecutionContext {
                input: ValueReceiver { value: input },
                output: ValueSender::new(),
                arguments: stage.arguments,
                env,
                printer: Printer::new(),
            };
            match uniq(&mut context) {
                Ok(()) => sent_value(context.output),
                Err(e) => Err(e),
            }
        },
        Command::Sum => {
            let mut context = ExecutionContext {
                input: ValueReceiver { value: input },
                output: ValueSender::new(),
                arguments: stage.arguments,
                env,
                printer: Printer::new(),
            };
            match perform(&mut context) {
                Ok(()) => sent_value(context.output),
                Err(e) => Err(e),
            }
        },
    }
}

/// The one value that was sent.
fn sent_value(output: ValueSender) -> (r: CrushResult<Value>)
    requires
        output.delivered().len() == 1,
    ensures
        r matches Ok(value) && value@ == output.delivered()[0],
{
    let mut sent = output.sent;
    assert(value_views(sent@)[0] == sent@[0]@);
    match sent.pop() {
        Some(v) => Ok(v),
        None => fail(Cause::NoInput),
    }
}

/// Runs stages one after the other: the output of each is the input of
/// the next.
pub fn run_stages(stages: Vec<Stage>, input: Option<Value>, env: usize) -> (r: CrushResult<
    Option<Value>,
>)
    ensures
        match pipeline_result(stage_views(stages@), 0, option_view(input)) {
            Ok(v) => r matches Ok(value) && option_view(value) == v,
            Err(e) => r matches Err(error) && error@ == e,
        },
{
    let ghost all = stage_views(stages@);
    let mut waiting = stages;
    let mut value = input;
    let mut k: usize = 0;
    while k < waiting.len()
        invariant
            k <= waiting.len(),
            all == stage_views(stages@),
            waiting.len() == all.len(),
            forall|j: int| k <= j < waiting.len() ==> (#[trigger] waiting@[j])@ == all[j],
            pipeline_result(all, 0, option_view(input)) == pipeline_result(
                all,
                k as int,
                option_view(value),
            ),
        decreases waiting.len() - k,
    {
        let mut stage = Stage { command: Command::Forward, arguments: Vec::new() };
        std::mem::swap(&mut waiting[k], &mut stage);
        assert(stage@ == all[k as int]);
        match run_stage(stage, value, env) {
            Ok(v) => {
                value = Some(v);
            },
            Err(e) => {
                return Err(e);
            },
        }
        k += 1;
    }
    Ok(value)
}

/// Builds a job and runs it on an input.
pub fn run_job(
    job: &JobDefinition,
    registry: &Registry,
    tree: &ScopeTree,
    env: usize,
    input: Option<Value>,
) -> (r: CrushResult<Option<Value>>)
    requires
        registry.wf(),
        tree.wf(),
    ensures
        match job_result(job@, registry@, tree@, env as int, option_view(input)) {
            Ok(v) => r matches Ok(value) && option_view(value) == v,
            Err(e) => r matches Err(error) && error@ == e,
        },
    decreases job, 3int,
{
    match build(job, registry, tree, env) {
        Ok(stages) => run_stages(stages, input, env),
        Err(e) => Err(e),
    }
}

/// What a job is handed when it is started: its input, if it has one, and
/// the scope in which it runs.
pub struct JobContext {
    pub input: Option<Value>,
    pub env: usize,
}

impl JobContext {
    pub fn new(input: Option<Value>, env: usize) -> (context: JobContext)
        ensures
            context.input == input,
            context.env == env,
    {
        JobContext { input, env }
    }
}

/// A job that was built: its stages, ready to run, and its input.
pub struct JobHandle {
    stages: Vec<Stage>,
    input: Option<Value>,
    env: usize,
}

impl JobHandle {
    /// The stages of the job.
    pub closed spec fn stages(&self) -> Seq<StageView> {
        stage_views(self.stages@)
    }

    /// The input of the job.
    pub closed spec fn input(&self) -> Option<ValueView> {
        option_view(self.input)
    }

    /// The scope in which the job runs.
    pub closed spec fn scope(&self) -> int {
        self.env as int
    }

    /// The stages, the input and the scope of the job, for a caller that
    /// runs the stages itself.
    pub fn into_parts(self) -> (parts: (Vec<Stage>, Option<Value>, usize))
        ensures
            stage_views(parts.0@) == self.stages(),
            option_view(parts.1) == self.input(),
            parts.2 == self.scope(),
    {
        (self.stages, self.input, self.env)
    }

    /// Runs the job to its end and returns its result. The first error
    /// ends the job; it is reported to `printer` and there is no result.
    pub fn join(self, printer: &mut Printer) -> (r: Option<Value>)
        ensures
            final(printer).lines == old(printer).lines,
            match pipeline_result(self.stages(), 0, self.input()) {
                Ok(v) => option_view(r) == v && final(printer).reported() == old(
                    printer,
                ).reported(),
                Err(e) => r is None && final(printer).reported() == old(printer).reported().push(
                    e,
                ),
            },
    {
        match run_stages(self.stages, self.input, self.env) {
            Ok(v) => v,
            Err(e) => {
                printer.crush_error(e);
                None
            },
        }
    }
}

impl JobDefinition {
    /// Builds the job for a run in the context: every command is looked
    /// up and every argument evaluated. An error here means that the job
    /// does not start at all.
    pub fn invoke(&self, context: JobContext, registry: &Registry, tree: &ScopeTree) -> (r:
        CrushResult<JobHandle>)
        requires
            registry.wf(),
            tree.wf(),
        ensures
            match built(self@, registry@, tree@, context.env as int) {
                Ok(stages) => r matches Ok(handle) && handle.stages() == stages && handle.input()
                    == option_view(context.input) && handle.scope() == context.env,
                Err(e) => r matches Err(error) && error@ == e,
            },
    {
        match build(self, registry, tree, context.env) {
            Ok(stages) => Ok(JobHandle { stages, input: context.input, env: context.env }),
            Err(e) => Err(e),
        }
    }
}

/// What the jobs `jobs[k..]` give when they run one after the other in the
/// scope `env`, each without input: the result of the last job, or the
/// first error. `last` is the result of the job before `jobs[k]`.
pub open spec fn sequence_result(
    jobs: Seq<JobView>,
    k: int,
    last: Option<ValueView>,
    registry: Seq<(Seq<Seq<char>>, Command)>,
    tree: Seq<ScopeView>,
    env: int,
) -> Result<Option<ValueView>, ErrorView>
    decreases jobs.len() - k,
{
    if k < 0 || k >= jobs.len() {
        Ok(last)
    } else {
        match job_result(jobs[k], registry, tree, env, None) {
            Err(e) => Err(e),
            Ok(v) => sequence_result(jobs, k + 1, v, registry, tree, env),
        }
    }
}

/// Calls a closure: makes a new scope whose parent is the scope that the
/// closure holds, and runs the jobs of the closure in it. Names in the jobs
/// are read from where the closure was written, and what one call declares
/// is not seen by the next.
pub fn call_closure(closure: &Closure, registry: &Registry, tree: &mut ScopeTree) -> (r:
    CrushResult<Option<Value>>)
    requires
        registry.wf(),
        old(tree).wf(),
        old(tree).has(closure.scope),
    ensures
        final(tree).wf(),
        final(tree)@ == old(tree)@.push(fresh(Some(closure.scope as int), false)),
        match sequence_result(
            job_views(closure.jobs@),
            0,
            None,
            registry@,
            final(tree)@,
            old(tree)@.len() as int,
        ) {
            Ok(v) => r matches Ok(value) && option_view(value) == v,
            Err(e) => r matches Err(error) && error@ == e,
        },
{
    let env = tree.create_child(closure.scope, false);
    let ghost jobs = job_views(closure.jobs@);
    let mut last: Option<Value> = None;
    let mut k: usize = 0;
    while k < closure.jobs.len()
        invariant
            registry.wf(),
            tree.wf(),
            k <= closure.jobs.len(),
            jobs == job_views(closure.jobs@),
            env == old(tree)@.len(),
            tree@ == old(tree)@.push(fresh(Some(closure.scope as int), false)),
            sequence_result(jobs, 0, None, registry@, tree@, env as int) == sequence_result(
                jobs,
                k as int,
                option_view(last),
                registry@,
                tree@,
                env as int,
            ),
        decreases closure.jobs.len() - k,
    {
        assert(jobs[k as int] == closure.jobs@[k as int]@);
        match run_job(&closure.jobs[k], registry, tree, env, None) {
            Ok(v) => {
                last = v;
            },
            Err(e) => {
                return Err(e);
            },
        }
        k += 1;
    }
    Ok(last)
}

} // verus!
