//! What a command gets when it runs: the value handed to it, the place for
//! its result, its arguments, and the sink for its errors.
use vstd::prelude::*;
use crate::argument::Argument;
use crate::errors::{fail, plain, Cause, CrushResult, ErrorView};
use crate::stream::{OutputStream, OutputView, Printer};
use crate::value::{column_views, ColumnType, RowView, Value, ValueView, value_views};

verus! {

/// The reading end of the connection between two commands: it holds the
/// value that the command before has sent, until it is taken.
pub struct ValueReceiver {
    pub value: Option<Value>,
}

/// The writing end of the connection between two commands: it holds what
/// was sent, for as long as the reading end is there.
pub struct ValueSender {
    pub connected: bool,
    pub sent: Vec<Value>,
}

pub struct ExecutionContext {
    pub input: ValueReceiver,
    pub output: ValueSender,
    pub arguments: Vec<Argument>,
    /// The scope in which the command runs, by its index in the scope tree.
    pub env: usize,
    pub printer: Printer,
}

impl ValueReceiver {
    /// The value that waits to be taken, if there is one.
    pub open spec fn waiting(&self) -> Option<ValueView> {
        match self.value {
            Some(v) => Some(v@),
            None => None,
        }
    }

    /// A receiver that holds `value`.
    pub fn new(value: Value) -> (receiver: ValueReceiver)
        ensures
            receiver.waiting() == Some(value@),
    {
        ValueReceiver { value: Some(value) }
    }

    /// A receiver that holds nothing.
    pub fn empty() -> (receiver: ValueReceiver)
        ensures
            receiver.waiting() is None,
    {
        ValueReceiver { value: None }
    }

    /// Takes the value. Fails with `NoInput` when there is none.
    pub fn recv(&mut self) -> (r: CrushResult<Value>)
        ensures
            final(self).waiting() is None,
            match old(self).waiting() {
                Some(v) => r matches Ok(value) && value@ == v,
                None => r matches Err(e) && e@ == plain(Cause::NoInput),
            },
    {
        let mut taken: Option<Value> = None;
        std::mem::swap(&mut self.value, &mut taken);
        match taken {
            Some(value) => Ok(value),
            None => fail(Cause::NoInput),
        }
    }
}

impl ValueSender {
    /// The values that were sent, in order.
    pub open spec fn delivered(&self) -> Seq<ValueView> {
        value_views(self.sent@)
    }

    /// A sender with the reading end in place and nothing sent.
    pub fn new() -> (sender: ValueSender)
        ensures
            sender.connected,
            sender.delivered() == Seq::<ValueView>::empty(),
    {
        let sender = ValueSender { connected: true, sent: Vec::new() };
        assert(sender.delivered() =~= Seq::<ValueView>::empty());
        sender
    }

    /// Sends a value. Fails with `Disconnected` when the reading end has
    /// gone away.
    pub fn send(&mut self, value: Value) -> (r: CrushResult<()>)
        ensures
            final(self).connected == old(self).connected,
            old(self).connected ==> r is Ok && final(self).delivered() == old(self).delivered().push(
                value@,
            ),
            !old(self).connected ==> final(self).delivered() == old(self).delivered() && (
            r matches Err(e) && e@ == plain(Cause::Disconnected)),
    {
        if !self.connected {
            return fail(Cause::Disconnected);
        }
        let ghost before = self.delivered();
        self.sent.push(value);
        assert(self.delivered() =~= before.push(value@));
        Ok(())
    }

    /// Opens a stream of rows with the given columns. Fails with
    /// `Disconnected` when the reading end has gone away.
    pub fn initialize(&self, types: Vec<ColumnType>) -> (r: CrushResult<OutputStream>)
        ensures
            self.connected ==> (r matches Ok(out) && out@ == (OutputView {
                types: column_views(types@),
                rows: Seq::<RowView>::empty(),
                connected: true,
            })),
            !self.connected ==> (r matches Err(e) && e@ == plain(Cause::Disconnected)),
    {
        if !self.connected {
            return fail(Cause::Disconnected);
        }
        Ok(OutputStream::new(types))
    }
}

impl ExecutionContext {
    /// A context for a command that is handed `input` and called with
    /// `arguments` in the scope `env`.
    pub fn new(input: Value, arguments: Vec<Argument>, env: usize) -> (context: ExecutionContext)
        ensures
            context.input.waiting() == Some(input@),
            context.arguments == arguments,
            context.env == env,
            context.output.connected,
            context.output.delivered() == Seq::<ValueView>::empty(),
            context.printer.reported() == Seq::<ErrorView>::empty(),
    {
        ExecutionContext {
            input: ValueReceiver::new(input),
            output: ValueSender::new(),
            arguments,
            env,
            printer: Printer::new(),
        }
    }
}

} // verus!
