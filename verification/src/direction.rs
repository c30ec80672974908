//! One direction of a proxied connection, run as a task of its own.
//!
//! Where each direction of a connection has its own unit of work, that unit
//! reads from its source, writes all it has read to its destination before
//! it reads again, passes the end of the source's data on to the
//! destination, and stops. A [`DirectionalTask`] makes these decisions; its
//! caller does the reads, writes and the shutdown, and waits where a socket
//! is not ready.

use crate::buffer::{BufferView, ProxyBuffer};
use crate::relay::{DirectionState, IoOutcome};
use vstd::prelude::*;

verus! {

/// What a directional task asks its caller to do.
#[derive(Clone, Copy, Debug, PartialEq, Eq, Structural)]
pub enum TaskAction {
    /// Read from the source into [`DirectionalTask::incoming`].
    Read,
    /// Write the bytes of [`DirectionalTask::outgoing`] to the destination.
    Write,
    /// Shut down the write half of the destination.
    Shutdown,
    /// Nothing more: the task has ended.
    Stop,
}

/// What a [`DirectionalTask`] is, mathematically.
#[verifier::ext_equal]
pub struct TaskView {
    /// Bytes read from the source and not yet written to the destination.
    pub buffer: BufferView,
    /// How far the direction has come.
    pub state: DirectionState,
}

impl TaskView {
    /// A task at the start of a connection.
    pub open spec fn fresh() -> TaskView {
        TaskView { buffer: BufferView::fresh(), state: DirectionState::Open }
    }

    /// The buffer is well formed, and a direction whose source has ended
    /// its data holds nothing that is still to be written.
    pub open spec fn wf(self) -> bool {
        &&& self.buffer.wf()
        &&& self.state is FinReceived || self.state is Shut ==> self.buffer.unsent().len() == 0
    }

    /// The task has ended, cleanly or not.
    pub open spec fn terminated(self) -> bool {
        self.state is Shut || self.state is Aborted
    }

    /// What is to be done next. An open direction writes what it holds and
    /// reads only when it holds nothing; a direction whose source has ended
    /// its data tells the destination; a direction that has ended stops.
    pub open spec fn plan(self) -> TaskAction {
        match self.state {
            DirectionState::Open => if self.buffer.unsent().len() > 0 {
                TaskAction::Write
            } else {
                TaskAction::Read
            },
            DirectionState::FinReceived => TaskAction::Shutdown,
            DirectionState::Shut => TaskAction::Stop,
            DirectionState::Aborted => TaskAction::Stop,
        }
    }

    /// The task in another state.
    pub open spec fn moved_to(self, state: DirectionState) -> TaskView {
        TaskView { state, ..self }
    }

    /// The task after a read from the source ended in `outcome`. A read of
    /// no bytes is the end of the source's data; bytes that were read count
    /// as received; a read that could not proceed changes nothing; a
    /// failure aborts the task.
    pub open spec fn after_read(self, outcome: IoOutcome) -> TaskView {
        match outcome {
            IoOutcome::Done(n) => if n == 0 {
                self.moved_to(DirectionState::FinReceived)
            } else {
                TaskView { buffer: self.buffer.grown(n as nat), ..self }
            },
            IoOutcome::WouldBlock => self,
            IoOutcome::Interrupted => self,
            IoOutcome::Failed => self.moved_to(DirectionState::Aborted),
        }
    }

    /// The task after a write to the destination ended in `outcome`. Bytes
    /// that were written are advanced past; a write that could not proceed
    /// changes nothing; a failure aborts the task.
    pub open spec fn after_write(self, outcome: IoOutcome) -> TaskView {
        match outcome {
            IoOutcome::Done(n) => TaskView { buffer: self.buffer.advanced(n as nat), ..self },
            IoOutcome::WouldBlock => self,
            IoOutcome::Interrupted => self,
            IoOutcome::Failed => self.moved_to(DirectionState::Aborted),
        }
    }

    /// The task after the connection failed elsewhere. A direction that
    /// has ended cleanly stays so; any other is aborted.
    pub open spec fn aborted(self) -> TaskView {
        if self.state is Shut {
            self
        } else {
            self.moved_to(DirectionState::Aborted)
        }
    }
}

/// The state of one direction of a proxied connection.
pub struct DirectionalTask {
    buffer: ProxyBuffer,
    state: DirectionState,
}

impl View for DirectionalTask {
    type V = TaskView;

    closed spec fn view(&self) -> TaskView {
        TaskView { buffer: self.buffer@, state: self.state }
    }
}

impl DirectionalTask {
    /// The task of a direction that was just opened, with nothing
    /// buffered.
    pub fn new() -> (t: DirectionalTask)
        ensures
            t@ == TaskView::fresh(),
            t@.wf(),
    {
        DirectionalTask { buffer: ProxyBuffer::new(), state: DirectionState::Open }
    }

    /// How far the direction has come.
    pub fn state(&self) -> (s: DirectionState)
        ensures
            s == self@.state,
    {
        self.state
    }

    /// Whether the task has ended, cleanly or not.
    pub fn is_terminated(&self) -> (r: bool)
        ensures
            r == self@.terminated(),
    {
        match self.state {
            DirectionState::Shut => true,
            DirectionState::Aborted => true,
            _ => false,
        }
    }

    /// Says what is to be done next.
    pub fn next_action(&self) -> (a: TaskAction)
        requires
            self@.wf(),
        ensures
            a == self@.plan(),
    {
        match self.state {
            DirectionState::Open => {
                if self.buffer.is_empty() {
                    TaskAction::Read
                } else {
                    TaskAction::Write
                }
            },
            DirectionState::FinReceived => TaskAction::Shutdown,
            DirectionState::Shut => TaskAction::Stop,
            DirectionState::Aborted => TaskAction::Stop,
        }
    }

    /// The bytes that wait to be written to the destination.
    pub fn outgoing(&mut self) -> (s: &[u8])
        requires
            old(self)@.wf(),
        ensures
            s@ == old(self)@.buffer.unsent(),
            final(self)@ == old(self)@,
    {
        let pending = self.buffer.get_unsent();
        proof {
            assert(old(self)@.buffer.rewritten(pending@) =~= old(self)@.buffer);
        }
        &*pending
    }

    /// The room for what is read from the source.
    pub fn incoming(&mut self) -> (s: &mut [u8])
        requires
            old(self)@.wf(),
        ensures
            s@ == old(self)@.buffer.available(),
            final(s)@.len() == s@.len(),
            final(self)@ =~= (TaskView {
                buffer: old(self)@.buffer.stored(final(s)@),
                ..old(self)@
            }),
    {
        self.buffer.get_available()
    }

    /// Takes note of what came of reading from the source into
    /// [`DirectionalTask::incoming`].
    pub fn complete_read(&mut self, outcome: IoOutcome)
        requires
            old(self)@.wf(),
            old(self)@.plan() == TaskAction::Read,
            outcome matches IoOutcome::Done(n) ==> n <= old(self)@.buffer.available().len(),
        ensures
            final(self)@ == old(self)@.after_read(outcome),
            final(self)@.wf(),
    {
        match outcome {
            IoOutcome::Done(n) => {
                if n == 0 {
                    self.state = DirectionState::FinReceived;
                } else {
                    self.buffer.advance_data_len(n);
                }
            },
            IoOutcome::WouldBlock => {},
            IoOutcome::Interrupted => {},
            IoOutcome::Failed => {
                self.state = DirectionState::Aborted;
            },
        }
    }

    /// Takes note of what came of writing [`DirectionalTask::outgoing`] to
    /// the destination.
    pub fn complete_write(&mut self, outcome: IoOutcome)
        requires
            old(self)@.wf(),
            old(self)@.plan() == TaskAction::Write,
            outcome matches IoOutcome::Done(n) ==> n <= old(self)@.buffer.unsent().len(),
        ensures
            final(self)@ == old(self)@.after_write(outcome),
            final(self)@.wf(),
    {
        match outcome {
            IoOutcome::Done(n) => {
                self.buffer.advance_offset(n);
            },
            IoOutcome::WouldBlock => {},
            IoOutcome::Interrupted => {},
            IoOutcome::Failed => {
                self.state = DirectionState::Aborted;
            },
        }
    }

    /// Takes note that the write half of the destination was shut down.
    pub fn complete_shutdown(&mut self)
        requires
            old(self)@.wf(),
            old(self)@.plan() == TaskAction::Shutdown,
        ensures
            final(self)@ == old(self)@.moved_to(DirectionState::Shut),
            final(self)@.wf(),
    {
        self.state = DirectionState::Shut;
    }

    /// Takes note that the connection failed elsewhere.
    pub fn abort(&mut self)
        requires
            old(self)@.wf(),
        ensures
            final(self)@ == old(self)@.aborted(),
            final(self)@.wf(),
            final(self)@.terminated(),
    {
        match self.state {
            DirectionState::Shut => {},
            _ => {
                self.state = DirectionState::Aborted;
            },
        }
    }
}

/// Whether a connection is over: both of its directions have ended.
pub fn connection_over(forth: &DirectionalTask, back: &DirectionalTask) -> (r: bool)
    ensures
        r == (forth@.terminated() && back@.terminated()),
{
    forth.is_terminated() && back.is_terminated()
}

/// A task writes all it has read before it reads again, and reads into an
/// empty buffer: whenever a read is asked for, nothing is waiting and the
/// whole capacity is free.
pub proof fn lemma_reads_only_when_drained(t: TaskView)
    requires
        t.wf(),
        t.plan() == TaskAction::Read,
    ensures
        t.buffer.unsent().len() == 0,
        t.buffer.sent == 0,
        t.buffer.filled == 0,
        t.buffer.available() == t.buffer.storage,
{
    assert(t.buffer.available() =~= t.buffer.storage);
}

/// The end of the source's data ends the task by way of the destination.
/// After a read of no bytes the task asks for the destination's write half
/// to be shut down, with nothing left to be written; once that is done it
/// has ended cleanly and asks for nothing more.
pub proof fn lemma_task_half_close(t: TaskView)
    requires
        t.wf(),
        t.plan() == TaskAction::Read,
    ensures
        ({
            let fin = t.after_read(IoOutcome::Done(0));
            let shut = fin.moved_to(DirectionState::Shut);
            &&& fin.wf()
            &&& fin.state == DirectionState::FinReceived
            &&& !fin.terminated()
            &&& fin.plan() == TaskAction::Shutdown
            &&& fin.buffer == t.buffer
            &&& shut.wf()
            &&& shut.terminated()
            &&& shut.plan() == TaskAction::Stop
        }),
{
}

} // verus!
