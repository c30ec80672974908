//! The duplex relay of one proxied connection, as a machine that decides
//! and never touches a socket.
//!
//! A connection has two sockets, the client's and the server's, and two
//! directions of flow. Each direction has a [`ProxyBuffer`] between its
//! source and its destination. The [`Relay`] says what is to be done next
//! ([`Relay::next_action`]); its caller does it and reports what came of it
//! ([`Relay::complete_write`], [`Relay::complete_read`],
//! [`Relay::complete_shutdown`]). In each round the relay first tries to
//! drain both buffers and then to read from both sockets, so that a stalled
//! source never holds back bytes that are ready to leave.

use crate::buffer::{BufferView, ProxyBuffer, BUFFER_SIZE};
use vstd::prelude::*;

verus! {

/// Which halves of one socket are still in use.
pub struct ConnectionHalf {
    /// The peer has not yet signalled the end of its data.
    pub read_open: bool,
    /// The end of data has not yet been signalled to the peer.
    pub write_open: bool,
}

impl ConnectionHalf {
    /// A socket with both halves in use.
    pub fn new() -> (h: ConnectionHalf)
        ensures
            h.read_open,
            h.write_open,
    {
        ConnectionHalf { read_open: true, write_open: true }
    }
}

/// One of the two sockets of a proxied connection.
#[derive(Clone, Copy, Debug, PartialEq, Eq, Structural)]
pub enum Side {
    Client,
    Server,
}

impl Side {
    /// The socket at the other end of the relay.
    pub open spec fn peer(self) -> Side {
        match self {
            Side::Client => Side::Server,
            Side::Server => Side::Client,
        }
    }
}

/// What came of one read or write on a socket.
#[derive(Clone, Copy, Debug, PartialEq, Eq, Structural)]
pub enum IoOutcome {
    /// This many bytes were transferred.
    Done(usize),
    /// Nothing could be transferred right now.
    WouldBlock,
    /// The call was interrupted before anything was transferred.
    Interrupted,
    /// The socket failed.
    Failed,
}

/// What the relay asks its caller to do.
#[derive(Clone, Copy, Debug, PartialEq, Eq, Structural)]
pub enum Action {
    /// Write the bytes of [`Relay::outgoing`] to this socket.
    Write(Side),
    /// Shut down the write half of this socket.
    Shutdown(Side),
    /// Read from this socket into [`Relay::incoming`].
    Read(Side),
    /// Close both sockets: the connection is over.
    Close,
}

/// The four parts of a round, in the order in which they are gone through.
#[derive(Clone, Copy, Debug, PartialEq, Eq, Structural)]
pub enum Phase {
    FlushToServer,
    FlushToClient,
    ReadClient,
    ReadServer,
}

impl Phase {
    /// The part of the round that looks at the write half of socket `to`.
    pub open spec fn flush(to: Side) -> Phase {
        match to {
            Side::Client => Phase::FlushToClient,
            Side::Server => Phase::FlushToServer,
        }
    }

    /// The part of the round that follows this one.
    pub open spec fn following(self) -> Phase {
        match self {
            Phase::FlushToServer => Phase::FlushToClient,
            Phase::FlushToClient => Phase::ReadClient,
            Phase::ReadClient => Phase::ReadServer,
            Phase::ReadServer => Phase::FlushToServer,
        }
    }
}

/// How far one direction of flow has come.
#[derive(Clone, Copy, Debug, PartialEq, Eq, Structural)]
pub enum DirectionState {
    /// The source may still send data.
    Open,
    /// The source has signalled the end of its data; the destination has
    /// not been told yet.
    FinReceived,
    /// The destination has been told: this direction has ended cleanly.
    Shut,
    /// The connection failed.
    Aborted,
}

/// An action together with the part of the round that comes after it.
pub struct Step {
    pub action: Action,
    pub phase: Phase,
}

/// What a [`Relay`] is, mathematically.
#[verifier::ext_equal]
pub struct RelayView {
    /// Bytes read from the client and not yet written to the server.
    pub cli_buffer: BufferView,
    /// Bytes read from the server and not yet written to the client.
    pub serv_buffer: BufferView,
    pub cli_half: ConnectionHalf,
    pub serv_half: ConnectionHalf,
    /// A socket has failed.
    pub broken: bool,
    /// The part of the round that is looked at next.
    pub phase: Phase,
}

impl RelayView {
    /// A relay at the start of a connection.
    pub open spec fn fresh() -> RelayView {
        RelayView {
            cli_buffer: BufferView::fresh(),
            serv_buffer: BufferView::fresh(),
            cli_half: ConnectionHalf { read_open: true, write_open: true },
            serv_half: ConnectionHalf { read_open: true, write_open: true },
            broken: false,
            phase: Phase::FlushToServer,
        }
    }

    /// The buffer that holds what was read from `from`.
    pub open spec fn inbound(self, from: Side) -> BufferView {
        match from {
            Side::Client => self.cli_buffer,
            Side::Server => self.serv_buffer,
        }
    }

    /// The halves of socket `side`.
    pub open spec fn half(self, side: Side) -> ConnectionHalf {
        match side {
            Side::Client => self.cli_half,
            Side::Server => self.serv_half,
        }
    }

    /// The relay with `buffer` in place of the buffer that holds what was
    /// read from `from`.
    pub open spec fn with_inbound(self, from: Side, buffer: BufferView) -> RelayView {
        match from {
            Side::Client => RelayView { cli_buffer: buffer, ..self },
            Side::Server => RelayView { serv_buffer: buffer, ..self },
        }
    }

    /// The relay with `half` in place of the halves of socket `side`.
    pub open spec fn with_half(self, side: Side, half: ConnectionHalf) -> RelayView {
        match side {
            Side::Client => RelayView { cli_half: half, ..self },
            Side::Server => RelayView { serv_half: half, ..self },
        }
    }

    /// The relay about to look at `phase`.
    pub open spec fn at(self, phase: Phase) -> RelayView {
        RelayView { phase, ..self }
    }

    /// The relay after a socket failed.
    pub open spec fn aborted(self) -> RelayView {
        RelayView { broken: true, ..self }
    }

    /// The direction that starts at `from` is in order: its buffer is well
    /// formed, and once its destination was told of the end of data, the
    /// source is closed for reading and nothing is left to be written.
    pub open spec fn direction_wf(self, from: Side) -> bool {
        &&& self.inbound(from).wf()
        &&& !self.half(from.peer()).write_open ==> {
            &&& !self.half(from).read_open
            &&& self.inbound(from).unsent().len() == 0
        }
    }

    /// Both directions are in order.
    pub open spec fn wf(self) -> bool {
        &&& self.direction_wf(Side::Client)
        &&& self.direction_wf(Side::Server)
    }

    /// How far the direction that starts at `from` has come.
    pub open spec fn direction(self, from: Side) -> DirectionState {
        if self.broken {
            DirectionState::Aborted
        } else if self.half(from).read_open {
            DirectionState::Open
        } else if self.half(from.peer()).write_open {
            DirectionState::FinReceived
        } else {
            DirectionState::Shut
        }
    }

    /// The connection is over: each direction has ended, cleanly or not.
    pub open spec fn finished(self) -> bool {
        &&& self.direction(Side::Client) is Shut || self.direction(Side::Client) is Aborted
        &&& self.direction(Side::Server) is Shut || self.direction(Side::Server) is Aborted
    }

    /// What there is to do on the write half of socket `to`: write where
    /// bytes are waiting for it; tell it of the end of data where none are
    /// waiting and none can come any more; nothing otherwise, and nothing
    /// once it has been told.
    pub open spec fn flush_due(self, to: Side) -> Option<Action> {
        if !self.half(to).write_open {
            None
        } else if self.inbound(to.peer()).unsent().len() > 0 {
            Some(Action::Write(to))
        } else if !self.half(to.peer()).read_open {
            Some(Action::Shutdown(to))
        } else {
            None
        }
    }

    /// What there is to do on the read half of socket `from`: read, as long
    /// as the socket has not signalled the end of its data and its buffer
    /// has room.
    pub open spec fn read_due(self, from: Side) -> Option<Action> {
        if self.half(from).read_open && self.inbound(from).filled < BUFFER_SIZE {
            Some(Action::Read(from))
        } else {
            None
        }
    }

    /// What there is to do in `phase`.
    pub open spec fn due(self, phase: Phase) -> Option<Action> {
        match phase {
            Phase::FlushToServer => self.flush_due(Side::Server),
            Phase::FlushToClient => self.flush_due(Side::Client),
            Phase::ReadClient => self.read_due(Side::Client),
            Phase::ReadServer => self.read_due(Side::Server),
        }
    }

    /// The first thing to do among the next `turns` parts of the round,
    /// starting at `phase`; `Close` where there is none.
    pub open spec fn scan(self, phase: Phase, turns: nat) -> Step
        decreases turns,
    {
        if turns == 0 {
            Step { action: Action::Close, phase }
        } else {
            match self.due(phase) {
                Some(action) => Step { action, phase: phase.following() },
                None => self.scan(phase.following(), (turns - 1) as nat),
            }
        }
    }

    /// What is to be done next. A connection that failed or is over is
    /// closed. Otherwise the parts of the round are gone through from where
    /// the relay stands, and the first that has something to do decides.
    pub open spec fn plan(self) -> Step {
        if self.broken || self.finished() {
            Step { action: Action::Close, phase: self.phase }
        } else {
            self.scan(self.phase, 4)
        }
    }

    /// Whether `action` is due: the sockets and buffers are in the state in
    /// which the relay asks for it.
    pub open spec fn asks_for(self, action: Action) -> bool {
        match action {
            Action::Write(to) => self.flush_due(to) == Some(action),
            Action::Shutdown(to) => self.flush_due(to) == Some(action),
            Action::Read(from) => self.read_due(from) == Some(action),
            Action::Close => self.broken || self.finished(),
        }
    }

    /// The relay after a write to socket `to` ended in `outcome`. Bytes
    /// that were written are advanced past; a write that could not proceed
    /// changes nothing; a failure breaks the connection.
    pub open spec fn after_write(self, to: Side, outcome: IoOutcome) -> RelayView {
        match outcome {
            IoOutcome::Done(n) => self.with_inbound(
                to.peer(),
                self.inbound(to.peer()).advanced(n as nat),
            ),
            IoOutcome::WouldBlock => self,
            IoOutcome::Interrupted => self,
            IoOutcome::Failed => self.aborted(),
        }
    }

    /// The relay after a read from socket `from` ended in `outcome`. A read
    /// of no bytes is the end of the socket's data; bytes that were read
    /// count as received; a read that could not proceed changes nothing; a
    /// failure breaks the connection.
    pub open spec fn after_read(self, from: Side, outcome: IoOutcome) -> RelayView {
        match outcome {
            IoOutcome::Done(n) => if n == 0 {
                self.with_half(
                    from,
                    ConnectionHalf { read_open: false, write_open: self.half(from).write_open },
                )
            } else {
                self.with_inbound(from, self.inbound(from).grown(n as nat))
            },
            IoOutcome::WouldBlock => self,
            IoOutcome::Interrupted => self,
            IoOutcome::Failed => self.aborted(),
        }
    }

    /// The relay after the write half of socket `to` was shut down.
    pub open spec fn after_shutdown(self, to: Side) -> RelayView {
        self.with_half(
            to,
            ConnectionHalf { read_open: self.half(to).read_open, write_open: false },
        )
    }
}

/// The state of one proxied connection between a client and a server.
pub struct Relay {
    cli_buffer: ProxyBuffer,
    serv_buffer: ProxyBuffer,
    cli_half: ConnectionHalf,
    serv_half: ConnectionHalf,
    connection_broken: bool,
    phase: Phase,
}

impl View for Relay {
    type V = RelayView;

    closed spec fn view(&self) -> RelayView {
        RelayView {
            cli_buffer: self.cli_buffer@,
            serv_buffer: self.serv_buffer@,
            cli_half: self.cli_half,
            serv_half: self.serv_half,
            broken: self.connection_broken,
            phase: self.phase,
        }
    }
}

/// A scan that finds something to do finds something that is due.
pub proof fn lemma_scan_finds_due(v: RelayView, phase: Phase, turns: nat)
    ensures
        !(v.scan(phase, turns).action is Close) ==> v.asks_for(v.scan(phase, turns).action),
    decreases turns,
{
    if turns > 0 {
        lemma_scan_finds_due(v, phase.following(), (turns - 1) as nat);
    }
}

/// A relay in order is never idle: as long as the connection has neither
/// failed nor ended, one of the four parts of the round has something to
/// do. So the relay asks for the sockets to be closed exactly when the
/// connection has failed or each direction has ended, and whatever else it
/// asks for is due.
pub proof fn lemma_never_idle(v: RelayView)
    requires
        v.wf(),
    ensures
        v.plan().action is Close <==> v.broken || v.finished(),
        v.asks_for(v.plan().action),
{
    lemma_scan_finds_due(v, v.phase, 4);
    if !v.broken && !v.finished() {
        let first = v.phase;
        let second = first.following();
        let third = second.following();
        let fourth = third.following();
        assert(v.scan(fourth, 1) == match v.due(fourth) {
            Some(action) => Step { action, phase: fourth.following() },
            None => v.scan(fourth.following(), 0),
        });
        assert(v.scan(third, 2) == match v.due(third) {
            Some(action) => Step { action, phase: fourth },
            None => v.scan(fourth, 1),
        });
        assert(v.scan(second, 3) == match v.due(second) {
            Some(action) => Step { action, phase: third },
            None => v.scan(third, 2),
        });
        assert(v.scan(first, 4) == match v.due(first) {
            Some(action) => Step { action, phase: second },
            None => v.scan(second, 3),
        });
        if v.due(first).is_none() && v.due(second).is_none() && v.due(third).is_none() && v.due(
            fourth,
        ).is_none() {
            assert(v.due(Phase::FlushToServer).is_none());
            assert(v.due(Phase::FlushToClient).is_none());
            assert(v.due(Phase::ReadClient).is_none());
            assert(v.due(Phase::ReadServer).is_none());
            assert(v.direction_wf(Side::Client));
            assert(v.direction_wf(Side::Server));
            assert(false);
        }
    }
}

/// The end of one side's data is passed on, and nothing else is touched.
///
/// When a read from socket `from` yields no bytes, the direction that
/// starts there takes no more data in. What its buffer still holds is
/// written out first; once the buffer is empty, the next thing to do on the
/// other socket's write half is to shut it down, which ends the direction
/// cleanly. Until then the connection does not count as over. The opposite
/// direction is as it was: its buffer, its state and what is due on it are
/// unchanged.
pub proof fn lemma_half_close_propagates(v: RelayView, from: Side)
    requires
        v.wf(),
        !v.broken,
        v.read_due(from) == Some(Action::Read(from)),
    ensures
        ({
            let w = v.after_read(from, IoOutcome::Done(0));
            let to = from.peer();
            &&& w.wf()
            &&& w.direction(from) == DirectionState::FinReceived
            &&& w.read_due(from).is_none()
            &&& !w.finished()
            &&& w.inbound(from) == v.inbound(from)
            &&& w.flush_due(to) == Some(
                if w.inbound(from).unsent().len() > 0 {
                    Action::Write(to)
                } else {
                    Action::Shutdown(to)
                },
            )
            &&& w.at(Phase::flush(to)).plan().action == w.flush_due(to).unwrap()
            &&& w.inbound(from).unsent().len() == 0 ==> {
                &&& w.after_shutdown(to).wf()
                &&& w.after_shutdown(to).direction(from) == DirectionState::Shut
                &&& w.after_shutdown(to).direction(to) == v.direction(to)
            }
            &&& w.direction(to) == v.direction(to)
            &&& w.inbound(to) == v.inbound(to)
            &&& w.read_due(to) == v.read_due(to)
            &&& w.flush_due(from) == v.flush_due(from)
        }),
{
    let w = v.after_read(from, IoOutcome::Done(0));
    let to = from.peer();
    assert(v.direction_wf(from));
    assert(v.direction_wf(to));
    let x = w.at(Phase::flush(to));
    assert(x.due(Phase::flush(to)) == w.flush_due(to));
    assert(x.scan(Phase::flush(to), 4) == Step {
        action: w.flush_due(to).unwrap(),
        phase: Phase::flush(to).following(),
    });
}

impl Relay {
    /// The relay of a connection that was just established: both sockets
    /// fully open, nothing buffered, at the start of a round.
    pub fn new() -> (r: Relay)
        ensures
            r@ == RelayView::fresh(),
            r@.wf(),
    {
        Relay {
            cli_buffer: ProxyBuffer::new(),
            serv_buffer: ProxyBuffer::new(),
            cli_half: ConnectionHalf::new(),
            serv_half: ConnectionHalf::new(),
            connection_broken: false,
            phase: Phase::FlushToServer,
        }
    }

    /// How far the direction that starts at `from` has come.
    pub fn direction(&self, from: Side) -> (d: DirectionState)
        ensures
            d == self@.direction(from),
    {
        let (read_open, write_open) = match from {
            Side::Client => (self.cli_half.read_open, self.serv_half.write_open),
            Side::Server => (self.serv_half.read_open, self.cli_half.write_open),
        };
        if self.connection_broken {
            DirectionState::Aborted
        } else if read_open {
            DirectionState::Open
        } else if write_open {
            DirectionState::FinReceived
        } else {
            DirectionState::Shut
        }
    }

    /// Whether the connection is over: each direction has ended, cleanly
    /// or not.
    pub fn is_finished(&self) -> (r: bool)
        ensures
            r == self@.finished(),
    {
        self.connection_broken || (!self.cli_half.read_open && !self.serv_half.write_open
            && !self.serv_half.read_open && !self.cli_half.write_open)
    }

    /// What there is to do in `phase`.
    fn due(&self, phase: Phase) -> (r: Option<Action>)
        requires
            self@.wf(),
        ensures
            r == self@.due(phase),
    {
        match phase {
            Phase::FlushToServer => {
                if !self.serv_half.write_open {
                    None
                } else if !self.cli_buffer.is_empty() {
                    Some(Action::Write(Side::Server))
                } else if !self.cli_half.read_open {
                    Some(Action::Shutdown(Side::Server))
                } else {
                    None
                }
            },
            Phase::FlushToClient => {
                if !self.cli_half.write_open {
                    None
                } else if !self.serv_buffer.is_empty() {
                    Some(Action::Write(Side::Client))
                } else if !self.serv_half.read_open {
                    Some(Action::Shutdown(Side::Client))
                } else {
                    None
                }
            },
            Phase::ReadClient => {
                if self.cli_half.read_open && !self.cli_buffer.is_full() {
                    Some(Action::Read(Side::Client))
                } else {
                    None
                }
            },
            Phase::ReadServer => {
                if self.serv_half.read_open && !self.serv_buffer.is_full() {
                    Some(Action::Read(Side::Server))
                } else {
                    None
                }
            },
        }
    }

    /// Says what is to be done next, and moves on in the round past the
    /// part that asked for it.
    pub fn next_action(&mut self) -> (a: Action)
        requires
            old(self)@.wf(),
        ensures
            a == old(self)@.plan().action,
            final(self)@ == old(self)@.at(old(self)@.plan().phase),
            final(self)@.wf(),
            final(self)@.asks_for(a),
            a is Close <==> old(self)@.broken || old(self)@.finished(),
    {
        if self.connection_broken || self.is_finished() {
            return Action::Close;
        }
        let mut turns: u8 = 4;
        while turns > 0
            invariant
                self@ == old(self)@.at(self@.phase),
                self@.wf(),
                !old(self)@.broken,
                !old(self)@.finished(),
                old(self)@.scan(old(self)@.phase, 4) == old(self)@.scan(self@.phase, turns as nat),
            decreases turns,
        {
            let here = self.phase;
            self.phase = match here {
                Phase::FlushToServer => Phase::FlushToClient,
                Phase::FlushToClient => Phase::ReadClient,
                Phase::ReadClient => Phase::ReadServer,
                Phase::ReadServer => Phase::FlushToServer,
            };
            let found = self.due(here);
            proof {
                assert(found == old(self)@.due(here));
                assert(self@.phase == here.following());
                lemma_never_idle(old(self)@);
            }
            match found {
                Some(action) => {
                    return action;
                },
                None => {},
            }
            turns -= 1;
        }
        proof {
            lemma_never_idle(old(self)@);
        }
        Action::Close
    }

    /// The bytes that wait to be written to socket `to`.
    pub fn outgoing(&mut self, to: Side) -> (s: &[u8])
        requires
            old(self)@.wf(),
        ensures
            s@ == old(self)@.inbound(to.peer()).unsent(),
            final(self)@ == old(self)@,
    {
        let pending = match to {
            Side::Server => self.cli_buffer.get_unsent(),
            Side::Client => self.serv_buffer.get_unsent(),
        };
        proof {
            let buffer = old(self)@.inbound(to.peer());
            assert(buffer.rewritten(pending@) =~= buffer);
        }
        &*pending
    }

    /// The room for what is read from socket `from`.
    pub fn incoming(&mut self, from: Side) -> (s: &mut [u8])
        requires
            old(self)@.wf(),
        ensures
            s@ == old(self)@.inbound(from).available(),
            final(s)@.len() == s@.len(),
            final(self)@ =~= old(self)@.with_inbound(
                from,
                old(self)@.inbound(from).stored(final(s)@),
            ),
    {
        match from {
            Side::Client => self.cli_buffer.get_available(),
            Side::Server => self.serv_buffer.get_available(),
        }
    }

    /// Takes note of what came of writing [`Relay::outgoing`] to socket
    /// `to`.
    pub fn complete_write(&mut self, to: Side, outcome: IoOutcome)
        requires
            old(self)@.wf(),
            old(self)@.flush_due(to) == Some(Action::Write(to)),
            outcome matches IoOutcome::Done(n) ==> n <= old(self)@.inbound(to.peer()).unsent().len(),
        ensures
            final(self)@ == old(self)@.after_write(to, outcome),
            final(self)@.wf(),
    {
        match outcome {
            IoOutcome::Done(n) => {
                match to {
                    Side::Server => self.cli_buffer.advance_offset(n),
                    Side::Client => self.serv_buffer.advance_offset(n),
                }
            },
            IoOutcome::WouldBlock => {},
            IoOutcome::Interrupted => {},
            IoOutcome::Failed => {
                self.connection_broken = true;
            },
        }
    }

    /// Takes note that the write half of socket `to` was shut down.
    pub fn complete_shutdown(&mut self, to: Side)
        requires
            old(self)@.wf(),
            old(self)@.flush_due(to) == Some(Action::Shutdown(to)),
        ensures
            final(self)@ == old(self)@.after_shutdown(to),
            final(self)@.wf(),
    {
        match to {
            Side::Server => {
                self.serv_half.write_open = false;
            },
            Side::Client => {
                self.cli_half.write_open = false;
            },
        }
    }

    /// Takes note of what came of reading from socket `from` into
    /// [`Relay::incoming`].
    pub fn complete_read(&mut self, from: Side, outcome: IoOutcome)
        requires
            old(self)@.wf(),
            old(self)@.read_due(from) == Some(Action::Read(from)),
            outcome matches IoOutcome::Done(n) ==> n <= old(self)@.inbound(from).available().len(),
        ensures
            final(self)@ == old(self)@.after_read(from, outcome),
            final(self)@.wf(),
    {
        match outcome {
            IoOutcome::Done(n) => {
                if n == 0 {
                    match from {
                        Side::Client => {
                            self.cli_half.read_open = false;
                        },
                        Side::Server => {
                            self.serv_half.read_open = false;
                        },
                    }
                } else {
                    match from {
                        Side::Client => self.cli_buffer.advance_data_len(n),
                        Side::Server => self.serv_buffer.advance_data_len(n),
                    }
                }
            },
            IoOutcome::WouldBlock => {},
            IoOutcome::Interrupted => {},
            IoOutcome::Failed => {
                self.connection_broken = true;
            },
        }
    }
}

/// One thing that happens to a relay.
pub enum RelayEvent {
    /// The room for what is read from this socket was overwritten with
    /// these bytes, as a read into [`Relay::incoming`] does.
    Filled(Side, Seq<u8>),
    /// A read from this socket ended so.
    Read(Side, IoOutcome),
    /// A write to this socket ended so.
    Written(Side, IoOutcome),
    /// The write half of this socket was shut down.
    ShutDown(Side),
}

impl RelayView {
    /// Whether `event` may happen: it answers an action that is due, and
    /// transfers no more bytes than there is room or data for.
    #[verifier::opaque]
    pub open spec fn admits(self, event: RelayEvent) -> bool {
        match event {
            RelayEvent::Filled(from, tail) => tail.len() == self.inbound(from).available().len(),
            RelayEvent::Read(from, outcome) => {
                &&& self.read_due(from) == Some(Action::Read(from))
                &&& outcome matches IoOutcome::Done(n) ==> n <= self.inbound(
                    from,
                ).available().len()
            },
            RelayEvent::Written(to, outcome) => {
                &&& self.flush_due(to) == Some(Action::Write(to))
                &&& outcome matches IoOutcome::Done(n) ==> n <= self.inbound(
                    to.peer(),
                ).unsent().len()
            },
            RelayEvent::ShutDown(to) => self.flush_due(to) == Some(Action::Shutdown(to)),
        }
    }

    /// The relay after `event`.
    #[verifier::opaque]
    pub open spec fn after(self, event: RelayEvent) -> RelayView {
        match event {
            RelayEvent::Filled(from, tail) => self.with_inbound(
                from,
                self.inbound(from).stored(tail),
            ),
            RelayEvent::Read(from, outcome) => self.after_read(from, outcome),
            RelayEvent::Written(to, outcome) => self.after_write(to, outcome),
            RelayEvent::ShutDown(to) => self.after_shutdown(to),
        }
    }

    /// The relay after all of `events`, first to last.
    pub open spec fn after_all(self, events: Seq<RelayEvent>) -> RelayView
        decreases events.len(),
    {
        if events.len() == 0 {
            self
        } else {
            self.after_all(events.drop_last()).after(events.last())
        }
    }

    /// Whether each of `events` may happen in its turn.
    pub open spec fn admits_all(self, events: Seq<RelayEvent>) -> bool
        decreases events.len(),
    {
        events.len() == 0 || (self.admits_all(events.drop_last()) && self.after_all(
            events.drop_last(),
        ).admits(events.last()))
    }

    /// The bytes that `event` takes in from socket `from`.
    #[verifier::opaque]
    pub open spec fn takes_in(self, event: RelayEvent, from: Side) -> Seq<u8> {
        match event {
            RelayEvent::Read(side, IoOutcome::Done(n)) if side == from => self.inbound(
                from,
            ).available().take(n as int),
            _ => Seq::empty(),
        }
    }

    /// The bytes that `event` hands to socket `to`.
    #[verifier::opaque]
    pub open spec fn hands_out(self, event: RelayEvent, to: Side) -> Seq<u8> {
        match event {
            RelayEvent::Written(side, IoOutcome::Done(n)) if side == to => self.inbound(
                to.peer(),
            ).unsent().take(n as int),
            _ => Seq::empty(),
        }
    }

    /// All bytes that `events` take in from socket `from`, in order.
    pub open spec fn taken_in(self, events: Seq<RelayEvent>, from: Side) -> Seq<u8>
        decreases events.len(),
    {
        if events.len() == 0 {
            Seq::empty()
        } else {
            self.taken_in(events.drop_last(), from) + self.after_all(events.drop_last()).takes_in(
                events.last(),
                from,
            )
        }
    }

    /// All bytes that `events` hand to socket `to`, in order.
    pub open spec fn handed_out(self, events: Seq<RelayEvent>, to: Side) -> Seq<u8>
        decreases events.len(),
    {
        if events.len() == 0 {
            Seq::empty()
        } else {
            self.handed_out(events.drop_last(), to) + self.after_all(
                events.drop_last(),
            ).hands_out(events.last(), to)
        }
    }
}

/// Every event that may happen leaves the relay in order.
#[verifier::rlimit(30)]
pub proof fn lemma_event_keeps_wf(v: RelayView, event: RelayEvent)
    requires
        v.wf(),
        v.admits(event),
    ensures
        v.after(event).wf(),
{
    reveal(RelayView::admits);
    reveal(RelayView::after);
    assert(v.direction_wf(Side::Client));
    assert(v.direction_wf(Side::Server));
    let w = v.after(event);
    match event {
        RelayEvent::Filled(from, tail) => {
            assert(v.inbound(from).stored(tail).unsent() =~= v.inbound(from).unsent());
            assert(w.direction_wf(Side::Client));
            assert(w.direction_wf(Side::Server));
        },
        RelayEvent::Read(from, outcome) => {
            assert(w.direction_wf(Side::Client));
            assert(w.direction_wf(Side::Server));
        },
        RelayEvent::Written(to, outcome) => {
            assert(w.direction_wf(Side::Client));
            assert(w.direction_wf(Side::Server));
        },
        RelayEvent::ShutDown(to) => {
            assert(w.direction_wf(Side::Client));
            assert(w.direction_wf(Side::Server));
        },
    }
}

/// One event moves bytes faithfully: what it hands to the destination of a
/// direction, followed by what waits in the direction afterwards, is what
/// waited there before, followed by what it takes in from the source.
#[verifier::rlimit(30)]
pub proof fn lemma_event_moves_bytes(v: RelayView, event: RelayEvent, from: Side)
    requires
        v.wf(),
        v.admits(event),
    ensures
        v.hands_out(event, from.peer()) + v.after(event).inbound(from).unsent() == v.inbound(
            from,
        ).unsent() + v.takes_in(event, from),
{
    reveal(RelayView::admits);
    reveal(RelayView::after);
    reveal(RelayView::takes_in);
    reveal(RelayView::hands_out);
    let before = v.inbound(from).unsent();
    let now = v.after(event).inbound(from).unsent();
    let nothing = Seq::<u8>::empty();
    assert(v.direction_wf(from));
    match event {
        RelayEvent::Filled(side, tail) => {
            assert(v.inbound(side).stored(tail).unsent() =~= v.inbound(side).unsent());
            assert(now =~= before);
            assert(nothing + now =~= before + nothing);
        },
        RelayEvent::Read(side, outcome) => {
            match outcome {
                IoOutcome::Done(n) => {
                    if side == from && n > 0 {
                        let more = v.inbound(from).available().take(n as int);
                        assert(v.inbound(from).grown(n as nat).unsent() =~= before + more);
                        assert(nothing + now =~= before + more);
                    } else if side == from {
                        let more = v.inbound(from).available().take(0);
                        assert(more =~= nothing);
                        assert(now =~= before);
                        assert(nothing + now =~= before + more);
                    } else {
                        assert(now =~= before);
                        assert(nothing + now =~= before + nothing);
                    }
                },
                _ => {
                    assert(now =~= before);
                    assert(nothing + now =~= before + nothing);
                },
            }
        },
        RelayEvent::Written(side, outcome) => {
            match outcome {
                IoOutcome::Done(n) => {
                    if side == from.peer() {
                        assert(side.peer() == from);
                        let out = before.take(n as int);
                        assert(v.inbound(from).advanced(n as nat).unsent() =~= before.skip(
                            n as int,
                        ));
                        assert(out + before.skip(n as int) =~= before);
                        assert(out + now =~= before + nothing);
                    } else {
                        assert(side.peer() != from);
                        assert(now =~= before);
                        assert(nothing + now =~= before + nothing);
                    }
                },
                _ => {
                    assert(now =~= before);
                    assert(nothing + now =~= before + nothing);
                },
            }
        },
        RelayEvent::ShutDown(side) => {
            assert(now =~= before);
            assert(nothing + now =~= before + nothing);
        },
    }
}

/// Two balanced accounts of a pipe, one after the other, make one balanced
/// account.
proof fn lemma_accounts_join(
    start: Seq<u8>,
    taken: Seq<u8>,
    handed: Seq<u8>,
    before: Seq<u8>,
    more_in: Seq<u8>,
    more_out: Seq<u8>,
    now: Seq<u8>,
)
    requires
        start + taken == handed + before,
        more_out + now == before + more_in,
    ensures
        start + (taken + more_in) == (handed + more_out) + now,
{
    assert(start + (taken + more_in) =~= (start + taken) + more_in);
    assert((handed + before) + more_in =~= handed + (before + more_in));
    assert(handed + (more_out + now) =~= (handed + more_out) + now);
}

/// Each direction is a faithful pipe. Whatever happens to a relay, the
/// bytes that waited in a direction at the start, followed by the bytes
/// taken in from its source since, are exactly the bytes handed to its
/// destination since, followed by the bytes that wait in it now. Nothing is
/// lost, nothing is sent twice, and nothing changes places.
pub proof fn lemma_stream_preserved(v: RelayView, events: Seq<RelayEvent>, from: Side)
    requires
        v.wf(),
        v.admits_all(events),
    ensures
        v.after_all(events).wf(),
        v.inbound(from).unsent() + v.taken_in(events, from) == v.handed_out(events, from.peer())
            + v.after_all(events).inbound(from).unsent(),
    decreases events.len(),
{
    let start = v.inbound(from).unsent();
    let nothing = Seq::<u8>::empty();
    if events.len() == 0 {
        assert(v.after_all(events) == v);
        assert(v.taken_in(events, from) == nothing);
        assert(v.handed_out(events, from.peer()) == nothing);
        assert(start + nothing =~= nothing + start);
    } else {
        let front = events.drop_last();
        let event = events.last();
        assert(v.admits_all(front));
        let u = v.after_all(front);
        assert(u.admits(event));
        assert(v.after_all(events) == u.after(event));
        lemma_stream_preserved(v, front, from);
        lemma_event_keeps_wf(u, event);
        lemma_event_moves_bytes(u, event, from);
        let taken = v.taken_in(front, from);
        let handed = v.handed_out(front, from.peer());
        let before = u.inbound(from).unsent();
        let now = u.after(event).inbound(from).unsent();
        let more_in = u.takes_in(event, from);
        let more_out = u.hands_out(event, from.peer());
        assert(v.taken_in(events, from) == taken + more_in);
        assert(v.handed_out(events, from.peer()) == handed + more_out);
        lemma_accounts_join(start, taken, handed, before, more_in, more_out, now);
    }
}

} // verus!
