use tcp_proxy::load_balancer::{
    BackendAddr, Balancer, ConnectionGuard, ReleaseOutcome, ServerConnections,
};
use tcp_proxy::relay::{Action, ConnectionHalf, DirectionState, IoOutcome, Relay, Side};

/// One end of a connection as the relay's caller sees it.
struct Socket {
    /// Bytes that the peer has sent and the relay has not read yet.
    inbox: Vec<u8>,
    /// The peer has ended its data.
    peer_done: bool,
    /// Bytes that the relay has written.
    outbox: Vec<u8>,
    /// The relay has shut the write half down.
    shut: bool,
    /// At most this many bytes are taken by one write.
    write_limit: usize,
    /// The next read or write fails.
    failing: bool,
}

impl Socket {
    fn new() -> Socket {
        Socket {
            inbox: Vec::new(),
            peer_done: false,
            outbox: Vec::new(),
            shut: false,
            write_limit: usize::MAX,
            failing: false,
        }
    }

    fn read(&mut self, room: &mut [u8]) -> IoOutcome {
        if self.failing {
            return IoOutcome::Failed;
        }
        if self.inbox.is_empty() {
            return if self.peer_done { IoOutcome::Done(0) } else { IoOutcome::WouldBlock };
        }
        let n = self.inbox.len().min(room.len());
        room[..n].copy_from_slice(&self.inbox[..n]);
        self.inbox.drain(..n);
        IoOutcome::Done(n)
    }

    fn write(&mut self, data: &[u8]) -> IoOutcome {
        if self.failing {
            return IoOutcome::Failed;
        }
        if self.write_limit == 0 {
            return IoOutcome::WouldBlock;
        }
        let n = data.len().min(self.write_limit);
        self.outbox.extend_from_slice(&data[..n]);
        IoOutcome::Done(n)
    }
}

/// Carries out one action of the relay and returns it.
fn step(relay: &mut Relay, client: &mut Socket, server: &mut Socket) -> Action {
    let action = relay.next_action();
    match action {
        Action::Write(to) => {
            let outcome = match to {
                Side::Client => client.write(relay.outgoing(to)),
                Side::Server => server.write(relay.outgoing(to)),
            };
            relay.complete_write(to, outcome);
        }
        Action::Shutdown(to) => {
            match to {
                Side::Client => client.shut = true,
                Side::Server => server.shut = true,
            }
            relay.complete_shutdown(to);
        }
        Action::Read(from) => {
            let outcome = match from {
                Side::Client => client.read(relay.incoming(from)),
                Side::Server => server.read(relay.incoming(from)),
            };
            relay.complete_read(from, outcome);
        }
        Action::Close => {}
    }
    action
}

/// A backend that sends back what it gets and ends when its input ends.
fn echo(server: &mut Socket) {
    let data: Vec<u8> = server.outbox.drain(..).collect();
    server.inbox.extend_from_slice(&data);
    if server.shut {
        server.peer_done = true;
    }
}

#[test]
fn connection_half_starts_fully_open() {
    let half = ConnectionHalf::new();
    assert!(half.read_open);
    assert!(half.write_open);
}

#[test]
fn new_relay_is_open_both_ways() {
    let relay = Relay::new();
    assert_eq!(relay.direction(Side::Client), DirectionState::Open);
    assert_eq!(relay.direction(Side::Server), DirectionState::Open);
    assert!(!relay.is_finished());
}

#[test]
fn new_relay_has_nothing_to_write_and_all_room_to_read() {
    let mut relay = Relay::new();
    assert_eq!(relay.outgoing(Side::Client).len(), 0);
    assert_eq!(relay.outgoing(Side::Server).len(), 0);
    assert_eq!(relay.incoming(Side::Client).len(), 4096);
    assert_eq!(relay.incoming(Side::Server).len(), 4096);
}

#[test]
fn idle_relay_reads_from_both_sides_in_turn() {
    let mut relay = Relay::new();
    let mut client = Socket::new();
    let mut server = Socket::new();
    let actions: Vec<Action> =
        (0..4).map(|_| step(&mut relay, &mut client, &mut server)).collect();
    assert_eq!(
        actions,
        vec![
            Action::Read(Side::Client),
            Action::Read(Side::Server),
            Action::Read(Side::Client),
            Action::Read(Side::Server),
        ]
    );
    assert!(!relay.is_finished());
}

#[test]
fn would_block_and_interrupted_change_nothing() {
    let mut relay = Relay::new();
    assert_eq!(relay.next_action(), Action::Read(Side::Client));
    relay.complete_read(Side::Client, IoOutcome::WouldBlock);
    assert_eq!(relay.direction(Side::Client), DirectionState::Open);
    assert_eq!(relay.next_action(), Action::Read(Side::Server));
    relay.complete_read(Side::Server, IoOutcome::Interrupted);
    assert_eq!(relay.direction(Side::Server), DirectionState::Open);
    assert_eq!(relay.outgoing(Side::Client).len(), 0);
    assert_eq!(relay.outgoing(Side::Server).len(), 0);
    assert!(!relay.is_finished());
}

#[test]
fn bytes_read_from_the_client_are_written_to_the_server() {
    let mut relay = Relay::new();
    let mut client = Socket::new();
    let mut server = Socket::new();
    client.inbox.extend_from_slice(&[1, 2, 3, 4]);
    assert_eq!(step(&mut relay, &mut client, &mut server), Action::Read(Side::Client));
    assert_eq!(relay.outgoing(Side::Server).to_vec(), vec![1, 2, 3, 4]);
    assert_eq!(step(&mut relay, &mut client, &mut server), Action::Read(Side::Server));
    assert_eq!(step(&mut relay, &mut client, &mut server), Action::Write(Side::Server));
    assert_eq!(server.outbox, vec![1, 2, 3, 4]);
    assert_eq!(relay.outgoing(Side::Server).len(), 0);
    assert!(client.outbox.is_empty());
}

#[test]
fn short_writes_are_retried_until_all_is_flushed() {
    let mut relay = Relay::new();
    let mut client = Socket::new();
    let mut server = Socket::new();
    server.write_limit = 2;
    client.inbox.extend_from_slice(&[10, 20, 30, 40, 50]);
    let mut writes = 0;
    for _ in 0..40 {
        if step(&mut relay, &mut client, &mut server) == Action::Write(Side::Server) {
            writes += 1;
        }
    }
    assert_eq!(writes, 3);
    assert_eq!(server.outbox, vec![10, 20, 30, 40, 50]);
    assert_eq!(relay.outgoing(Side::Server).len(), 0);
}

#[test]
fn blocked_write_keeps_the_bytes_and_does_not_stop_the_other_direction() {
    let mut relay = Relay::new();
    let mut client = Socket::new();
    let mut server = Socket::new();
    server.write_limit = 0;
    client.inbox.extend_from_slice(&[1, 2, 3]);
    server.inbox.extend_from_slice(&[9, 8]);
    for _ in 0..12 {
        step(&mut relay, &mut client, &mut server);
    }
    assert!(server.outbox.is_empty());
    assert_eq!(relay.outgoing(Side::Server).to_vec(), vec![1, 2, 3]);
    assert_eq!(client.outbox, vec![9, 8]);
    server.write_limit = usize::MAX;
    for _ in 0..4 {
        step(&mut relay, &mut client, &mut server);
    }
    assert_eq!(server.outbox, vec![1, 2, 3]);
}

#[test]
fn full_buffer_is_not_read_into() {
    let mut relay = Relay::new();
    let mut client = Socket::new();
    let mut server = Socket::new();
    server.write_limit = 0;
    client.inbox = vec![7_u8; 5000];
    let mut reads = 0;
    for _ in 0..40 {
        if step(&mut relay, &mut client, &mut server) == Action::Read(Side::Client) {
            reads += 1;
        }
    }
    assert_eq!(reads, 1);
    assert_eq!(client.inbox.len(), 5000 - 4096);
    assert_eq!(relay.incoming(Side::Client).len(), 0);
    assert_eq!(relay.outgoing(Side::Server).len(), 4096);
}

#[test]
fn more_than_a_buffer_passes_through_in_order() {
    let mut relay = Relay::new();
    let mut client = Socket::new();
    let mut server = Socket::new();
    let data: Vec<u8> = (0..10_000_u32).map(|i| (i % 251) as u8).collect();
    client.inbox = data.clone();
    server.write_limit = 1000;
    for _ in 0..200 {
        step(&mut relay, &mut client, &mut server);
    }
    assert_eq!(server.outbox, data);
}

#[test]
fn client_end_of_data_shuts_down_the_server_write_half() {
    let mut relay = Relay::new();
    let mut client = Socket::new();
    let mut server = Socket::new();
    client.peer_done = true;
    assert_eq!(step(&mut relay, &mut client, &mut server), Action::Read(Side::Client));
    assert_eq!(relay.direction(Side::Client), DirectionState::FinReceived);
    assert_eq!(relay.direction(Side::Server), DirectionState::Open);
    assert!(!server.shut);
    assert_eq!(step(&mut relay, &mut client, &mut server), Action::Read(Side::Server));
    assert_eq!(step(&mut relay, &mut client, &mut server), Action::Shutdown(Side::Server));
    assert!(server.shut);
    assert!(!client.shut);
    assert_eq!(relay.direction(Side::Client), DirectionState::Shut);
    assert_eq!(relay.direction(Side::Server), DirectionState::Open);
    assert!(!relay.is_finished());
}

#[test]
fn other_direction_goes_on_after_a_half_close() {
    let mut relay = Relay::new();
    let mut client = Socket::new();
    let mut server = Socket::new();
    client.peer_done = true;
    for _ in 0..3 {
        step(&mut relay, &mut client, &mut server);
    }
    assert_eq!(relay.direction(Side::Client), DirectionState::Shut);
    server.inbox.extend_from_slice(&[5, 6, 7]);
    let mut seen = Vec::new();
    for _ in 0..4 {
        seen.push(step(&mut relay, &mut client, &mut server));
    }
    assert!(!seen.contains(&Action::Read(Side::Client)));
    assert!(!seen.contains(&Action::Write(Side::Server)));
    assert!(seen.contains(&Action::Read(Side::Server)));
    assert!(seen.contains(&Action::Write(Side::Client)));
    assert_eq!(client.outbox, vec![5, 6, 7]);
    assert!(!relay.is_finished());
    server.peer_done = true;
    let mut rest = Vec::new();
    for _ in 0..3 {
        rest.push(step(&mut relay, &mut client, &mut server));
    }
    assert_eq!(
        rest,
        vec![Action::Read(Side::Server), Action::Shutdown(Side::Client), Action::Close]
    );
    assert!(client.shut);
    assert!(relay.is_finished());
}

#[test]
fn buffered_bytes_are_flushed_before_the_shutdown() {
    let mut relay = Relay::new();
    let mut client = Socket::new();
    let mut server = Socket::new();
    server.write_limit = 1;
    client.inbox.extend_from_slice(&[1, 2]);
    assert_eq!(step(&mut relay, &mut client, &mut server), Action::Read(Side::Client));
    client.peer_done = true;
    let mut seen = Vec::new();
    for _ in 0..8 {
        seen.push(step(&mut relay, &mut client, &mut server));
    }
    let on_server: Vec<Action> = seen
        .iter()
        .copied()
        .filter(|a| matches!(a, Action::Write(Side::Server) | Action::Shutdown(Side::Server)))
        .collect();
    assert_eq!(
        on_server,
        vec![
            Action::Write(Side::Server),
            Action::Write(Side::Server),
            Action::Shutdown(Side::Server)
        ]
    );
    assert_eq!(server.outbox, vec![1, 2]);
}

#[test]
fn shutdown_is_issued_once() {
    let mut relay = Relay::new();
    let mut client = Socket::new();
    let mut server = Socket::new();
    client.peer_done = true;
    let mut shutdowns = 0;
    for _ in 0..20 {
        if step(&mut relay, &mut client, &mut server) == Action::Shutdown(Side::Server) {
            shutdowns += 1;
        }
    }
    assert_eq!(shutdowns, 1);
}

#[test]
fn read_failure_aborts_the_connection() {
    let mut relay = Relay::new();
    let mut client = Socket::new();
    let mut server = Socket::new();
    client.failing = true;
    assert_eq!(step(&mut relay, &mut client, &mut server), Action::Read(Side::Client));
    assert!(relay.is_finished());
    assert_eq!(relay.direction(Side::Client), DirectionState::Aborted);
    assert_eq!(relay.direction(Side::Server), DirectionState::Aborted);
    assert_eq!(step(&mut relay, &mut client, &mut server), Action::Close);
    assert!(!server.shut);
}

#[test]
fn write_failure_aborts_both_directions() {
    let mut relay = Relay::new();
    let mut client = Socket::new();
    let mut server = Socket::new();
    client.inbox.extend_from_slice(&[1]);
    assert_eq!(step(&mut relay, &mut client, &mut server), Action::Read(Side::Client));
    assert_eq!(step(&mut relay, &mut client, &mut server), Action::Read(Side::Server));
    server.failing = true;
    assert_eq!(step(&mut relay, &mut client, &mut server), Action::Write(Side::Server));
    assert_eq!(relay.direction(Side::Client), DirectionState::Aborted);
    assert_eq!(relay.direction(Side::Server), DirectionState::Aborted);
    assert_eq!(step(&mut relay, &mut client, &mut server), Action::Close);
    assert_eq!(step(&mut relay, &mut client, &mut server), Action::Close);
}

#[test]
fn close_is_asked_for_only_after_both_shutdowns() {
    let mut relay = Relay::new();
    let mut client = Socket::new();
    let mut server = Socket::new();
    client.peer_done = true;
    server.peer_done = true;
    let mut seen = Vec::new();
    for _ in 0..5 {
        seen.push(step(&mut relay, &mut client, &mut server));
    }
    assert_eq!(
        seen,
        vec![
            Action::Read(Side::Client),
            Action::Read(Side::Server),
            Action::Shutdown(Side::Server),
            Action::Shutdown(Side::Client),
            Action::Close,
        ]
    );
    assert_eq!(relay.direction(Side::Client), DirectionState::Shut);
    assert_eq!(relay.direction(Side::Server), DirectionState::Shut);
}

#[test]
fn echo_end_to_end() {
    let mut balancer = Balancer::LeastConnections {
        servers: vec![
            ServerConnections {
                addr: BackendAddr::V4 { ip: 0x7f00_0001, port: 9090 },
                active_conns: 0,
                generation: 0,
            },
            ServerConnections {
                addr: BackendAddr::V4 { ip: 0x7f00_0001, port: 9091 },
                active_conns: 2,
                generation: 0,
            },
        ],
    };
    let (picked, server_id) = balancer.next().unwrap();
    assert_eq!(picked, BackendAddr::V4 { ip: 0x7f00_0001, port: 9090 });
    let guard = ConnectionGuard { server_id };

    let mut relay = Relay::new();
    let mut client = Socket::new();
    let mut server = Socket::new();
    client.inbox.extend_from_slice(&[0x41, 0x42, 0x43]);
    for _ in 0..12 {
        assert_ne!(step(&mut relay, &mut client, &mut server), Action::Close);
        echo(&mut server);
    }
    assert_eq!(client.outbox, vec![0x41, 0x42, 0x43]);
    assert!(!server.shut);
    assert!(!client.shut);

    client.peer_done = true;
    let mut actions = Vec::new();
    for _ in 0..40 {
        let action = step(&mut relay, &mut client, &mut server);
        echo(&mut server);
        actions.push(action);
        if action == Action::Close {
            break;
        }
    }
    assert_eq!(actions.last(), Some(&Action::Close));
    let at = |wanted: Action| actions.iter().position(|a| *a == wanted).unwrap();
    assert!(at(Action::Shutdown(Side::Server)) < at(Action::Shutdown(Side::Client)));
    assert!(at(Action::Shutdown(Side::Client)) < at(Action::Close));
    assert!(server.shut);
    assert!(client.shut);
    assert!(relay.is_finished());
    assert_eq!(relay.direction(Side::Client), DirectionState::Shut);
    assert_eq!(relay.direction(Side::Server), DirectionState::Shut);
    assert_eq!(client.outbox, vec![0x41, 0x42, 0x43]);

    match &balancer {
        Balancer::LeastConnections { servers } => assert_eq!(servers[0].active_conns, 1),
        _ => unreachable!(),
    }
    assert_eq!(guard.release(&mut balancer), ReleaseOutcome::Released);
    match &balancer {
        Balancer::LeastConnections { servers } => {
            assert_eq!(servers[0].active_conns, 0);
            assert_eq!(servers[1].active_conns, 2);
        }
        _ => unreachable!(),
    }
}
