use peers::address::SocketAddr;
use peers::clock::Timestamp;
use peers::error::NetworkError;
use peers::message::{Direction, Payload};
use peers::node::{Environment, Node};
use peers::update::{UpdateAction, UpdatePhase, UpdateRound};

fn v4(host: u8) -> SocketAddr {
    SocketAddr::V4 { ip: 0x0a00_0000 + host as u32, port: 4000 }
}

fn at(secs: i64) -> Timestamp {
    Timestamp { secs, nanos: 0 }
}

fn node(minimum: u16, maximum: u16, hosts: &[u8]) -> Node<u8, ()> {
    let mut node = Node::new(Environment {
        local_address: Some(SocketAddr::V4 { ip: 0xc0a8_0001, port: 4131 }),
        is_bootnode: false,
        minimum_number_of_connected_peers: minimum,
        maximum_number_of_connected_peers: maximum,
        bootnodes: vec![v4(101), v4(102)],
    });
    for host in hosts {
        assert!(node.complete_connection_at(v4(*host), (), at(*host as i64)).is_ok());
        node.tasks.insert(v4(*host), *host);
    }
    node
}

/// Runs a round in which the given hosts can be reached, and notes what it asks for.
fn run(node: &mut Node<u8, ()>, reachable: &[u8], height: u32) -> Vec<String> {
    let mut round = UpdateRound::new();
    let mut outcome = Ok(());
    let mut log = vec![];
    loop {
        let action = node.update_peers(&mut round, outcome, height);
        outcome = Ok(());
        match action {
            UpdateAction::Continue => {}
            UpdateAction::Connect(address) => {
                log.push(format!("connect {}", host(address)));
                outcome = node.initiate_connection(address);
                if outcome.is_ok() {
                    if reachable.contains(&host(address)) {
                        outcome = node.complete_connection_at(address, (), at(1000));
                    } else {
                        outcome = Err(NetworkError::InvalidHandshake);
                    }
                }
            }
            UpdateAction::Send(message) => {
                let Direction::Outbound(address) = message.direction;
                match message.payload {
                    Payload::GetPeers => log.push(format!("getpeers {}", host(address))),
                    Payload::Ping(height) => log.push(format!("ping {} {}", host(address), height)),
                    Payload::Peers(_) => unreachable!(),
                }
            }
            UpdateAction::Disconnected(done) => {
                for disconnection in done {
                    log.push(format!(
                        "disconnected {} {:?}",
                        host(disconnection.address),
                        disconnection.task
                    ));
                }
            }
            UpdateAction::Done => return log,
        }
    }
}

fn host(address: SocketAddr) -> u8 {
    match address {
        SocketAddr::V4 { ip, .. } => (ip % 256) as u8,
        SocketAddr::V6 { .. } => unreachable!(),
    }
}

#[test]
fn a_content_node_only_pings() {
    let mut node = node(2, 5, &[1, 2, 3]);
    assert_eq!(run(&mut node, &[101, 102], 7), vec!["ping 1 7", "ping 2 7", "ping 3 7"]);
    for host in [1, 2, 3] {
        assert!(node.peer_quality(v4(host)).unwrap().expecting_pong);
    }
}

#[test]
fn a_lonely_node_turns_to_bootnodes_then_to_peers_that_it_knew() {
    let mut node = node(2, 5, &[]);
    node.peer_book.add_peer(v4(7));
    node.peer_book.add_peer(v4(8));
    node.peer_book.add_peer(v4(9));
    let log = run(&mut node, &[102, 8], 3);
    // The bootnode that could not be reached now counts among the disconnected peers, the last of
    // them; two peers are missing, so that two of those are tried.
    assert_eq!(
        log,
        vec![
            "connect 101",
            "disconnected 101 None",
            "connect 102",
            "connect 7",
            "disconnected 7 None",
            "connect 8",
            "getpeers 102",
            "getpeers 8",
        ]
    );
    assert_eq!(node.connected_addresses(), vec![v4(102), v4(8)]);
    assert!(!node.peer_book.is_connecting(v4(101)));
    assert!(!node.peer_book.is_connecting(v4(7)));
}

#[test]
fn a_node_that_lacks_peers_pings_those_that_it_has_by_then() {
    let mut node = node(2, 5, &[1]);
    let log = run(&mut node, &[101], 9);
    assert_eq!(
        log,
        vec![
            "connect 101",
            "connect 102",
            "disconnected 102 None",
            "connect 102",
            "disconnected 102 None",
            "getpeers 1",
            "getpeers 101",
            "ping 1 9",
            "ping 101 9",
        ]
    );
}

#[test]
fn a_bootnode_seeks_nobody() {
    let mut node = node(2, 5, &[1]);
    node.environment.is_bootnode = true;
    assert_eq!(run(&mut node, &[101, 102], 0), vec!["ping 1 0"]);
}

#[test]
fn a_bootnode_without_peers_does_nothing() {
    let mut node = node(2, 5, &[]);
    node.environment.is_bootnode = true;
    assert!(run(&mut node, &[], 0).is_empty());
}

#[test]
fn the_most_recent_of_too_many_peers_go() {
    let mut node = node(0, 2, &[3, 1, 4, 2, 5]);
    node.expecting_sync_blocks(v4(4), 2);
    let log = run(&mut node, &[], 1);
    assert_eq!(
        log,
        vec![
            "disconnected 5 Some(5)",
            "disconnected 4 Some(4)",
            "disconnected 3 Some(3)",
            "ping 1 1",
            "ping 2 1",
        ]
    );
    assert_eq!(node.connected_addresses(), vec![v4(1), v4(2)]);
    for host in [3, 4, 5] {
        assert!(node.peer_book.is_disconnected(v4(host)));
        assert!(!node.channels.contains_key(v4(host)));
    }
}

#[test]
fn a_node_that_permits_no_peers_lets_all_of_them_go() {
    let mut node = node(0, 0, &[1, 2]);
    assert_eq!(
        run(&mut node, &[], 1),
        vec!["disconnected 2 Some(2)", "disconnected 1 Some(1)"]
    );
    assert_eq!(node.peer_book.number_of_connected_peers(), 0);
}

#[test]
fn peers_that_finish_a_sync_are_reported() {
    let mut node = node(0, 1, &[1, 2]);
    node.expecting_sync_blocks(v4(2), 2);
    let done = node.disconnect_excess(1);
    assert_eq!(done.len(), 1);
    assert_eq!(done[0].address, v4(2));
    assert!(done[0].finished_syncing_blocks);
    assert!(done[0].result.is_ok());
}

#[test]
fn the_most_recent_peers_come_first() {
    let node = node(0, 9, &[2, 9, 4]);
    assert_eq!(node.most_recent_peers(0), vec![]);
    assert_eq!(node.most_recent_peers(2), vec![v4(9), v4(4)]);
    assert_eq!(node.most_recent_peers(7), vec![v4(9), v4(4), v4(2)]);
}

#[test]
fn a_bootnode_listed_twice_is_let_go_of_again() {
    let mut node = node(1, 5, &[]);
    node.environment.bootnodes = vec![v4(101), v4(101)];
    let log = run(&mut node, &[101], 1);
    // The second attempt finds the peer connected already, which is an error like any other.
    assert_eq!(
        log,
        vec!["connect 101", "connect 101", "disconnected 101 None", "connect 101", "getpeers 101"]
    );
}

#[test]
fn an_attempt_waits_for_its_outcome() {
    let mut node = node(1, 5, &[]);
    let mut round = UpdateRound::new();
    assert!(matches!(round.phase, UpdatePhase::Start));
    assert!(matches!(node.update_peers(&mut round, Ok(()), 0), UpdateAction::Continue));
    assert!(matches!(
        node.update_peers(&mut round, Ok(()), 0),
        UpdateAction::Connect(address) if address == v4(101)
    ));
    assert_eq!(round.attempt, Some(v4(101)));
    node.initiate_connection(v4(101)).unwrap();
    assert!(node.peer_book.is_connecting(v4(101)));
    let action = node.update_peers(&mut round, Err(NetworkError::InvalidHandshake), 0);
    assert!(matches!(action, UpdateAction::Disconnected(done) if done.len() == 1));
    assert_eq!(round.attempt, None);
    assert!(!node.peer_book.is_connecting(v4(101)));
}

#[test]
fn a_finished_round_stays_finished() {
    let mut node = node(0, 5, &[]);
    let mut round = UpdateRound::new();
    node.update_peers(&mut round, Ok(()), 0);
    node.update_peers(&mut round, Ok(()), 0);
    assert!(matches!(round.phase, UpdatePhase::Done));
    assert!(matches!(node.update_peers(&mut round, Ok(()), 0), UpdateAction::Done));
    assert!(matches!(node.update_peers(&mut round, Ok(()), 0), UpdateAction::Done));
}

#[test]
fn a_broadcast_turns_to_one_pending_peer_at_a_time() {
    let mut node = node(0, 5, &[1, 2]);
    let mut round = UpdateRound::new();
    round.phase = UpdatePhase::GetPeers;
    round.pending = vec![v4(1), v4(2)];
    for host in [1, 2] {
        assert!(matches!(
            node.broadcast_getpeers_requests(&mut round),
            UpdateAction::Send(message) if message.direction == Direction::Outbound(v4(host))
                && matches!(message.payload, Payload::GetPeers)
        ));
    }
    assert!(matches!(node.broadcast_getpeers_requests(&mut round), UpdateAction::Continue));
    assert_eq!(round.phase, UpdatePhase::Excess);

    round.phase = UpdatePhase::Pings;
    round.pending = vec![v4(2), v4(9)];
    round.block_height = 12;
    for host in [2, 9] {
        assert!(matches!(
            node.broadcast_pings(&mut round),
            UpdateAction::Send(message) if message.direction == Direction::Outbound(v4(host))
                && matches!(message.payload, Payload::Ping(12))
        ));
    }
    assert!(matches!(node.broadcast_pings(&mut round), UpdateAction::Continue));
    assert_eq!(round.phase, UpdatePhase::Done);
    assert!(node.peer_quality(v4(2)).unwrap().expecting_pong);
    assert!(!node.peer_quality(v4(1)).unwrap().expecting_pong);
}

#[test]
fn a_round_that_starts_alone_sends_no_ping() {
    let mut node = node(1, 5, &[]);
    let log = run(&mut node, &[101, 102], 4);
    assert_eq!(log, vec!["connect 101", "connect 102", "getpeers 101", "getpeers 102"]);
}
