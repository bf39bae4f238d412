use peers::address::SocketAddr;
use peers::clock::{Elapsed, Timestamp};
use peers::error::NetworkError;
use peers::message::{Direction, Payload};
use peers::node::{Environment, Node};
use std::time::{Duration, Instant};

const OWN_PORT: u16 = 4131;

fn v4(host: u8) -> SocketAddr {
    SocketAddr::V4 { ip: 0x0a00_0000 + host as u32, port: 4000 }
}

fn own() -> SocketAddr {
    SocketAddr::V4 { ip: 0xc0a8_0001, port: OWN_PORT }
}

fn at(secs: i64) -> Timestamp {
    Timestamp { secs, nanos: 0 }
}

fn node(maximum: u16) -> Node<&'static str, u8> {
    Node::new(Environment {
        local_address: Some(own()),
        is_bootnode: false,
        minimum_number_of_connected_peers: 1,
        maximum_number_of_connected_peers: maximum,
        bootnodes: vec![v4(101), v4(102), v4(103)],
    })
}

/// A node that is connected to the given hosts, in that order.
fn node_with(maximum: u16, hosts: &[u8]) -> Node<&'static str, u8> {
    let mut node = node(maximum);
    for host in hosts {
        assert!(node.complete_connection_at(v4(*host), *host, at(*host as i64)).is_ok());
    }
    node
}

#[test]
fn a_new_node_knows_nobody() {
    let node = node(5);
    assert_eq!(node.last_seen(), None);
    assert!(node.peer_quality(v4(1)).is_none());
    assert_eq!(node.connected_addresses(), vec![]);
    assert!(!node.is_syncing_blocks(v4(1)));
}

#[test]
fn the_peer_heard_of_last_is_last_seen() {
    let mut node = node_with(5, &[1, 2, 3]);
    node.update_last_seen_at(v4(1), at(10));
    assert_eq!(node.last_seen(), Some(v4(1)));
    node.update_last_seen_at(v4(3), at(30));
    assert_eq!(node.last_seen(), Some(v4(3)));
    node.update_last_seen_at(v4(2), at(20));
    assert_eq!(node.last_seen(), Some(v4(3)));
    node.update_last_seen_at(v4(2), at(40));
    assert_eq!(node.last_seen(), Some(v4(2)));
}

#[test]
fn of_peers_heard_of_at_once_the_last_in_the_walk_is_last_seen() {
    let mut node = node_with(5, &[1, 2, 3]);
    assert_eq!(node.last_seen(), Some(v4(3)));
    node.update_last_seen_at(v4(1), at(10));
    node.update_last_seen_at(v4(2), at(10));
    assert_eq!(node.last_seen(), Some(v4(2)));
}

#[test]
fn a_stranger_is_never_last_seen() {
    let mut node = node_with(5, &[1]);
    node.update_last_seen_at(v4(9), at(99));
    node.update_last_seen(v4(9));
    assert_eq!(node.last_seen(), Some(v4(1)));
    assert!(node.peer_quality(v4(9)).is_none());
    assert!(!node.peer_book.is_disconnected(v4(9)));
}

#[test]
fn the_time_of_the_last_sign_is_that_of_the_clock() {
    let mut node = node_with(5, &[1]);
    node.update_last_seen(v4(1));
    let seen = node.peer_quality(v4(1)).unwrap().last_seen.unwrap();
    let now = chrono::Utc::now().timestamp();
    assert!(seen.secs > 1_600_000_000);
    assert!(seen.secs <= now && now - seen.secs < 20);
    assert!(seen.nanos < 1_000_000_000);
}

#[test]
fn a_pong_gives_the_round_trip_time() {
    let mut node = node_with(5, &[1, 2]);
    node.sending_ping_at(v4(1), Instant::now());
    assert!(node.peer_quality(v4(1)).unwrap().expecting_pong);
    assert!(!node.peer_quality(v4(2)).unwrap().expecting_pong);

    node.received_pong_after(v4(1), Elapsed { secs: 1, nanos: 234_567_890 });
    let quality = node.peer_quality(v4(1)).unwrap();
    assert_eq!(quality.rtt_ms, 1234);
    assert_eq!(quality.failures, 0);
    assert!(!quality.expecting_pong);
    assert!(quality.last_ping_sent.is_some());
}

#[test]
fn the_round_trip_time_is_measured_from_the_ping() {
    let mut node = node_with(5, &[1]);
    let sent = Instant::now().checked_sub(Duration::from_millis(250)).unwrap();
    node.sending_ping_at(v4(1), sent);
    assert_eq!(node.peer_quality(v4(1)).unwrap().last_ping_sent, Some(sent));
    node.received_pong(v4(1));
    let quality = node.peer_quality(v4(1)).unwrap();
    assert!(quality.rtt_ms >= 250 && quality.rtt_ms < 20_000);
    assert!(!quality.expecting_pong);
}

#[test]
fn pings_in_a_row_count_as_the_latest() {
    let mut node = node_with(5, &[1]);
    let long_ago = Instant::now().checked_sub(Duration::from_secs(60)).unwrap();
    let recently = Instant::now().checked_sub(Duration::from_millis(100)).unwrap();
    node.sending_ping_at(v4(1), long_ago);
    node.sending_ping_at(v4(1), recently);
    node.received_pong(v4(1));
    let quality = node.peer_quality(v4(1)).unwrap();
    assert!(quality.rtt_ms >= 100 && quality.rtt_ms < 20_000);
    node.received_pong(v4(1));
    let again = node.peer_quality(v4(1)).unwrap();
    assert_eq!(again.rtt_ms, quality.rtt_ms);
    assert_eq!(again.failures, 1);
    assert!(!again.expecting_pong);
}

#[test]
fn a_ping_is_stamped_with_the_time_at_which_it_goes_out() {
    let mut node = node_with(5, &[1]);
    let before = Instant::now();
    node.sending_ping(v4(1));
    let after = Instant::now();
    let sent = node.peer_quality(v4(1)).unwrap().last_ping_sent.unwrap();
    assert!(before <= sent && sent <= after);
}

#[test]
fn a_round_trip_time_keeps_its_low_64_bits() {
    let mut node = node_with(5, &[1]);
    node.sending_ping(v4(1));
    node.received_pong_after(v4(1), Elapsed { secs: u64::MAX, nanos: 0 });
    let expected = (u64::MAX as u128 * 1000) as u64;
    assert_eq!(node.peer_quality(v4(1)).unwrap().rtt_ms, expected);
}

#[test]
fn a_pong_that_nothing_asked_for_is_a_failure() {
    let mut node = node_with(5, &[1]);
    node.received_pong(v4(1));
    assert_eq!(node.peer_quality(v4(1)).unwrap().failures, 1);
    node.sending_ping(v4(1));
    node.received_pong_after(v4(1), Elapsed { secs: 0, nanos: 5_000_000 });
    node.received_pong_after(v4(1), Elapsed { secs: 9, nanos: 0 });
    let quality = node.peer_quality(v4(1)).unwrap();
    assert_eq!(quality.failures, 2);
    assert_eq!(quality.rtt_ms, 5);
}

#[test]
fn failures_wrap_around() {
    let mut node = node_with(5, &[1]);
    let mut quality = node.peer_quality(v4(1)).unwrap();
    quality.failures = u32::MAX;
    node.peer_book.set_quality(v4(1), quality);
    node.received_pong(v4(1));
    assert_eq!(node.peer_quality(v4(1)).unwrap().failures, 0);
}

#[test]
fn pings_and_pongs_of_strangers_change_nothing() {
    let mut node = node_with(5, &[1]);
    node.sending_ping(v4(9));
    node.received_pong(v4(9));
    assert!(node.peer_quality(v4(9)).is_none());
    assert_eq!(node.connected_addresses(), vec![v4(1)]);
}

#[test]
fn a_sync_ends_with_its_last_block() {
    let mut node = node_with(5, &[1]);
    node.expecting_sync_blocks(v4(1), 3);
    assert!(node.is_syncing_blocks(v4(1)));
    assert!(!node.got_sync_block(v4(1)));
    assert!(!node.got_sync_block(v4(1)));
    assert!(node.is_syncing_blocks(v4(1)));
    assert!(node.got_sync_block(v4(1)));
    assert!(!node.is_syncing_blocks(v4(1)));
}

#[test]
fn a_block_that_nothing_asked_for_opens_a_sync() {
    let mut node = node_with(5, &[1]);
    assert!(!node.got_sync_block(v4(1)));
    assert_eq!(node.peer_quality(v4(1)).unwrap().remaining_sync_blocks, 0xffff);
    assert!(node.is_syncing_blocks(v4(1)));
}

#[test]
fn any_number_of_blocks_can_be_expected() {
    let mut node = node_with(5, &[1]);
    for count in [1, 0xffff, 0x1_0000, 0x1_0002, usize::MAX] {
        node.expecting_sync_blocks(v4(1), count);
        assert_eq!(node.peer_quality(v4(1)).unwrap().remaining_sync_blocks, count);
        assert!(node.is_syncing_blocks(v4(1)));
    }
    node.expecting_sync_blocks(v4(1), 0);
    assert!(!node.is_syncing_blocks(v4(1)));
}

#[test]
fn a_long_sync_ends_with_its_last_block() {
    let mut node = node_with(5, &[1]);
    node.expecting_sync_blocks(v4(1), 0x1_0000);
    for _ in 0..0xffff {
        assert!(!node.got_sync_block(v4(1)));
    }
    assert!(node.is_syncing_blocks(v4(1)));
    assert!(node.got_sync_block(v4(1)));
    assert!(!node.is_syncing_blocks(v4(1)));
}

#[test]
fn a_sync_with_a_stranger_is_over() {
    let mut node = node_with(5, &[1]);
    node.expecting_sync_blocks(v4(9), 3);
    assert!(!node.is_syncing_blocks(v4(9)));
    assert!(node.got_sync_block(v4(9)));
}

#[test]
fn a_disconnected_peer_leaves_nothing_behind() {
    let mut node = node_with(5, &[1, 2]);
    node.tasks.insert(v4(1), "listener");
    node.expecting_sync_blocks(v4(1), 3);

    let disconnection = node.disconnect_from_peer(v4(1));
    assert_eq!(disconnection.address, v4(1));
    assert!(disconnection.finished_syncing_blocks);
    assert_eq!(disconnection.task, Some("listener"));
    assert!(disconnection.result.is_ok());

    assert!(node.peer_book.is_disconnected(v4(1)));
    assert!(!node.peer_book.is_connected(v4(1)));
    assert!(!node.channels.contains_key(v4(1)));
    assert!(!node.tasks.contains_key(v4(1)));
    assert!(!node.is_syncing_blocks(v4(1)));
    assert!(node.peer_book.is_connected(v4(2)));
    assert_eq!(node.channels.get(v4(2)), Some(&2));
}

#[test]
fn a_peer_without_a_sync_or_a_task_needs_no_more() {
    let mut node = node_with(5, &[1]);
    let disconnection = node.disconnect_from_peer(v4(1));
    assert!(!disconnection.finished_syncing_blocks);
    assert_eq!(disconnection.task, None);
    let again = node.disconnect_from_peer(v4(1));
    assert!(again.result.is_ok());
    assert!(node.peer_book.is_disconnected(v4(1)));
}

#[test]
fn a_node_does_not_connect_to_itself() {
    let mut node = node(5);
    let unspecified = SocketAddr::V4 { ip: 0, port: OWN_PORT };
    let loopback = SocketAddr::V4 { ip: 0x7f00_0001, port: OWN_PORT };
    let unspecified_v6 = SocketAddr::V6 { ip: 0, port: OWN_PORT, flowinfo: 0, scope_id: 0 };
    let loopback_v6 = SocketAddr::V6 { ip: 1, port: OWN_PORT, flowinfo: 0, scope_id: 0 };
    for address in [own(), unspecified, loopback, unspecified_v6, loopback_v6] {
        assert!(matches!(
            node.initiate_connection(address),
            Err(NetworkError::SelfConnectAttempt)
        ));
        assert!(!node.peer_book.is_connecting(address));
    }
}

#[test]
fn another_node_on_the_same_host_can_be_connected_to() {
    let mut node = node(5);
    let neighbour = SocketAddr::V4 { ip: 0x7f00_0001, port: OWN_PORT + 1 };
    assert!(node.initiate_connection(neighbour).is_ok());
    let namesake = SocketAddr::V4 { ip: 0x0a00_0001, port: OWN_PORT };
    assert!(node.initiate_connection(namesake).is_ok());
}

#[test]
fn a_connection_is_begun_once() {
    let mut node = node(5);
    assert!(node.initiate_connection(v4(1)).is_ok());
    assert!(node.peer_book.is_connecting(v4(1)));
    assert!(matches!(
        node.initiate_connection(v4(1)),
        Err(NetworkError::PeerAlreadyConnecting)
    ));
    assert!(node.complete_connection(v4(1), 1).is_ok());
    assert!(matches!(
        node.initiate_connection(v4(1)),
        Err(NetworkError::PeerAlreadyConnected)
    ));
}

#[test]
fn a_completed_connection_has_a_channel_and_a_time() {
    let mut node = node(5);
    node.initiate_connection(v4(1)).unwrap();
    node.complete_connection(v4(1), 1).unwrap();
    assert!(node.peer_book.is_connected(v4(1)));
    assert!(!node.peer_book.is_connecting(v4(1)));
    assert_eq!(node.channels.get(v4(1)), Some(&1));
    let since = node.peer_book.connected.get(v4(1)).unwrap().last_connected.unwrap();
    let now = chrono::Utc::now().timestamp();
    assert!(since.secs <= now && now - since.secs < 20);
}

#[test]
fn a_second_connection_replaces_only_the_channel() {
    let mut node = node_with(5, &[1]);
    assert!(matches!(
        node.complete_connection_at(v4(1), 77, at(99)),
        Err(NetworkError::PeerAlreadyConnected)
    ));
    assert_eq!(node.channels.get(v4(1)), Some(&77));
    assert_eq!(node.peer_book.connected.get(v4(1)).unwrap().last_connected, Some(at(1)));
}

#[test]
fn unconnected_bootnodes_are_sought() {
    let mut node = node_with(5, &[1]);
    assert_eq!(node.connect_to_bootnodes(), vec![v4(101), v4(102), v4(103)]);
    node.complete_connection_at(v4(102), 2, at(1)).unwrap();
    assert_eq!(node.connect_to_bootnodes(), vec![v4(101), v4(103)]);
}

#[test]
fn only_as_many_disconnected_peers_as_wanted_are_sought() {
    let mut node = node(5);
    for host in [1, 2, 3] {
        node.peer_book.add_peer(v4(host));
    }
    assert_eq!(node.connect_to_disconnected_peers(0), vec![]);
    assert_eq!(node.connect_to_disconnected_peers(2), vec![v4(1), v4(2)]);
    assert_eq!(node.connect_to_disconnected_peers(9), vec![v4(1), v4(2), v4(3)]);
}

#[test]
fn a_peer_that_asks_is_told_of_the_others() {
    let node = node_with(5, &[1, 2, 3]);
    let message = node.send_get_peers(v4(2));
    assert_eq!(message.direction, Direction::Outbound(v4(2)));
    assert!(matches!(message.payload, Payload::Peers(peers) if peers == vec![v4(1), v4(3)]));

    let message = node.send_get_peers(v4(9));
    assert!(
        matches!(message.payload, Payload::Peers(peers) if peers == vec![v4(1), v4(2), v4(3)])
    );
}

#[test]
fn inbound_peers_are_listed_as_disconnected() {
    let mut node = node_with(5, &[1, 2]);
    node.process_inbound_peers(vec![v4(2), v4(3), own(), v4(4)]);
    assert_eq!(node.peer_book.disconnected.key_list(), vec![v4(3), v4(4)]);
    assert_eq!(node.connected_addresses(), vec![v4(1), v4(2)]);
    assert!(!node.peer_book.is_disconnected(own()));
}

#[test]
fn a_full_node_takes_in_peers_all_the_same() {
    let mut node = node_with(2, &[1, 2]);
    node.process_inbound_peers(vec![v4(3)]);
    assert_eq!(node.peer_book.disconnected.key_list(), vec![v4(3)]);

    let mut node = node_with(1, &[1, 2]);
    node.process_inbound_peers(vec![v4(3), v4(4)]);
    assert_eq!(node.peer_book.disconnected.key_list(), vec![v4(3), v4(4)]);
}

#[test]
fn the_own_address_takes_no_other_ones_place() {
    let mut node = node(1);
    node.process_inbound_peers(vec![own(), v4(2)]);
    assert_eq!(node.peer_book.disconnected.key_list(), vec![v4(2)]);
}

#[test]
fn inbound_peers_that_repeat_are_listed_once() {
    let mut node = node(9);
    node.process_inbound_peers(vec![v4(3), v4(3), v4(4)]);
    assert_eq!(node.peer_book.disconnected.key_list(), vec![v4(3), v4(4)]);
}
