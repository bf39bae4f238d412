use peers::address::{IpAddr, SocketAddr};
use peers::address_map::AddressMap;
use peers::clock::{is_no_later, Elapsed, Timestamp};
use peers::error::NetworkError;
use peers::peer_book::{PeerBook, PeerInfo, PeerQuality};

fn v4(host: u8, port: u16) -> SocketAddr {
    SocketAddr::V4 { ip: 0x0a00_0000 + host as u32, port }
}

fn at(secs: i64) -> Timestamp {
    Timestamp { secs, nanos: 0 }
}

#[test]
fn addresses_of_this_host_are_told_apart() {
    assert!(IpAddr::V4(0).is_unspecified());
    assert!(IpAddr::V6(0).is_unspecified());
    assert!(!IpAddr::V4(1).is_unspecified());
    assert!(!IpAddr::V6(1).is_unspecified());

    assert!(IpAddr::V4(0x7f00_0000).is_loopback());
    assert!(IpAddr::V4(0x7f00_0001).is_loopback());
    assert!(IpAddr::V4(0x7fff_ffff).is_loopback());
    assert!(!IpAddr::V4(0x7eff_ffff).is_loopback());
    assert!(!IpAddr::V4(0x8000_0000).is_loopback());
    assert!(IpAddr::V6(1).is_loopback());
    assert!(!IpAddr::V6(2).is_loopback());
    // A mapped IPv4 loopback address is no IPv6 loopback address.
    assert!(!IpAddr::V6(0xffff_7f00_0001).is_loopback());
}

#[test]
fn addresses_have_an_ip_and_a_port() {
    assert_eq!(v4(1, 80).ip(), IpAddr::V4(0x0a00_0001));
    assert_eq!(v4(1, 80).port(), 80);
    let v6 = SocketAddr::V6 { ip: 1, port: 443, flowinfo: 2, scope_id: 3 };
    assert_eq!(v6.ip(), IpAddr::V6(1));
    assert_eq!(v6.port(), 443);
    assert_ne!(v6, SocketAddr::V6 { ip: 1, port: 443, flowinfo: 2, scope_id: 4 });
    assert_ne!(v6, SocketAddr::V6 { ip: 1, port: 443, flowinfo: 1, scope_id: 3 });
}

#[test]
fn map_keeps_the_order_of_insertion() {
    let mut map: AddressMap<u32> = AddressMap::new();
    assert_eq!(map.len(), 0);
    assert_eq!(map.insert(v4(1, 1), 10), None);
    assert_eq!(map.insert(v4(2, 1), 20), None);
    assert_eq!(map.insert(v4(3, 1), 30), None);
    assert_eq!(map.insert(v4(2, 1), 21), Some(20));
    assert_eq!(map.key_list(), vec![v4(1, 1), v4(2, 1), v4(3, 1)]);
    assert_eq!(map.get(v4(2, 1)), Some(&21));
    assert_eq!(map.remove(v4(1, 1)), Some(10));
    assert_eq!(map.remove(v4(1, 1)), None);
    assert_eq!(map.key_list(), vec![v4(2, 1), v4(3, 1)]);
    assert_eq!(map.key_at(1), v4(3, 1));
    assert!(!map.contains_key(v4(1, 1)));
    assert_eq!(map.get(v4(1, 1)), None);
    assert_eq!(map.len(), 2);
}

#[test]
fn never_comes_before_any_time() {
    assert!(is_no_later(None, None));
    assert!(is_no_later(None, Some(at(i64::MIN))));
    assert!(!is_no_later(Some(at(i64::MIN)), None));
    assert!(is_no_later(Some(at(1)), Some(at(1))));
    assert!(is_no_later(Some(at(1)), Some(at(2))));
    assert!(!is_no_later(Some(at(2)), Some(at(1))));
    assert!(is_no_later(
        Some(Timestamp { secs: 1, nanos: 5 }),
        Some(Timestamp { secs: 1, nanos: 6 })
    ));
    assert!(!is_no_later(
        Some(Timestamp { secs: 1, nanos: 7 }),
        Some(Timestamp { secs: 1, nanos: 6 })
    ));
}

#[test]
fn elapsed_time_in_whole_milliseconds() {
    assert_eq!(Elapsed { secs: 0, nanos: 999_999 }.as_millis(), 0);
    assert_eq!(Elapsed { secs: 2, nanos: 1_999_999 }.as_millis(), 2001);
    assert_eq!(
        Elapsed { secs: u64::MAX, nanos: 999_999_999 }.as_millis(),
        u64::MAX as u128 * 1000 + 999
    );
}

#[test]
fn a_peer_has_one_status_at_a_time() {
    let mut book = PeerBook::new();
    let peer = v4(1, 1);
    assert!(!book.is_connecting(peer) && !book.is_connected(peer) && !book.is_disconnected(peer));

    book.add_peer(peer);
    assert!(!book.is_connecting(peer) && !book.is_connected(peer) && book.is_disconnected(peer));

    assert!(book.set_connecting(peer).is_ok());
    assert!(book.is_connecting(peer) && !book.is_connected(peer) && !book.is_disconnected(peer));
    assert!(matches!(book.set_connecting(peer), Err(NetworkError::PeerAlreadyConnecting)));

    assert!(book.set_connected(peer, at(5)).is_ok());
    assert!(!book.is_connecting(peer) && book.is_connected(peer) && !book.is_disconnected(peer));
    assert!(matches!(book.set_connecting(peer), Err(NetworkError::PeerAlreadyConnected)));
    assert!(matches!(book.set_connected(peer, at(6)), Err(NetworkError::PeerAlreadyConnected)));
    assert_eq!(book.connected.get(peer).unwrap().last_connected, Some(at(5)));

    assert!(book.set_disconnected(peer).is_ok());
    assert!(!book.is_connecting(peer) && !book.is_connected(peer) && book.is_disconnected(peer));
    assert_eq!(book.disconnected.get(peer).unwrap().last_connected, Some(at(5)));
    assert_eq!(book.number_of_connected_peers(), 0);
}

#[test]
fn a_connection_given_up_early_leaves_a_disconnected_peer() {
    let mut book = PeerBook::new();
    let peer = v4(1, 1);
    book.set_connecting(peer).unwrap();
    book.set_disconnected(peer).unwrap();
    assert!(!book.is_connecting(peer) && !book.is_connected(peer) && book.is_disconnected(peer));
    assert_eq!(book.disconnected.get(peer).unwrap().last_connected, None);
}

#[test]
fn an_unknown_peer_stays_unknown_when_disconnected() {
    let mut book = PeerBook::new();
    assert!(book.set_disconnected(v4(9, 9)).is_ok());
    assert!(!book.is_disconnected(v4(9, 9)));
}

#[test]
fn a_known_peer_is_not_added_again() {
    let mut book = PeerBook::new();
    let peer = v4(1, 1);
    book.set_connected(peer, at(7)).unwrap();
    book.add_peer(peer);
    assert!(book.is_connected(peer) && !book.is_disconnected(peer));
    book.set_disconnected(peer).unwrap();
    book.add_peer(peer);
    assert_eq!(book.disconnected.get(peer).unwrap().last_connected, Some(at(7)));
}

#[test]
fn the_quality_of_a_connected_peer_can_be_replaced() {
    let mut book = PeerBook::new();
    book.set_connected(v4(1, 1), at(1)).unwrap();
    book.set_connected(v4(2, 1), at(2)).unwrap();
    let mut quality = PeerQuality::new();
    quality.failures = 4;
    book.set_quality(v4(1, 1), quality);
    assert_eq!(book.connected.get(v4(1, 1)).unwrap().quality.failures, 4);
    assert_eq!(book.connected.get(v4(2, 1)).unwrap().quality.failures, 0);
    assert_eq!(book.connected.key_list(), vec![v4(1, 1), v4(2, 1)]);
}

#[test]
fn a_new_peer_is_a_blank_page() {
    let info = PeerInfo::new(v4(1, 1));
    assert_eq!(info.address, v4(1, 1));
    assert_eq!(info.last_connected, None);
    assert_eq!(info.quality.last_seen, None);
    assert!(info.quality.last_ping_sent.is_none());
    assert!(!info.quality.expecting_pong);
    assert_eq!(info.quality.rtt_ms, 0);
    assert_eq!(info.quality.failures, 0);
    assert_eq!(info.quality.remaining_sync_blocks, 0);
}
