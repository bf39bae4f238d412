//! What comes of each call, said of the numbers, addresses and fields that go in and come out.
//!
//! Each law speaks of a function as its callers meet it: the call has been made with the given
//! arguments, and it returned the given result. What a node was before a call is found behind
//! `old`, and what it is after it behind `final`.
use crate::address::{IpAddr, SocketAddr};
use crate::address_map::AddressMap;
use crate::clock::{Elapsed, Timestamp};
use crate::error::NetworkError;
use crate::handshake::{AwaitingReply, Replied};
use crate::message::{Direction, Message, Payload, Version};
use crate::node::{Disconnection, Environment, Node};
use crate::peer_book::{PeerBook, PeerInfo, PeerQuality};
use std::time::Instant;
use vstd::prelude::*;

verus! {

/// The nanoseconds from the Unix epoch to the given time.
pub open spec fn nanos_since_epoch(time: Timestamp) -> int {
    time.secs * 1_000_000_000 + time.nanos
}

/// The first did not happen after the second: it never happened, or both did and its time is no
/// later. Nothing is said of the time within a leap second.
pub open spec fn did_not_happen_after(first: Option<Timestamp>, second: Option<Timestamp>) -> bool {
    first matches Some(x) ==> second matches Some(y) && (x.nanos < 1_000_000_000 && y.nanos
        < 1_000_000_000 ==> nanos_since_epoch(x) <= nanos_since_epoch(y))
}

/// Timestamps are ordered as time is.
pub proof fn law_timestamps_are_ordered_as_time_is(x: Timestamp, y: Timestamp, r: bool)
    requires
        call_ensures(crate::clock::is_no_later, (Some(x), Some(y)), r),
    ensures
        x.nanos < 1_000_000_000 && y.nanos < 1_000_000_000 ==> (r <==> nanos_since_epoch(x)
            <= nanos_since_epoch(y)),
        x.secs < y.secs ==> r,
        x.secs > y.secs ==> !r,
        x.secs == y.secs ==> (r <==> x.nanos <= y.nanos),
        x.at_or_before(y) == r,
{
}

/// What never happened comes before all that did.
pub proof fn law_never_comes_first(x: Option<Timestamp>, y: Option<Timestamp>, r: bool)
    requires
        call_ensures(crate::clock::is_no_later, (x, y), r),
    ensures
        x is None ==> r,
        x is Some && y is None ==> !r,
{
}

/// Of two times one is no later than the other, and both only if they are the same; a time that is
/// no later than a second one is no later than a third that the second is no later than.
pub proof fn law_order_of_times_is_total(
    x: Option<Timestamp>,
    y: Option<Timestamp>,
    z: Option<Timestamp>,
    x_y: bool,
    y_x: bool,
    y_z: bool,
    x_z: bool,
)
    requires
        call_ensures(crate::clock::is_no_later, (x, y), x_y),
        call_ensures(crate::clock::is_no_later, (y, x), y_x),
        call_ensures(crate::clock::is_no_later, (y, z), y_z),
        call_ensures(crate::clock::is_no_later, (x, z), x_z),
    ensures
        x_y || y_x,
        x_y && y_x <==> x == y,
        x_y && y_z ==> x_z,
{
}

/// A length of time has as many whole milliseconds as fit into it.
pub proof fn law_whole_milliseconds(length: &Elapsed, r: u128)
    requires
        call_ensures(Elapsed::as_millis, (length,), r),
    ensures
        r * 1_000_000 <= length.secs * 1_000_000_000 + length.nanos,
        length.secs * 1_000_000_000 + length.nanos < (r + 1) * 1_000_000,
{
}

/// The wildcard addresses are those whose bits are all clear; those of the loopback interface are
/// the IPv4 addresses with a first octet of 127, and the one after the wildcard in IPv6.
pub proof fn law_addresses_of_this_host(ip: &IpAddr, unspecified: bool, loopback: bool)
    requires
        call_ensures(IpAddr::is_unspecified, (ip,), unspecified),
        call_ensures(IpAddr::is_loopback, (ip,), loopback),
    ensures
        *ip matches IpAddr::V4(bits) ==> (unspecified <==> bits == 0) && (loopback <==> bits
            / 0x100_0000 == 127),
        *ip matches IpAddr::V6(bits) ==> (unspecified <==> bits == 0) && (loopback <==> bits == 1),
{
}

/// The IP address and the port of a socket address are the ones that it was made of.
pub proof fn law_parts_of_an_address(address: &SocketAddr, ip: IpAddr, port: u16)
    requires
        call_ensures(SocketAddr::ip, (address,), ip),
        call_ensures(SocketAddr::port, (address,), port),
    ensures
        *address matches SocketAddr::V4 { ip: bits, port: number } ==> ip == IpAddr::V4(bits)
            && port == number,
        *address matches SocketAddr::V6 { ip: bits, port: number, .. } ==> ip == IpAddr::V6(bits)
            && port == number,
{
}

/// A map gives back what was put into it, under the same address and no other, until it is taken
/// out again.
pub proof fn law_map_gives_back_what_was_put_in<V>(
    inserted: &mut AddressMap<V>,
    removed: &mut AddressMap<V>,
    put: SocketAddr,
    value: V,
    asked: SocketAddr,
    previous: Option<V>,
    taken: Option<V>,
    before: Option<&V>,
    between: Option<&V>,
    after: Option<&V>,
)
    requires
        call_ensures(AddressMap::<V>::get, (&*old(inserted), asked), before),
        call_ensures(AddressMap::<V>::insert, (inserted, put, value), previous),
        call_ensures(AddressMap::<V>::get, (&*final(inserted), asked), between),
        *old(removed) == *final(inserted),
        call_ensures(AddressMap::<V>::remove, (removed, put), taken),
        call_ensures(AddressMap::<V>::get, (&*final(removed), asked), after),
    ensures
        asked == put ==> between == Some(&value) && after is None,
        asked != put ==> between == before && after == before,
        asked == put ==> (previous is Some <==> before is Some),
        asked == put ==> (previous matches Some(old_value) ==> before == Some(&old_value)),
        taken == Some(value),
{
}

/// A walk over a map meets each address that has a value once, and no other; the map has as many
/// values as the walk has addresses. A new map has none.
pub proof fn law_walk_meets_each_address_once<V>(
    map: &AddressMap<V>,
    walk: Vec<SocketAddr>,
    count: usize,
    address: SocketAddr,
    value: Option<&V>,
    known: bool,
    empty: AddressMap<V>,
    nothing: Option<&V>,
)
    requires
        map.wf(),
        call_ensures(AddressMap::<V>::key_list, (map,), walk),
        call_ensures(AddressMap::<V>::len, (map,), count),
        call_ensures(AddressMap::<V>::get, (map, address), value),
        call_ensures(AddressMap::<V>::contains_key, (map, address), known),
        call_ensures(AddressMap::<V>::new, (), empty),
        call_ensures(AddressMap::<V>::get, (&empty, address), nothing),
    ensures
        walk@.no_duplicates(),
        walk@.len() == count,
        walk@.contains(address) <==> value is Some,
        known <==> value is Some,
        nothing is None,
{
    map.lemma_keys();
}

/// Nothing is known of a new peer but its address.
pub proof fn law_new_peer_is_unknown(address: SocketAddr, info: PeerInfo, quality: PeerQuality)
    requires
        call_ensures(PeerInfo::new, (address,), info),
        call_ensures(PeerQuality::new, (), quality),
    ensures
        info.address == address,
        info.last_connected is None,
        info.quality == quality,
        quality.last_seen is None,
        quality.last_ping_sent is None,
        !quality.expecting_pong,
        quality.rtt_ms == 0,
        quality.failures == 0,
        quality.remaining_sync_blocks == 0,
{
}

/// What is known of a peer that was neither connecting nor connected: all that the book held of it
/// as a disconnected peer, or nothing but its address.
pub open spec fn known_of_disconnected(book: PeerBook, address: SocketAddr) -> PeerInfo {
    if book.disconnected@.contains_key(address) {
        book.disconnected@[address]
    } else {
        PeerInfo {
            address,
            last_connected: None,
            quality: PeerQuality {
                last_seen: None,
                last_ping_sent: None,
                expecting_pong: false,
                rtt_ms: 0,
                failures: 0,
                remaining_sync_blocks: 0,
            },
        }
    }
}

/// A new book and a new node know of no peers, and a node keeps the way in which it was set up.
pub proof fn law_new_node_knows_nobody<T, C>(
    book: PeerBook,
    environment: Environment,
    node: Node<T, C>,
    address: SocketAddr,
)
    requires
        call_ensures(PeerBook::new, (), book),
        call_ensures(Node::<T, C>::new, (environment,), node),
    ensures
        !book.connecting@.contains_key(address),
        !book.connected@.contains_key(address),
        !book.disconnected@.contains_key(address),
        !node.peer_book.connecting@.contains_key(address),
        !node.peer_book.connected@.contains_key(address),
        !node.peer_book.disconnected@.contains_key(address),
        !node.tasks@.contains_key(address),
        !node.channels@.contains_key(address),
        node.environment == environment,
{
}

/// In a sound book no peer is listed under two statuses, each is listed under its own address, and
/// a pong is expected only of a peer to which a ping went out.
pub proof fn law_peers_have_one_status(book: &PeerBook, address: SocketAddr)
    requires
        book.wf(),
    ensures
        !(book.connecting@.contains_key(address) && book.connected@.contains_key(address)),
        !(book.connecting@.contains_key(address) && book.disconnected@.contains_key(address)),
        !(book.connected@.contains_key(address) && book.disconnected@.contains_key(address)),
        book.connected@.contains_key(address) ==> book.connected@[address].address == address,
        book.connecting@.contains_key(address) ==> book.connecting@[address].address == address,
        book.disconnected@.contains_key(address) ==> book.disconnected@[address].address == address,
        book.connected@.contains_key(address) && book.connected@[address].quality.expecting_pong
            ==> book.connected@[address].quality.last_ping_sent is Some,
{
    assert(!(book@.connecting.contains_key(address) && book@.connected.contains_key(address)));
    assert(!(book@.connected.contains_key(address) && book@.disconnected.contains_key(address)));
}

/// A book tells the status of a peer by the list in which the peer stands, and counts the connected
/// ones.
pub proof fn law_book_tells_the_status(
    book: &PeerBook,
    address: SocketAddr,
    connecting: bool,
    connected: bool,
    disconnected: bool,
    count: usize,
)
    requires
        call_ensures(PeerBook::is_connecting, (book, address), connecting),
        call_ensures(PeerBook::is_connected, (book, address), connected),
        call_ensures(PeerBook::is_disconnected, (book, address), disconnected),
        call_ensures(PeerBook::number_of_connected_peers, (book,), count),
    ensures
        connecting <==> book.connecting@.contains_key(address),
        connected <==> book.connected@.contains_key(address),
        disconnected <==> book.disconnected@.contains_key(address),
        count == book.connected@.len(),
{
}

/// A connection to a peer is begun unless one is being made or has been made. It moves the peer to
/// the connecting ones, with all that was known of it, and touches no other peer.
pub proof fn law_book_begins_connections(
    book: &mut PeerBook,
    address: SocketAddr,
    r: Result<(), NetworkError>,
)
    requires
        old(book).wf(),
        call_ensures(PeerBook::set_connecting, (book, address), r),
    ensures
        r is Ok <==> !old(book).connecting@.contains_key(address) && !old(
            book,
        ).connected@.contains_key(address),
        old(book).connecting@.contains_key(address) ==> r == Err::<(), _>(
            NetworkError::PeerAlreadyConnecting,
        ),
        old(book).connected@.contains_key(address) ==> r == Err::<(), _>(
            NetworkError::PeerAlreadyConnected,
        ),
        r is Err ==> *final(book) == *old(book),
        r is Ok ==> {
            &&& final(book).connecting@ == old(book).connecting@.insert(
                address,
                known_of_disconnected(*old(book), address),
            )
            &&& final(book).connected@ == old(book).connected@
            &&& final(book).disconnected@ == old(book).disconnected@.remove(address)
        },
{
    assert(final(book)@.connecting == final(book).connecting@);
    assert(final(book)@.connected == final(book).connected@);
    assert(final(book)@.disconnected == final(book).disconnected@);
}

/// A connection is made to any peer that is not connected. It moves the peer to the connected ones,
/// with all that was known of it and the time of the connection, and touches no other peer.
pub proof fn law_book_makes_connections(
    book: &mut PeerBook,
    address: SocketAddr,
    now: Timestamp,
    r: Result<(), NetworkError>,
)
    requires
        old(book).wf(),
        call_ensures(PeerBook::set_connected, (book, address, now), r),
    ensures
        r is Ok <==> !old(book).connected@.contains_key(address),
        r is Err ==> r == Err::<(), _>(NetworkError::PeerAlreadyConnected),
        r is Err ==> *final(book) == *old(book),
        r is Ok ==> {
            &&& final(book).connecting@ == old(book).connecting@.remove(address)
            &&& final(book).connected@.contains_key(address)
            &&& final(book).connected@[address].address == address
            &&& final(book).connected@[address].last_connected == Some(now)
            &&& final(book).connected@.remove(address) == old(book).connected@
            &&& final(book).disconnected@ == old(book).disconnected@.remove(address)
        },
        r is Ok && old(book).connecting@.contains_key(address)
            ==> final(book).connected@[address].quality == old(book).connecting@[address].quality,
        r is Ok && !old(book).connecting@.contains_key(address)
            ==> final(book).connected@[address].quality == known_of_disconnected(
            *old(book),
            address,
        ).quality,
{
    assert(old(book)@.connecting == old(book).connecting@);
    if r is Ok {
        assert(final(book)@.connected == final(book).connected@);
        assert(final(book).connected@.remove(address) =~= old(book).connected@);
        assert(final(book)@.connecting == final(book).connecting@);
        assert(final(book)@.disconnected == final(book).disconnected@);
    }
}

/// To give up a connection, made or only begun, always succeeds. It moves the peer to the
/// disconnected ones with all that was known of it, and touches no other peer; a peer without a
/// connection stays where it is.
pub proof fn law_book_gives_up_connections(
    book: &mut PeerBook,
    address: SocketAddr,
    r: Result<(), NetworkError>,
)
    requires
        old(book).wf(),
        call_ensures(PeerBook::set_disconnected, (book, address), r),
    ensures
        r is Ok,
        final(book).connecting@ == old(book).connecting@.remove(address),
        final(book).connected@ == old(book).connected@.remove(address),
        final(book).disconnected@.remove(address) == old(book).disconnected@.remove(address),
        old(book).connecting@.contains_key(address) ==> final(book).disconnected@.contains_key(
            address,
        ) && final(book).disconnected@[address] == old(book).connecting@[address],
        old(book).connected@.contains_key(address) ==> final(book).disconnected@.contains_key(
            address,
        ) && final(book).disconnected@[address] == old(book).connected@[address],
        !old(book).connecting@.contains_key(address) && !old(book).connected@.contains_key(address)
            ==> final(book).disconnected@ == old(book).disconnected@,
{
    law_peers_have_one_status(&*old(book), address);
    assert(final(book)@.connecting == final(book).connecting@);
    assert(final(book)@.connected == final(book).connected@);
    assert(final(book)@.disconnected == final(book).disconnected@);
    assert(final(book).connecting@ =~= old(book).connecting@.remove(address));
    assert(final(book).connected@ =~= old(book).connected@.remove(address));
    assert(final(book).disconnected@.remove(address) =~= old(book).disconnected@.remove(address));
}

/// A peer that is learned of is listed as disconnected, with nothing known of it, if it was in none
/// of the lists. Otherwise nothing changes.
pub proof fn law_book_learns_of_new_peers(book: &mut PeerBook, address: SocketAddr)
    requires
        call_ensures(PeerBook::add_peer, (book, address), ()),
    ensures
        final(book).connecting@ == old(book).connecting@,
        final(book).connected@ == old(book).connected@,
        final(book).disconnected@ == if old(book).connecting@.contains_key(address) || old(
            book,
        ).connected@.contains_key(address) || old(book).disconnected@.contains_key(address) {
            old(book).disconnected@
        } else {
            old(book).disconnected@.insert(address, known_of_disconnected(*old(book), address))
        },
{
    assert(final(book)@.connecting == final(book).connecting@);
    assert(final(book)@.connected == final(book).connected@);
    assert(final(book)@.disconnected == final(book).disconnected@);
}

/// A new quality replaces that of the one connected peer, of which nothing else changes.
pub proof fn law_book_replaces_qualities(
    book: &mut PeerBook,
    address: SocketAddr,
    quality: PeerQuality,
)
    requires
        old(book).connected@.contains_key(address),
        call_ensures(PeerBook::set_quality, (book, address, quality), ()),
    ensures
        final(book).connecting@ == old(book).connecting@,
        final(book).disconnected@ == old(book).disconnected@,
        final(book).connected@ == old(book).connected@.insert(
            address,
            PeerInfo {
                address: old(book).connected@[address].address,
                last_connected: old(book).connected@[address].last_connected,
                quality,
            },
        ),
{
    assert(final(book)@.connecting == final(book).connecting@);
    assert(final(book)@.connected == final(book).connected@);
    assert(final(book)@.disconnected == final(book).disconnected@);
}

/// The one connected peer has the given quality now, and nothing else of the node differs.
pub open spec fn only_quality_differs<T, C>(
    before: Node<T, C>,
    after: Node<T, C>,
    address: SocketAddr,
    quality: PeerQuality,
) -> bool {
    &&& after.environment == before.environment
    &&& after.tasks == before.tasks
    &&& after.channels == before.channels
    &&& after.peer_book.connecting@ == before.peer_book.connecting@
    &&& after.peer_book.disconnected@ == before.peer_book.disconnected@
    &&& before.peer_book.connected@.contains_key(address)
    &&& after.peer_book.connected@ == before.peer_book.connected@.insert(
        address,
        PeerInfo {
            address: before.peer_book.connected@[address].address,
            last_connected: before.peer_book.connected@[address].last_connected,
            quality,
        },
    )
}

pub(crate) proof fn lemma_new_quality<T, C>(
    before: Node<T, C>,
    after: Node<T, C>,
    address: SocketAddr,
    quality: PeerQuality,
)
    requires
        before.connected(address),
        after.has_new_quality(&before, address, quality),
    ensures
        only_quality_differs(before, after, address, quality),
{
    assert(after.peer_book@.connecting == after.peer_book.connecting@);
    assert(after.peer_book@.connected == after.peer_book.connected@);
    assert(after.peer_book@.disconnected == after.peer_book.disconnected@);
}

/// The quality of a peer is had if and only if the peer is connected.
pub proof fn law_quality_is_that_of_a_connected_peer<T, C>(
    node: &Node<T, C>,
    address: SocketAddr,
    r: Option<PeerQuality>,
)
    requires
        call_ensures(Node::<T, C>::peer_quality, (node, address), r),
    ensures
        r == if node.peer_book.connected@.contains_key(address) {
            Some(node.peer_book.connected@[address].quality)
        } else {
            None
        },
{
}

/// A connected peer that was heard of is seen at that time. A peer that is not connected is
/// ignored.
pub proof fn law_peer_is_seen_when_heard_of<T, C>(
    node: &mut Node<T, C>,
    address: SocketAddr,
    now: Timestamp,
)
    requires
        call_ensures(Node::<T, C>::update_last_seen_at, (node, address, now), ()),
    ensures
        old(node).peer_book.connected@.contains_key(address) ==> only_quality_differs(
            *old(node),
            *final(node),
            address,
            PeerQuality {
                last_seen: Some(now),
                ..old(node).peer_book.connected@[address].quality
            },
        ),
        !old(node).peer_book.connected@.contains_key(address) ==> *final(node) == *old(node),
{
    if old(node).connected(address) {
        let quality = PeerQuality {
            last_seen: Some(now),
            ..old(node).peer_book.connected@[address].quality
        };
        lemma_new_quality(*old(node), *final(node), address, quality);
    }
}

/// A connected peer that was heard of just now is seen at a time that was read from the clock for
/// it, whenever it was seen before.
pub proof fn law_peer_is_seen_now<T, C>(node: &mut Node<T, C>, address: SocketAddr)
    requires
        call_ensures(Node::<T, C>::update_last_seen, (node, address), ()),
    ensures
        old(node).peer_book.connected@.contains_key(address) ==> {
            let before = old(node).peer_book.connected@[address].quality;
            let after = final(node).peer_book.connected@[address].quality;
            &&& after.last_seen is Some
            &&& crate::clock::is_time_read(after.last_seen->0)
            &&& only_quality_differs(
                *old(node),
                *final(node),
                address,
                PeerQuality { last_seen: after.last_seen, ..before },
            )
        },
        !old(node).peer_book.connected@.contains_key(address) ==> *final(node) == *old(node),
{
    if old(node).connected(address) {
        let before = old(node).peer_book.connected@[address].quality;
        let now = choose|now: Timestamp|
            crate::clock::is_time_read(now) && #[trigger] final(node).has_new_quality(
                &*old(node),
                address,
                old(node).quality(address).seen(now),
            );
        let quality = PeerQuality { last_seen: Some(now), ..before };
        lemma_new_quality(*old(node), *final(node), address, quality);
    }
}

/// The peer last seen is a connected one, and no connected peer was heard of after it. There is one
/// unless no peer is connected.
pub proof fn law_last_seen_is_the_latest<T, C>(
    node: &Node<T, C>,
    r: Option<SocketAddr>,
    other: SocketAddr,
)
    requires
        node.wf(),
        call_ensures(Node::<T, C>::last_seen, (node,), r),
    ensures
        node.peer_book.connected@.contains_key(other) ==> r is Some,
        r is Some ==> node.peer_book.connected@.contains_key(r->0),
        node.peer_book.connected@.contains_key(other) ==> did_not_happen_after(
            node.peer_book.connected@[other].quality.last_seen,
            node.peer_book.connected@[r->0].quality.last_seen,
        ),
{
    node.peer_book.connected.lemma_keys();
    assert(node.peer_book@.connected == node.peer_book.connected@);
    if node.peer_book.connected@.contains_key(other) {
        assert(node.connected(other));
        if node.peer_book.connected@.dom().len() == 0 {
            assert(node.peer_book.connected@.dom() =~= Set::empty());
        }
    }
}

/// A connected peer that is heard of at a time after every other was is the one last seen.
pub proof fn law_peer_heard_of_last_is_last_seen<T, C>(
    node: &mut Node<T, C>,
    address: SocketAddr,
    now: Timestamp,
    r: Option<SocketAddr>,
)
    requires
        old(node).peer_book.connected@.contains_key(address),
        call_ensures(Node::<T, C>::update_last_seen_at, (node, address, now), ()),
        call_ensures(Node::<T, C>::last_seen, (&*final(node),), r),
        final(node).wf(),
        now.nanos < 1_000_000_000,
        forall|other: SocketAddr| #[trigger]
            old(node).peer_book.connected@.contains_key(other) && other != address ==> (old(
                node,
            ).peer_book.connected@[other].quality.last_seen matches Some(time) ==> time.nanos
                < 1_000_000_000 && nanos_since_epoch(time) < nanos_since_epoch(now)),
    ensures
        r == Some(address),
{
    law_peer_is_seen_when_heard_of(node, address, now);
    law_last_seen_is_the_latest(&*final(node), r, address);
    if r->0 != address {
        assert(old(node).peer_book.connected@.contains_key(r->0));
    }
}

/// A ping to a connected peer is recorded with its instant, and a pong is expected from then on.
pub proof fn law_ping_is_recorded<T, C>(node: &mut Node<T, C>, target: SocketAddr, now: Instant)
    requires
        call_ensures(Node::<T, C>::sending_ping_at, (node, target, now), ()),
    ensures
        old(node).peer_book.connected@.contains_key(target) ==> only_quality_differs(
            *old(node),
            *final(node),
            target,
            PeerQuality {
                last_ping_sent: Some(now),
                expecting_pong: true,
                ..old(node).peer_book.connected@[target].quality
            },
        ),
        !old(node).peer_book.connected@.contains_key(target) ==> *final(node) == *old(node),
{
    if old(node).connected(target) {
        let quality = PeerQuality {
            last_ping_sent: Some(now),
            expecting_pong: true,
            ..old(node).peer_book.connected@[target].quality
        };
        lemma_new_quality(*old(node), *final(node), target, quality);
    }
}

/// A ping that goes out to a connected peer is stamped with an instant that `Instant::now` returned
/// for it, whatever stamp an earlier ping had, and a pong is expected from then on.
pub proof fn law_ping_is_stamped_by_the_clock<T, C>(node: &mut Node<T, C>, target: SocketAddr)
    requires
        call_ensures(Node::<T, C>::sending_ping, (node, target), ()),
    ensures
        old(node).peer_book.connected@.contains_key(target) ==> {
            let before = old(node).peer_book.connected@[target].quality;
            let after = final(node).peer_book.connected@[target].quality;
            &&& after.last_ping_sent is Some
            &&& call_ensures(Instant::now, (), after.last_ping_sent->0)
            &&& only_quality_differs(
                *old(node),
                *final(node),
                target,
                PeerQuality {
                    last_ping_sent: after.last_ping_sent,
                    expecting_pong: true,
                    ..before
                },
            )
        },
        !old(node).peer_book.connected@.contains_key(target) ==> *final(node) == *old(node),
{
    if old(node).connected(target) {
        let before = old(node).peer_book.connected@[target].quality;
        let now = choose|now: Instant|
            crate::clock::is_instant_read(now) && #[trigger] final(node).has_new_quality(
                &*old(node),
                target,
                old(node).quality(target).pinged(now),
            );
        let quality = PeerQuality { last_ping_sent: Some(now), expecting_pong: true, ..before };
        lemma_new_quality(*old(node), *final(node), target, quality);
    }
}

/// A pong from a connected peer of which one was expected gives the round-trip time in whole
/// milliseconds, and no further one is expected. Any other is a failure of the peer.
pub proof fn law_pong_is_recorded<T, C>(
    node: &mut Node<T, C>,
    source: SocketAddr,
    elapsed: Elapsed,
)
    requires
        call_ensures(Node::<T, C>::received_pong_after, (node, source, elapsed), ()),
    ensures
        !old(node).peer_book.connected@.contains_key(source) ==> *final(node) == *old(node),
        old(node).peer_book.connected@.contains_key(source) && old(
            node,
        ).peer_book.connected@[source].quality.expecting_pong ==> only_quality_differs(
            *old(node),
            *final(node),
            source,
            PeerQuality {
                rtt_ms: ((elapsed.secs * 1_000_000_000 + elapsed.nanos) / 1_000_000
                    % 0x1_0000_0000_0000_0000) as u64,
                expecting_pong: false,
                ..old(node).peer_book.connected@[source].quality
            },
        ),
        old(node).peer_book.connected@.contains_key(source) && !old(
            node,
        ).peer_book.connected@[source].quality.expecting_pong ==> {
            let before = old(node).peer_book.connected@[source].quality;
            let after = final(node).peer_book.connected@[source].quality;
            &&& only_quality_differs(
                *old(node),
                *final(node),
                source,
                PeerQuality { failures: after.failures, ..before },
            )
            &&& before.failures < u32::MAX ==> after.failures == before.failures + 1
            &&& before.failures == u32::MAX ==> after.failures == 0
        },
{
    if old(node).connected(source) {
        let before = old(node).peer_book.connected@[source].quality;
        assert((elapsed.secs * 1_000_000_000 + elapsed.nanos) / 1_000_000 == elapsed.millis());
        lemma_new_quality(*old(node), *final(node), source, before.ponged(elapsed));
    }
}

/// The round-trip time of a pong that answers a ping is the time from an instant that
/// `Instant::now` returned for that ping, whatever pings went out before.
pub proof fn law_round_trip_starts_with_the_latest_ping<T, C>(
    pinged: &mut Node<T, C>,
    ponged: &mut Node<T, C>,
    peer: SocketAddr,
)
    requires
        old(pinged).peer_book.connected@.contains_key(peer),
        call_ensures(Node::<T, C>::sending_ping, (pinged, peer), ()),
        *old(ponged) == *final(pinged),
        call_ensures(Node::<T, C>::received_pong, (ponged, peer), ()),
    ensures
        exists|sent: Instant, secs: u64, nanos: u32|
            {
                &&& call_ensures(Instant::now, (), sent)
                &&& #[trigger] crate::clock::may_elapse_since(sent, secs, nanos)
                &&& only_quality_differs(
                    *old(pinged),
                    *final(ponged),
                    peer,
                    PeerQuality {
                        last_ping_sent: Some(sent),
                        expecting_pong: false,
                        rtt_ms: ((secs * 1_000_000_000 + nanos) / 1_000_000
                            % 0x1_0000_0000_0000_0000) as u64,
                        ..old(pinged).peer_book.connected@[peer].quality
                    },
                )
            },
{
    law_ping_is_stamped_by_the_clock(pinged, peer);
    let first = old(pinged).peer_book.connected@[peer].quality;
    let second = final(pinged).peer_book.connected@[peer].quality;
    let sent = second.last_ping_sent->0;
    let elapsed = choose|elapsed: Elapsed|
        {
            &&& elapsed.nanos < 1_000_000_000
            &&& old(ponged).quality(peer).expecting_pong ==> crate::clock::may_elapse_since(
                old(ponged).quality(peer).last_ping_sent->0,
                elapsed.secs,
                elapsed.nanos,
            )
            &&& #[trigger] final(ponged).has_new_quality(
                &*old(ponged),
                peer,
                old(ponged).quality(peer).ponged(elapsed),
            )
        };
    assert(old(ponged).connected(peer));
    lemma_new_quality(*old(ponged), *final(ponged), peer, second.ponged(elapsed));
    assert((elapsed.secs * 1_000_000_000 + elapsed.nanos) / 1_000_000 == elapsed.millis());
    assert(crate::clock::may_elapse_since(sent, elapsed.secs, elapsed.nanos));
    assert(final(ponged).peer_book.connected@ =~= old(pinged).peer_book.connected@.insert(
        peer,
        final(ponged).peer_book.connected@[peer],
    ));
}

/// A pong that was expected gives a time that may have gone by since the latest ping to the peer, in
/// whole milliseconds, and no further one is expected.
pub proof fn law_expected_pong_gives_the_time_since_the_ping<T, C>(
    node: &mut Node<T, C>,
    source: SocketAddr,
)
    requires
        old(node).peer_book.connected@.contains_key(source),
        old(node).peer_book.connected@[source].quality.expecting_pong,
        call_ensures(Node::<T, C>::received_pong, (node, source), ()),
    ensures
        exists|secs: u64, nanos: u32|
            {
                &&& nanos < 1_000_000_000
                &&& #[trigger] crate::clock::may_elapse_since(
                    old(node).peer_book.connected@[source].quality.last_ping_sent->0,
                    secs,
                    nanos,
                )
                &&& only_quality_differs(
                    *old(node),
                    *final(node),
                    source,
                    PeerQuality {
                        expecting_pong: false,
                        rtt_ms: ((secs * 1_000_000_000 + nanos) / 1_000_000
                            % 0x1_0000_0000_0000_0000) as u64,
                        ..old(node).peer_book.connected@[source].quality
                    },
                )
            },
{
    let before = old(node).peer_book.connected@[source].quality;
    assert(old(node).connected(source) && old(node).quality(source) == before);
    let elapsed = choose|elapsed: Elapsed|
        {
            &&& elapsed.nanos < 1_000_000_000
            &&& old(node).quality(source).expecting_pong ==> crate::clock::may_elapse_since(
                old(node).quality(source).last_ping_sent->0,
                elapsed.secs,
                elapsed.nanos,
            )
            &&& #[trigger] final(node).has_new_quality(
                &*old(node),
                source,
                old(node).quality(source).ponged(elapsed),
            )
        };
    assert((elapsed.secs * 1_000_000_000 + elapsed.nanos) / 1_000_000 == elapsed.millis());
    lemma_new_quality(*old(node), *final(node), source, before.ponged(elapsed));
    assert(crate::clock::may_elapse_since(
        before.last_ping_sent->0,
        elapsed.secs,
        elapsed.nanos,
    ));
}

/// An incoming pong of a peer from which none was expected counts one failure; one of a peer that
/// is not connected is ignored.
pub proof fn law_unexpected_pong_is_a_failure<T, C>(node: &mut Node<T, C>, source: SocketAddr)
    requires
        call_ensures(Node::<T, C>::received_pong, (node, source), ()),
    ensures
        !old(node).peer_book.connected@.contains_key(source) ==> *final(node) == *old(node),
        old(node).peer_book.connected@.contains_key(source) && !old(
            node,
        ).peer_book.connected@[source].quality.expecting_pong ==> {
            let before = old(node).peer_book.connected@[source].quality;
            let after = final(node).peer_book.connected@[source].quality;
            &&& only_quality_differs(
                *old(node),
                *final(node),
                source,
                PeerQuality { failures: after.failures, ..before },
            )
            &&& before.failures < u32::MAX ==> after.failures == before.failures + 1
            &&& before.failures == u32::MAX ==> after.failures == 0
        },
{
    if old(node).connected(source) && !old(node).quality(source).expecting_pong {
        let elapsed = choose|elapsed: Elapsed| #[trigger]
            final(node).has_new_quality(
                &*old(node),
                source,
                old(node).quality(source).ponged(elapsed),
            );
        lemma_new_quality(
            *old(node),
            *final(node),
            source,
            old(node).quality(source).ponged(elapsed),
        );
    }
}

/// As many blocks are still to come from a connected peer as were said to be expected.
pub proof fn law_expected_blocks_are_counted<T, C>(
    node: &mut Node<T, C>,
    address: SocketAddr,
    count: usize,
)
    requires
        call_ensures(Node::<T, C>::expecting_sync_blocks, (node, address, count), ()),
    ensures
        old(node).peer_book.connected@.contains_key(address) ==> only_quality_differs(
            *old(node),
            *final(node),
            address,
            PeerQuality {
                remaining_sync_blocks: count,
                ..old(node).peer_book.connected@[address].quality
            },
        ),
        !old(node).peer_book.connected@.contains_key(address) ==> *final(node) == *old(node),
{
    if old(node).connected(address) {
        let quality = PeerQuality {
            remaining_sync_blocks: count,
            ..old(node).peer_book.connected@[address].quality
        };
        lemma_new_quality(*old(node), *final(node), address, quality);
    }
}

/// A block from a connected peer is one less to come, and the sync is over with the last one. A
/// block of which none was to come leaves the most that sixteen bits can count. With a peer that is
/// not connected the sync is over.
pub proof fn law_received_blocks_are_counted<T, C>(
    node: &mut Node<T, C>,
    address: SocketAddr,
    r: bool,
)
    requires
        call_ensures(Node::<T, C>::got_sync_block, (node, address), r),
    ensures
        old(node).peer_book.connected@.contains_key(address) ==> {
            let before = old(node).peer_book.connected@[address].quality;
            let after = final(node).peer_book.connected@[address].quality;
            &&& only_quality_differs(
                *old(node),
                *final(node),
                address,
                PeerQuality { remaining_sync_blocks: after.remaining_sync_blocks, ..before },
            )
            &&& before.remaining_sync_blocks > 0 ==> after.remaining_sync_blocks + 1
                == before.remaining_sync_blocks
            &&& before.remaining_sync_blocks == 0 ==> after.remaining_sync_blocks == 65535
            &&& r <==> before.remaining_sync_blocks > 0 && after.remaining_sync_blocks == 0
        },
        !old(node).peer_book.connected@.contains_key(address) ==> r && *final(node) == *old(node),
{
    if old(node).connected(address) {
        let before = old(node).peer_book.connected@[address].quality;
        lemma_new_quality(*old(node), *final(node), address, before.got_block());
    }
}

/// A sync with a peer is under way while the peer is connected and blocks are still to come from
/// it.
pub proof fn law_sync_is_under_way_while_blocks_are_to_come<T, C>(
    node: &Node<T, C>,
    address: SocketAddr,
    r: bool,
)
    requires
        call_ensures(Node::<T, C>::is_syncing_blocks, (node, address), r),
    ensures
        r <==> node.peer_book.connected@.contains_key(address)
            && node.peer_book.connected@[address].quality.remaining_sync_blocks > 0,
{
}

/// A sync that was agreed on is under way, and the call that takes in its only block ends it.
pub proof fn law_sync_of_one_block<T, C>(
    agreed: &mut Node<T, C>,
    received: &mut Node<T, C>,
    address: SocketAddr,
    before: bool,
    finished: bool,
    after: bool,
)
    requires
        old(agreed).peer_book.connected@.contains_key(address),
        call_ensures(Node::<T, C>::expecting_sync_blocks, (agreed, address, 1usize), ()),
        call_ensures(Node::<T, C>::is_syncing_blocks, (&*final(agreed), address), before),
        *old(received) == *final(agreed),
        call_ensures(Node::<T, C>::got_sync_block, (received, address), finished),
        call_ensures(Node::<T, C>::is_syncing_blocks, (&*final(received), address), after),
    ensures
        before,
        finished,
        !after,
{
    law_expected_blocks_are_counted(agreed, address, 1usize);
    law_received_blocks_are_counted(received, address, finished);
}

/// What is left to do for a peer that is disconnected: the consensus hears of a sync that was under
/// way, and the task that listened to the peer is handed over.
pub open spec fn is_left_to_do<T, C>(before: Node<T, C>, left: Disconnection<T>) -> bool {
    let address = left.address;
    &&& left.finished_syncing_blocks <==> before.peer_book.connected@.contains_key(address)
        && before.peer_book.connected@[address].quality.remaining_sync_blocks > 0
    &&& left.task == if before.tasks@.contains_key(address) {
        Some(before.tasks@[address])
    } else {
        None
    }
    &&& left.result is Ok
}

/// A peer that is disconnected loses its task and its channel, and the book lists it as
/// disconnected with all that was known of it. No other peer is affected.
pub proof fn law_disconnected_peer_is_let_go<T, C>(
    node: &mut Node<T, C>,
    address: SocketAddr,
    r: Disconnection<T>,
)
    requires
        old(node).wf(),
        call_ensures(Node::<T, C>::disconnect_from_peer, (node, address), r),
    ensures
        r.address == address,
        is_left_to_do(*old(node), r),
        final(node).environment == old(node).environment,
        final(node).tasks@ == old(node).tasks@.remove(address),
        final(node).channels@ == old(node).channels@.remove(address),
        ({
            let before = old(node).peer_book;
            let after = final(node).peer_book;
            &&& after.connecting@ == before.connecting@.remove(address)
            &&& after.connected@ == before.connected@.remove(address)
            &&& after.disconnected@.remove(address) == before.disconnected@.remove(address)
            &&& before.connecting@.contains_key(address) ==> after.disconnected@.contains_key(
                address,
            ) && after.disconnected@[address] == before.connecting@[address]
            &&& before.connected@.contains_key(address) ==> after.disconnected@.contains_key(
                address,
            ) && after.disconnected@[address] == before.connected@[address]
            &&& !before.connecting@.contains_key(address) && !before.connected@.contains_key(
                address,
            ) ==> after.disconnected@ == before.disconnected@
        }),
{
    lemma_book_given_up(old(node).peer_book, final(node).peer_book, address);
}

/// What the book is once a connection was given up.
pub(crate) proof fn lemma_book_given_up(before: PeerBook, after: PeerBook, address: SocketAddr)
    requires
        before.wf(),
        after@ == before@.with_disconnected(address),
    ensures
        after.connecting@ == before.connecting@.remove(address),
        after.connected@ == before.connected@.remove(address),
        after.disconnected@.remove(address) == before.disconnected@.remove(address),
        before.connecting@.contains_key(address) ==> after.disconnected@.contains_key(address)
            && after.disconnected@[address] == before.connecting@[address],
        before.connected@.contains_key(address) ==> after.disconnected@.contains_key(address)
            && after.disconnected@[address] == before.connected@[address],
        !before.connecting@.contains_key(address) && !before.connected@.contains_key(address)
            ==> after.disconnected@ == before.disconnected@,
{
    law_peers_have_one_status(&before, address);
    assert(after@.connecting == after.connecting@);
    assert(after@.connected == after.connected@);
    assert(after@.disconnected == after.disconnected@);
    assert(after.connecting@ =~= before.connecting@.remove(address));
    assert(after.connected@ =~= before.connected@.remove(address));
    assert(after.disconnected@.remove(address) =~= before.disconnected@.remove(address));
}

/// The address is that of the node itself: it is the one on which the node listens, or it has the
/// same port and an IP address that stands for whatever host it is used on, the wildcard or one of
/// the loopback interface.
pub open spec fn is_this_node(remote: SocketAddr, own: SocketAddr) -> bool {
    let own_port = match own {
        SocketAddr::V4 { port, .. } => port,
        SocketAddr::V6 { port, .. } => port,
    };
    remote == own || match remote {
        SocketAddr::V4 { ip, port } => (ip == 0 || ip / 0x100_0000 == 127) && port == own_port,
        SocketAddr::V6 { ip, port, .. } => (ip == 0 || ip == 1) && port == own_port,
    }
}

/// A connection is begun to every peer that is not the node itself and is neither connecting nor
/// connected, and to no other. It lists the peer as connecting, with all that was known of it, and
/// changes nothing else.
pub proof fn law_connection_is_begun_where_there_is_none<T, C>(
    node: &mut Node<T, C>,
    own: SocketAddr,
    remote: SocketAddr,
    r: Result<(), NetworkError>,
)
    requires
        old(node).wf(),
        old(node).environment.local_address == Some(own),
        call_ensures(Node::<T, C>::initiate_connection, (node, remote), r),
    ensures
        r is Ok <==> !is_this_node(remote, own) && !old(
            node,
        ).peer_book.connecting@.contains_key(remote) && !old(
            node,
        ).peer_book.connected@.contains_key(remote),
        r == Err::<(), _>(NetworkError::SelfConnectAttempt) <==> is_this_node(remote, own),
        r == Err::<(), _>(NetworkError::PeerAlreadyConnecting) <==> !is_this_node(remote, own)
            && old(node).peer_book.connecting@.contains_key(remote),
        r == Err::<(), _>(NetworkError::PeerAlreadyConnected) <==> !is_this_node(remote, own)
            && old(node).peer_book.connected@.contains_key(remote),
        r is Err ==> *final(node) == *old(node),
        r is Ok ==> {
            let before = old(node).peer_book;
            let after = final(node).peer_book;
            &&& after.connecting@ == before.connecting@.insert(
                remote,
                known_of_disconnected(before, remote),
            )
            &&& after.connected@ == before.connected@
            &&& after.disconnected@ == before.disconnected@.remove(remote)
            &&& final(node).environment == old(node).environment
            &&& final(node).tasks == old(node).tasks
            &&& final(node).channels == old(node).channels
        },
{
    law_peers_have_one_status(&old(node).peer_book, remote);
    let before = old(node).peer_book;
    let after = final(node).peer_book;
    assert(before@.connecting == before.connecting@ && before@.connected == before.connected@);
    assert(after@.connecting == after.connecting@);
    assert(after@.connected == after.connected@);
    assert(after@.disconnected == after.disconnected@);
}

/// Two nodes on one host that listen on different ports can connect to one another.
pub proof fn law_nodes_on_one_host_can_connect<T, C>(
    node: &mut Node<T, C>,
    ip: u32,
    own_port: u16,
    remote_port: u16,
    r: Result<(), NetworkError>,
)
    requires
        old(node).wf(),
        own_port != remote_port,
        old(node).environment.local_address == Some(SocketAddr::V4 { ip, port: own_port }),
        !old(node).peer_book.connecting@.contains_key(SocketAddr::V4 { ip, port: remote_port }),
        !old(node).peer_book.connected@.contains_key(SocketAddr::V4 { ip, port: remote_port }),
        call_ensures(
            Node::<T, C>::initiate_connection,
            (node, SocketAddr::V4 { ip, port: remote_port }),
            r,
        ),
    ensures
        r is Ok,
        final(node).peer_book.connecting@.contains_key(SocketAddr::V4 { ip, port: remote_port }),
{
    law_connection_is_begun_where_there_is_none(
        node,
        SocketAddr::V4 { ip, port: own_port },
        SocketAddr::V4 { ip, port: remote_port },
        r,
    );
}

/// A handshake that is completed at the given time leads to the peer through the channel, and lists
/// a peer that was not connected as connected since then, with all that was known of it.
pub open spec fn is_connected_since<T, C>(
    before: Node<T, C>,
    after: Node<T, C>,
    address: SocketAddr,
    channel: C,
    now: Timestamp,
    r: Result<(), NetworkError>,
) -> bool {
    let old_book = before.peer_book;
    let new_book = after.peer_book;
    &&& after.environment == before.environment
    &&& after.tasks == before.tasks
    &&& after.channels@ == before.channels@.insert(address, channel)
    &&& if old_book.connected@.contains_key(address) {
        r == Err::<(), _>(NetworkError::PeerAlreadyConnected) && new_book == old_book
    } else {
        &&& r is Ok
        &&& new_book.connecting@ == old_book.connecting@.remove(address)
        &&& new_book.disconnected@ == old_book.disconnected@.remove(address)
        &&& new_book.connected@ == old_book.connected@.insert(
            address,
            PeerInfo {
                address,
                last_connected: Some(now),
                quality: if old_book.connecting@.contains_key(address) {
                    old_book.connecting@[address].quality
                } else {
                    known_of_disconnected(old_book, address).quality
                },
            },
        )
    }
}

proof fn lemma_connected_since<T, C>(
    before: Node<T, C>,
    after: Node<T, C>,
    address: SocketAddr,
    channel: C,
    now: Timestamp,
    r: Result<(), NetworkError>,
)
    requires
        before.wf(),
        crate::node::completed(&before, &after, address, channel, now, r),
    ensures
        is_connected_since(before, after, address, channel, now, r),
{
    law_peers_have_one_status(&before.peer_book, address);
    assert(before.peer_book@.connecting == before.peer_book.connecting@);
    assert(before.peer_book@.connected == before.peer_book.connected@);
    assert(before.peer_book@.disconnected == before.peer_book.disconnected@);
    assert(after.peer_book@.connecting == after.peer_book.connecting@);
    assert(after.peer_book@.connected == after.peer_book.connected@);
    assert(after.peer_book@.disconnected == after.peer_book.disconnected@);
}

/// A completed handshake lists the peer as connected since the given time.
pub proof fn law_connection_is_completed<T, C>(
    node: &mut Node<T, C>,
    address: SocketAddr,
    channel: C,
    now: Timestamp,
    r: Result<(), NetworkError>,
)
    requires
        old(node).wf(),
        call_ensures(Node::<T, C>::complete_connection_at, (node, address, channel, now), r),
    ensures
        is_connected_since(*old(node), *final(node), address, channel, now, r),
{
    lemma_connected_since(*old(node), *final(node), address, channel, now, r);
}

/// A handshake that is completed just now lists the peer as connected since a time that was read
/// from the clock for it.
pub proof fn law_connection_is_completed_now<T, C>(
    node: &mut Node<T, C>,
    address: SocketAddr,
    channel: C,
    r: Result<(), NetworkError>,
)
    requires
        old(node).wf(),
        call_ensures(Node::<T, C>::complete_connection, (node, address, channel), r),
    ensures
        exists|now: Timestamp| #[trigger]
            crate::clock::is_time_read(now) && is_connected_since(
                *old(node),
                *final(node),
                address,
                channel,
                now,
                r,
            ),
{
    let now = choose|now: Timestamp|
        crate::clock::is_time_read(now) && #[trigger] crate::node::completed(
            &*old(node),
            &*final(node),
            address,
            channel,
            now,
            r,
        );
    lemma_connected_since(*old(node), *final(node), address, channel, now, r);
}

/// The bootnodes to connect to are those that are not connected, as often and in the order in which
/// they are set up.
pub proof fn law_bootnodes_that_are_not_connected<T, C>(node: &Node<T, C>, r: Vec<SocketAddr>)
    requires
        call_ensures(Node::<T, C>::connect_to_bootnodes, (node,), r),
    ensures
        r@ == node.environment.bootnodes@.filter(
            |address: SocketAddr| !node.peer_book.connected@.contains_key(address),
        ),
{
    let keep = |address: SocketAddr| !node.peer_book.connected@.contains_key(address);
    assert(crate::node::not_connected(node.peer_book@) =~= keep);
}

/// The disconnected peers to connect to are as many as asked for, or all there are, and each is
/// turned to once. They are the first that a walk over the disconnected peers meets.
pub proof fn law_disconnected_peers_up_to_a_number<T, C>(
    node: &Node<T, C>,
    count: usize,
    r: Vec<SocketAddr>,
    walk: Vec<SocketAddr>,
)
    requires
        node.wf(),
        call_ensures(Node::<T, C>::connect_to_disconnected_peers, (node, count), r),
        call_ensures(
            AddressMap::<PeerInfo>::key_list,
            (&node.peer_book.disconnected,),
            walk,
        ),
    ensures
        r@.len() == vstd::math::min(count as int, node.peer_book.disconnected@.len() as int),
        r@.no_duplicates(),
        r@.is_prefix_of(walk@),
        forall|i: int|
            0 <= i < r@.len() ==> node.peer_book.disconnected@.contains_key(#[trigger] r@[i]),
{
    node.peer_book.disconnected.lemma_keys();
    assert(node.peer_book@.disconnected == node.peer_book.disconnected@);
    assert forall|i: int|
        0 <= i < r@.len() implies node.peer_book.disconnected@.contains_key(#[trigger] r@[i]) by {
        assert(node.peer_book.disconnected.keys().contains(r@[i]));
    }
}

/// The addresses of the connected peers are theirs, each once.
pub proof fn law_connected_addresses<T, C>(
    node: &Node<T, C>,
    r: Vec<SocketAddr>,
    address: SocketAddr,
)
    requires
        node.wf(),
        call_ensures(Node::<T, C>::connected_addresses, (node,), r),
    ensures
        r@.no_duplicates(),
        r@.len() == node.peer_book.connected@.len(),
        r@.contains(address) <==> node.peer_book.connected@.contains_key(address),
{
    node.peer_book.connected.lemma_keys();
}

/// The answer to a peer that asks for peers goes to that peer, and names each connected peer but
/// that one.
pub proof fn law_asking_peer_is_answered<T, C>(
    node: &Node<T, C>,
    asking: SocketAddr,
    r: Message,
    address: SocketAddr,
)
    requires
        node.wf(),
        call_ensures(Node::<T, C>::send_get_peers, (node, asking), r),
    ensures
        r.direction == Direction::Outbound(asking),
        r.payload is Peers,
        r.payload->Peers_0@.contains(address) <==> node.peer_book.connected@.contains_key(address)
            && address != asking,
        r.payload->Peers_0@.no_duplicates(),
{
    crate::laws::law_asking_peer_is_told_of_the_others(node, asking);
    node.peer_book.connected.lemma_keys();
    lemma_filter_keeps_distinct(
        node.peer_book.connected.keys(),
        crate::node::other_than(asking),
    );
    assert(node.connected(address) == node.peer_book.connected@.contains_key(address));
    let told = node.peer_book.connected.keys().filter(crate::node::other_than(asking));
    assert(told.contains(address) <==> node.connected(address) && address != asking);
}

proof fn lemma_filter_keeps_distinct(all: Seq<SocketAddr>, keep: spec_fn(SocketAddr) -> bool)
    requires
        all.no_duplicates(),
    ensures
        all.filter(keep).no_duplicates(),
        forall|address: SocketAddr| #[trigger]
            all.filter(keep).contains(address) ==> all.contains(address),
    decreases all.len(),
{
    reveal(Seq::filter);
    if all.len() > 0 {
        let shorter = all.drop_last();
        lemma_filter_keeps_distinct(shorter, keep);
        let kept = shorter.filter(keep);
        assert(!shorter.contains(all.last()));
        assert forall|address: SocketAddr| #[trigger]
            all.filter(keep).contains(address) implies all.contains(address) by {
            let i = all.filter(keep).index_of(address);
            if i < kept.len() {
                assert(kept[i] == address);
                assert(kept.contains(address));
                assert(all[shorter.index_of(address)] == address);
            } else {
                assert(all[all.len() - 1] == address);
            }
        }
        if keep(all.last()) {
            assert(all.filter(keep) == kept.push(all.last()));
            assert(!kept.contains(all.last()));
            assert forall|i: int, j: int|
                0 <= i < j < all.filter(keep).len() implies all.filter(keep)[i] != all.filter(
                keep,
            )[j] by {
                assert(kept[i] == all.filter(keep)[i]);
                assert(kept.contains(kept[i]));
            }
        }
    }
}

/// Of the addresses that a peer sent, each that is not the node's own and that the book does not
/// list yet is listed as disconnected, with nothing known of it, however many they are. Nothing
/// else changes.
pub proof fn law_inbound_peers_are_learned_of<T, C>(
    node: &mut Node<T, C>,
    own: SocketAddr,
    peers: Vec<SocketAddr>,
    address: SocketAddr,
)
    requires
        old(node).environment.local_address == Some(own),
        call_ensures(Node::<T, C>::process_inbound_peers, (node, peers), ()),
    ensures
        final(node).environment == old(node).environment,
        final(node).tasks == old(node).tasks,
        final(node).channels == old(node).channels,
        ({
            let before = old(node).peer_book;
            let after = final(node).peer_book;
            let is_new = peers@.contains(address) && address != own
                && !before.connecting@.contains_key(address) && !before.connected@.contains_key(
                address,
            ) && !before.disconnected@.contains_key(address);
            &&& after.connecting@ == before.connecting@
            &&& after.connected@ == before.connected@
            &&& after.disconnected@.contains_key(address) <==> is_new
                || before.disconnected@.contains_key(address)
            &&& after.disconnected@.contains_key(address) ==> after.disconnected@[address]
                == known_of_disconnected(before, address)
        }),
{
    let before = old(node).peer_book;
    let after = final(node).peer_book;
    assert(after@.connecting == after.connecting@);
    assert(after@.connected == after.connected@);
    assert(after@.disconnected == after.disconnected@);
}

/// A message says what it was made of.
pub proof fn law_message_says_what_it_was_made_of(
    direction: Direction,
    payload: Payload,
    r: Message,
)
    requires
        call_ensures(Message::new, (direction, payload), r),
    ensures
        r.direction == direction,
        r.payload == payload,
{
}

/// The number that the bytes spell, the lowest first.
pub open spec fn number_spelled(bytes: Seq<u8>) -> int
    decreases bytes.len(),
{
    if bytes.len() == 0 {
        0
    } else {
        bytes[0] + 0x100 * number_spelled(bytes.drop_first())
    }
}

/// Eight bytes spell what their digits come to.
proof fn lemma_eight_digits(bytes: Seq<u8>)
    requires
        bytes.len() == 8,
    ensures
        number_spelled(bytes) == bytes[0] + bytes[1] * 0x100 + bytes[2] * 0x1_0000 + bytes[3]
            * 0x100_0000 + 0x1_0000_0000 * (bytes[4] + bytes[5] * 0x100 + bytes[6] * 0x1_0000
            + bytes[7] * 0x100_0000),
{
    reveal_with_fuel(number_spelled, 9);
}

proof fn lemma_encoded_spells(version: Version)
    ensures
        version.encoded().len() == 10,
        number_spelled(version.encoded().take(8)) == version.version,
        number_spelled(version.encoded().skip(8)) == version.listening_port,
{
    let bytes = version.encoded();
    lemma_eight_digits(bytes.take(8));
    crate::message::lemma_word_digits(version.version as int % 0x1_0000_0000);
    crate::message::lemma_word_digits(version.version as int / 0x1_0000_0000);
    reveal_with_fuel(number_spelled, 3);
}

/// A version goes out as ten bytes, of which the first eight spell the version and the last two the
/// port.
pub proof fn law_version_is_spelled_in_ten_bytes(version: &Version, r: Vec<u8>)
    requires
        call_ensures(Version::serialize, (version,), r),
    ensures
        r@.len() == 10,
        number_spelled(r@.take(8)) == version.version,
        number_spelled(r@.skip(8)) == version.listening_port,
{
    lemma_encoded_spells(*version);
}

/// Any ten bytes are read as the version that the first eight spell and the port that the last two
/// spell, and no others are read as a version.
pub proof fn law_ten_bytes_are_a_version(bytes: &[u8], r: Option<Version>)
    requires
        call_ensures(Version::deserialize, (bytes,), r),
    ensures
        r is Some <==> bytes@.len() == 10,
        r matches Some(version) ==> version.version == number_spelled(bytes@.take(8))
            && version.listening_port == number_spelled(bytes@.skip(8)),
{
    if r is Some {
        lemma_encoded_spells(r->0);
    }
}

/// What one node serializes another deserializes.
pub proof fn law_version_is_read_as_it_was_written(
    version: u64,
    port: u16,
    sent: Version,
    bytes: Vec<u8>,
    received: &[u8],
    r: Option<Version>,
)
    requires
        call_ensures(Version::new, (version, port), sent),
        call_ensures(Version::serialize, (&sent,), bytes),
        received@ == bytes@,
        call_ensures(Version::deserialize, (received,), r),
    ensures
        r is Some,
        r->0.version == version,
        r->0.listening_port == port,
{
    law_version_is_spelled_in_ten_bytes(&sent, bytes);
    law_ten_bytes_are_a_version(received, r);
}

/// What a node says of itself in a handshake is the first version of the protocol and the port on
/// which it listens.
pub proof fn law_node_announces_the_port_that_it_listens_on(
    listening_port: u16,
    r: Vec<u8>,
    received: &[u8],
    read: Option<Version>,
)
    requires
        call_ensures(crate::handshake::own_version_payload, (listening_port,), r),
        received@ == r@,
        call_ensures(Version::deserialize, (received,), read),
    ensures
        r@.len() == 10,
        number_spelled(r@.take(8)) == 1,
        number_spelled(r@.skip(8)) == listening_port,
        read is Some,
        read->0.version == 1,
        read->0.listening_port == listening_port,
        crate::handshake::own_version(listening_port).version == 1,
        crate::handshake::own_version(listening_port).listening_port == listening_port,
{
    lemma_encoded_spells(crate::handshake::own_version(listening_port));
    law_ten_bytes_are_a_version(received, read);
}

/// A message is framed by the low byte of its length, and is not touched itself. A failure to write
/// one is passed on.
pub proof fn law_frame_precedes_the_message(
    written: Result<usize, snow::Error>,
    buffer: &Vec<u8>,
    r: Result<Vec<u8>, NetworkError>,
)
    requires
        written matches Ok(len) ==> len <= buffer@.len(),
        call_ensures(crate::handshake::frame_message, (written, buffer), r),
    ensures
        written matches Ok(len) ==> {
            &&& r is Ok
            &&& r->Ok_0@.len() == 1 + len
            &&& r->Ok_0@[0] == len % 256
            &&& r->Ok_0@.drop_first() == buffer@.take(len as int)
        },
        written matches Err(error) ==> r == Err::<Vec<u8>, _>(NetworkError::Noise(error)),
{
    if written is Ok {
        assert(r->Ok_0@.drop_first() =~= buffer@.take(written->Ok_0 as int));
    }
}

/// The version of a peer is the one that the ten bytes spell that were read; if other than ten
/// bytes were read, or none, the handshake is invalid.
pub proof fn law_peer_announces_its_version(
    read: Result<usize, snow::Error>,
    buffer: &Vec<u8>,
    r: Result<Version, NetworkError>,
)
    requires
        read matches Ok(len) ==> len <= buffer@.len(),
        call_ensures(crate::handshake::peer_version, (read, buffer), r),
    ensures
        r is Ok <==> read is Ok && read->Ok_0 == 10,
        r is Err ==> r == Err::<Version, _>(NetworkError::InvalidHandshake),
        r matches Ok(version) ==> version.version == number_spelled(buffer@.take(8))
            && version.listening_port == number_spelled(buffer@.subrange(8, 10)),
{
    if r is Ok {
        lemma_encoded_spells(r->Ok_0);
        assert(buffer@.take(10).take(8) =~= buffer@.take(8));
        assert(buffer@.take(10).skip(8) =~= buffer@.subrange(8, 10));
    }
}

/// A handshake begins with 49 bytes: one that gives the length of the rest, the ephemeral key of
/// the handshake, and what the Noise session adds to it. The handshake has the private and the
/// preshared key that it was given. Only a preshared key of another length than 32 bytes is
/// refused.
pub proof fn law_handshake_begins_with_the_given_keys(
    static_key: &[u8],
    psk: &[u8],
    r: Result<(AwaitingReply, Vec<u8>), NetworkError>,
)
    requires
        static_key@.len() == 32,
        call_ensures(AwaitingReply::start_with_key, (static_key, psk), r),
    ensures
        r is Ok <==> psk@.len() == 32,
        r matches Err(error) ==> error is Noise,
        r matches Ok(started) ==> {
            &&& started.0.static_key() == static_key@
            &&& started.0.psk() == psk@
            &&& started.1@.len() == 49
            &&& started.1@[0] == 48
            &&& started.1@.subrange(1, 33) == started.0.ephemeral_key()
            &&& started.1@.drop_first() == crate::noise::first_message(
                started.0.ephemeral_key(),
                Seq::empty(),
            )
        },
{
    if r is Ok {
        let started = r->Ok_0;
        let message = crate::noise::first_message(started.0.ephemeral_key(), Seq::empty());
        assert(started.1@.drop_first() =~= message);
        assert(started.1@.subrange(1, 33) =~= message.take(32));
    }
}

/// The same holds of a handshake whose private key is drawn at random.
pub proof fn law_handshake_begins(
    psk: &[u8],
    r: Result<(AwaitingReply, Vec<u8>), NetworkError>,
)
    requires
        call_ensures(AwaitingReply::start, (psk,), r),
    ensures
        r is Ok <==> psk@.len() == 32,
        r matches Err(error) ==> error is Noise,
        r matches Ok(started) ==> {
            &&& started.0.static_key().len() == 32
            &&& started.0.psk() == psk@
            &&& started.1@.len() == 49
            &&& started.1@[0] == 48
            &&& started.1@.subrange(1, 33) == started.0.ephemeral_key()
            &&& started.1@.drop_first() == crate::noise::first_message(
                started.0.ephemeral_key(),
                Seq::empty(),
            )
        },
{
    if r is Ok {
        let started = r->Ok_0;
        let message = crate::noise::first_message(started.0.ephemeral_key(), Seq::empty());
        assert(started.1@.drop_first() =~= message);
        assert(started.1@.subrange(1, 33) =~= message.take(32));
    }
}

/// A reply is answered if the session accepts it, it carries ten bytes and the session can answer.
/// The answer carries the first version of the protocol and the port on which the node listens, and
/// goes out as 75 bytes, of which the first gives the length of the rest.
pub proof fn law_reply_is_answered_with_the_listening_port(
    handshake: AwaitingReply,
    message: &[u8],
    listening_port: u16,
    payload: Seq<u8>,
    r: Result<(Replied, Vec<u8>), NetworkError>,
)
    requires
        call_ensures(AwaitingReply::reply, (handshake, message, listening_port), r),
        payload.len() == 10,
        number_spelled(payload.take(8)) == 1,
        number_spelled(payload.skip(8)) == listening_port,
    ensures
        ({
            let found = handshake.payload_in(message@) is Some && handshake.payload_in(
                message@,
            )->0.len() == 10;
            &&& r == Err::<(Replied, Vec<u8>), _>(NetworkError::InvalidHandshake) <==> !found
            &&& r is Ok <==> found && handshake.answer(message@, payload) is Some
            &&& r matches Err(error) ==> error is InvalidHandshake || error is Noise
            &&& r matches Ok(replied) ==> {
                &&& replied.1@.len() == 75
                &&& replied.1@[0] == 74
                &&& replied.1@.drop_first() == handshake.answer(message@, payload)->0
                &&& replied.0.transport() == handshake.transport(message@, payload)
                &&& replied.0.psk() == handshake.psk()
                &&& replied.0.static_key() == handshake.static_key()
                &&& replied.0.ephemeral_key() == handshake.ephemeral_key()
            }
        }),
        message@.len() != 106 ==> r is Err,
{
    let said = crate::handshake::own_version(listening_port).encoded();
    lemma_encoded_spells(crate::handshake::own_version(listening_port));
    lemma_ten_bytes_are_determined(said, payload);
    if r is Ok {
        let replied = r->Ok_0;
        assert(replied.1@.drop_first() =~= handshake.answer(message@, payload)->0);
    }
}

/// Ten bytes that spell the same two numbers are the same.
proof fn lemma_ten_bytes_are_determined(a: Seq<u8>, b: Seq<u8>)
    requires
        a.len() == 10,
        b.len() == 10,
        number_spelled(a.take(8)) == number_spelled(b.take(8)),
        number_spelled(a.skip(8)) == number_spelled(b.skip(8)),
    ensures
        a == b,
{
    lemma_spelling_is_unique(a.take(8), b.take(8));
    lemma_spelling_is_unique(a.skip(8), b.skip(8));
    assert(a =~= a.take(8) + a.skip(8));
    assert(b =~= b.take(8) + b.skip(8));
}

proof fn lemma_spelling_is_unique(a: Seq<u8>, b: Seq<u8>)
    requires
        a.len() == b.len(),
        number_spelled(a) == number_spelled(b),
    ensures
        a == b,
    decreases a.len(),
{
    if a.len() > 0 {
        let x = number_spelled(a.drop_first());
        let y = number_spelled(b.drop_first());
        assert(a[0] + 0x100 * x == b[0] + 0x100 * y);
        lemma_spelling_is_unique(a.drop_first(), b.drop_first());
        assert(a =~= seq![a[0]] + a.drop_first());
        assert(b =~= seq![b[0]] + b.drop_first());
    } else {
        assert(a =~= b);
    }
}

/// The byte in front of a reply is its length.
pub proof fn law_byte_before_a_reply_is_its_length(length: u8, r: usize)
    requires
        call_ensures(AwaitingReply::reply_len, (length,), r),
    ensures
        r == length,
{
}

/// A handshake that was answered turns into the session that it leads to.
pub proof fn law_answered_handshake_leads_to_its_session(
    handshake: Replied,
    r: Result<snow::TransportState, NetworkError>,
)
    requires
        call_ensures(Replied::finish, (handshake,), r),
    ensures
        r == Ok::<snow::TransportState, NetworkError>(handshake.transport()),
{
}

} // verus!
