//! A node and what it does for its peers.
use crate::address::SocketAddr;
use crate::address_map::AddressMap;
use crate::clock::{elapsed_since, is_no_later, read_time, Elapsed, Timestamp};
use crate::error::NetworkError;
use crate::message::{Direction, Message, Payload};
use crate::peer_book::{
    PeerBook, PeerBookView, PeerInfo, PeerQuality, UNANNOUNCED_SYNC_BLOCKS,
};
use std::time::Instant;
use vstd::prelude::*;

verus! {

/// How a node is set up.
pub struct Environment {
    /// The address on which the node listens, once it is known.
    pub local_address: Option<SocketAddr>,
    /// Whether the node is one that others turn to first.
    pub is_bootnode: bool,
    pub minimum_number_of_connected_peers: u16,
    pub maximum_number_of_connected_peers: u16,
    /// The nodes to turn to first.
    pub bootnodes: Vec<SocketAddr>,
}

/// A node, with a handle `T` for each task that listens to a peer and a channel `C` for each peer
/// that messages can be sent to.
pub struct Node<T, C> {
    pub environment: Environment,
    pub peer_book: PeerBook,
    pub tasks: AddressMap<T>,
    pub channels: AddressMap<C>,
}

/// What is left to do once a peer has been disconnected.
pub struct Disconnection<T> {
    pub address: SocketAddr,
    /// Whether a block sync with the peer ends here, of which the consensus must hear.
    pub finished_syncing_blocks: bool,
    /// The task that listened to the peer, which must be aborted.
    pub task: Option<T>,
    pub result: Result<(), NetworkError>,
}

/// What is left to do for a peer, given the node before the peer was disconnected.
pub open spec fn is_disconnection<T, C>(
    before: &Node<T, C>,
    disconnection: Disconnection<T>,
) -> bool {
    let address = disconnection.address;
    &&& disconnection.finished_syncing_blocks == before.syncing(address)
    &&& disconnection.task is Some <==> before.tasks@.contains_key(address)
    &&& disconnection.task matches Some(task) ==> task == before.tasks@[address]
    &&& disconnection.result == Ok::<(), NetworkError>(())
}

/// What the disconnection of a peer changes: its task and its channel are gone, and the peer book
/// lists it as disconnected.
pub open spec fn disconnected<T, C>(
    before: &Node<T, C>,
    after: &Node<T, C>,
    disconnection: Disconnection<T>,
) -> bool {
    &&& after.environment == before.environment
    &&& after.peer_book@ == before.peer_book@.with_disconnected(disconnection.address)
    &&& after.tasks@ == before.tasks@.remove(disconnection.address)
    &&& after.channels@ == before.channels@.remove(disconnection.address)
    &&& is_disconnection(before, disconnection)
}

/// The addresses that are not `address`.
pub open spec fn other_than(address: SocketAddr) -> spec_fn(SocketAddr) -> bool {
    |other: SocketAddr| other != address
}

/// The addresses that are not connected.
pub open spec fn not_connected(book: PeerBookView) -> spec_fn(SocketAddr) -> bool {
    |address: SocketAddr| !book.connected.contains_key(address)
}

impl<T, C> Node<T, C> {
    pub open spec fn wf(&self) -> bool {
        &&& self.peer_book.wf()
        &&& self.tasks.wf()
        &&& self.channels.wf()
    }

    /// Nothing but the peer book differs.
    pub open spec fn same_but_for_book(&self, other: &Node<T, C>) -> bool {
        &&& self.environment == other.environment
        &&& self.tasks == other.tasks
        &&& self.channels == other.channels
    }

    pub open spec fn connected(&self, address: SocketAddr) -> bool {
        self.peer_book@.connected.contains_key(address)
    }

    /// The quality of a connected peer.
    pub open spec fn quality(&self, address: SocketAddr) -> PeerQuality {
        self.peer_book@.connected[address].quality
    }

    /// Nothing but the quality of one connected peer differs from `before`.
    pub open spec fn has_new_quality(
        &self,
        before: &Node<T, C>,
        address: SocketAddr,
        quality: PeerQuality,
    ) -> bool {
        &&& self.same_but_for_book(before)
        &&& self.peer_book@ == before.peer_book@.with_quality(address, quality)
    }

    /// A block sync with the peer is under way.
    pub open spec fn syncing(&self, address: SocketAddr) -> bool {
        self.connected(address) && self.quality(address).remaining_sync_blocks != 0
    }

    /// A node that knows of no peers.
    pub fn new(environment: Environment) -> (r: Self)
        ensures
            r.wf(),
            r.environment == environment,
            r.peer_book@ == PeerBookView::empty(),
            r.tasks@ == Map::<SocketAddr, T>::empty(),
            r.channels@ == Map::<SocketAddr, C>::empty(),
    {
        Node {
            environment,
            peer_book: PeerBook::new(),
            tasks: AddressMap::new(),
            channels: AddressMap::new(),
        }
    }

    /// The quality of a peer, if it is connected.
    pub fn peer_quality(&self, address: SocketAddr) -> (r: Option<PeerQuality>)
        requires
            self.wf(),
        ensures
            r is Some <==> self.connected(address),
            r matches Some(quality) ==> quality == self.quality(address),
    {
        match self.peer_book.connected.get(address) {
            Some(info) => Some(info.quality),
            None => None,
        }
    }

    /// The connected peer that was heard of last. Of several it is the one that a walk over the
    /// connected peers meets last.
    pub fn last_seen(&self) -> (r: Option<SocketAddr>)
        requires
            self.wf(),
        ensures
            r is None <==> self.peer_book@.connected.len() == 0,
            r matches Some(address) ==> {
                &&& self.connected(address)
                &&& forall|other: SocketAddr| #[trigger]
                    self.connected(other) ==> crate::clock::no_later(
                        self.quality(other).last_seen,
                        self.quality(address).last_seen,
                    )
                &&& exists|i: int| #[trigger]
                    self.is_last_seen_at(i) && self.peer_book.connected.keys()[i] == address
            },
    {
        proof {
            self.peer_book.connected.lemma_keys();
        }
        let ghost keys = self.peer_book.connected.keys();
        let count = self.peer_book.connected.len();
        if count == 0 {
            return None;
        }
        let mut best: usize = 0;
        let mut best_seen: Option<Timestamp> = self.seen_at(0);
        let mut i: usize = 1;
        while i < count
            invariant
                self.wf(),
                count == self.peer_book@.connected.len(),
                keys == self.peer_book.connected.keys(),
                keys.len() == count,
                best < i <= count,
                best_seen == self.quality(keys[best as int]).last_seen,
                forall|j: int|
                    0 <= j < i ==> crate::clock::no_later(
                        self.quality(#[trigger] keys[j]).last_seen,
                        best_seen,
                    ),
                forall|j: int|
                    best < j < i ==> !crate::clock::no_later(
                        best_seen,
                        self.quality(#[trigger] keys[j]).last_seen,
                    ),
            decreases count - i,
        {
            let seen = self.seen_at(i);
            if is_no_later(best_seen, seen) {
                best = i;
                best_seen = seen;
            }
            i += 1;
        }
        let address = self.peer_book.connected.key_at(best);
        proof {
            assert(self.is_last_seen_at(best as int));
            assert(keys.contains(keys[best as int]));
            assert forall|other: SocketAddr| #[trigger]
                self.connected(other) implies crate::clock::no_later(
                self.quality(other).last_seen,
                self.quality(address).last_seen,
            ) by {
                assert(keys.contains(other));
            }
        }
        Some(address)
    }

    /// In the walk over the connected peers, none before the given place was heard of later, and
    /// all after it were heard of earlier.
    pub open spec fn is_last_seen_at(&self, place: int) -> bool {
        let keys = self.peer_book.connected.keys();
        &&& 0 <= place < keys.len()
        &&& forall|j: int|
            0 <= j < place ==> crate::clock::no_later(
                self.quality(#[trigger] keys[j]).last_seen,
                self.quality(keys[place]).last_seen,
            )
        &&& forall|j: int|
            place < j < keys.len() ==> !crate::clock::no_later(
                self.quality(keys[place]).last_seen,
                self.quality(#[trigger] keys[j]).last_seen,
            )
    }

    /// When the connected peer in the given place of the walk was last heard of.
    fn seen_at(&self, index: usize) -> (r: Option<Timestamp>)
        requires
            self.wf(),
            index < self.peer_book@.connected.len(),
        ensures
            r == self.quality(self.peer_book.connected.keys()[index as int]).last_seen,
    {
        let address = self.peer_book.connected.key_at(index);
        proof {
            self.peer_book.connected.lemma_keys();
            assert(self.peer_book.connected.keys().contains(address));
        }
        match self.peer_quality(address) {
            Some(quality) => quality.last_seen,
            None => None,
        }
    }

    /// Records that a connected peer was heard of at the given time.
    pub fn update_last_seen_at(&mut self, address: SocketAddr, now: Timestamp)
        requires
            old(self).wf(),
        ensures
            final(self).wf(),
            old(self).connected(address) ==> final(self).has_new_quality(
                old(self),
                address,
                old(self).quality(address).seen(now),
            ),
            !old(self).connected(address) ==> *final(self) == *old(self),
    {
        if let Some(quality) = self.peer_quality(address) {
            let mut quality: PeerQuality = quality;
            quality.last_seen = Some(now);
            self.peer_book.set_quality(address, quality);
        }
    }

    /// Records that a connected peer was heard of just now.
    pub fn update_last_seen(&mut self, address: SocketAddr)
        requires
            old(self).wf(),
        ensures
            final(self).wf(),
            old(self).connected(address) ==> exists|now: Timestamp|
                crate::clock::is_time_read(now) && 0 <= now.secs && now.nanos < 1_000_000_000
                    && #[trigger] final(self).has_new_quality(
                    old(self),
                    address,
                    old(self).quality(address).seen(now),
                ),
            !old(self).connected(address) ==> *final(self) == *old(self),
    {
        let now = read_time();
        self.update_last_seen_at(address, now);
    }

    /// Records that a ping went out to a connected peer at the given instant.
    pub fn sending_ping_at(&mut self, target: SocketAddr, now: Instant)
        requires
            old(self).wf(),
        ensures
            final(self).wf(),
            old(self).connected(target) ==> final(self).has_new_quality(
                old(self),
                target,
                old(self).quality(target).pinged(now),
            ),
            !old(self).connected(target) ==> *final(self) == *old(self),
    {
        if let Some(quality) = self.peer_quality(target) {
            let mut quality: PeerQuality = quality;
            quality.last_ping_sent = Some(now);
            quality.expecting_pong = true;
            self.peer_book.set_quality(target, quality);
        }
    }

    /// Records that a ping goes out to a connected peer just now.
    pub fn sending_ping(&mut self, target: SocketAddr)
        requires
            old(self).wf(),
        ensures
            final(self).wf(),
            old(self).connected(target) ==> exists|now: Instant|
                crate::clock::is_instant_read(now) && #[trigger] final(self).has_new_quality(
                    old(self),
                    target,
                    old(self).quality(target).pinged(now),
                ),
            !old(self).connected(target) ==> *final(self) == *old(self),
    {
        let now = Instant::now();
        self.sending_ping_at(target, now);
    }

    /// Records a pong that came in the given time after the latest ping to the peer.
    pub fn received_pong_after(&mut self, source: SocketAddr, elapsed: Elapsed)
        requires
            old(self).wf(),
        ensures
            final(self).wf(),
            old(self).connected(source) ==> final(self).has_new_quality(
                old(self),
                source,
                old(self).quality(source).ponged(elapsed),
            ),
            !old(self).connected(source) ==> *final(self) == *old(self),
    {
        if let Some(quality) = self.peer_quality(source) {
            let mut quality: PeerQuality = quality;
            if quality.expecting_pong {
                let millis: u128 = elapsed.as_millis() % 0x1_0000_0000_0000_0000;
                quality.rtt_ms = millis as u64;
                quality.expecting_pong = false;
            } else {
                quality.failures = quality.failures.wrapping_add(1);
            }
            self.peer_book.set_quality(source, quality);
        }
    }

    /// Handles an incoming pong. The round-trip time of one that was expected is the time since
    /// the latest ping to the peer.
    pub fn received_pong(&mut self, source: SocketAddr)
        requires
            old(self).wf(),
        ensures
            final(self).wf(),
            old(self).connected(source) ==> exists|elapsed: Elapsed|
                {
                    &&& elapsed.nanos < 1_000_000_000
                    &&& old(self).quality(source).expecting_pong
                        ==> crate::clock::may_elapse_since(
                        old(self).quality(source).last_ping_sent->0,
                        elapsed.secs,
                        elapsed.nanos,
                    )
                    &&& #[trigger] final(self).has_new_quality(
                        old(self),
                        source,
                        old(self).quality(source).ponged(elapsed),
                    )
                },
            !old(self).connected(source) ==> *final(self) == *old(self),
    {
        if let Some(quality) = self.peer_quality(source) {
            let elapsed = match quality.last_ping_sent {
                Some(instant) if quality.expecting_pong => elapsed_since(instant),
                _ => Elapsed { secs: 0, nanos: 0 },
            };
            self.received_pong_after(source, elapsed);
        }
    }

    /// Registers that the given number of blocks is expected from a sync with a peer.
    pub fn expecting_sync_blocks(&mut self, address: SocketAddr, count: usize)
        requires
            old(self).wf(),
        ensures
            final(self).wf(),
            old(self).connected(address) ==> final(self).has_new_quality(
                old(self),
                address,
                old(self).quality(address).expecting_blocks(count),
            ),
            old(self).connected(address) ==> (final(self).syncing(address) <==> count != 0),
            !old(self).connected(address) ==> *final(self) == *old(self),
    {
        if let Some(quality) = self.peer_quality(address) {
            let mut quality: PeerQuality = quality;
            quality.remaining_sync_blocks = count;
            self.peer_book.set_quality(address, quality);
        }
    }

    /// Registers the receipt of a sync block from a peer; returns `true` when the sync is over.
    pub fn got_sync_block(&mut self, address: SocketAddr) -> (r: bool)
        requires
            old(self).wf(),
        ensures
            final(self).wf(),
            old(self).connected(address) ==> {
                &&& r == (old(self).quality(address).remaining_sync_blocks == 1)
                &&& final(self).has_new_quality(
                    old(self),
                    address,
                    old(self).quality(address).got_block(),
                )
            },
            !old(self).connected(address) ==> r && *final(self) == *old(self),
    {
        match self.peer_quality(address) {
            Some(quality) => {
                let mut quality: PeerQuality = quality;
                let remaining: usize = quality.remaining_sync_blocks;
                quality.remaining_sync_blocks = if remaining == 0 {
                    UNANNOUNCED_SYNC_BLOCKS
                } else {
                    remaining - 1
                };
                self.peer_book.set_quality(address, quality);
                remaining == 1
            },
            None => true,
        }
    }

    /// Whether a block sync with the peer is under way.
    pub fn is_syncing_blocks(&self, address: SocketAddr) -> (r: bool)
        requires
            self.wf(),
        ensures
            r == self.syncing(address),
    {
        match self.peer_quality(address) {
            Some(quality) => quality.remaining_sync_blocks != 0,
            None => false,
        }
    }

    /// Disconnects a peer: its task and its channel go, and the peer book lists it as
    /// disconnected.
    pub fn disconnect_from_peer(&mut self, remote_address: SocketAddr) -> (r: Disconnection<T>)
        requires
            old(self).wf(),
        ensures
            final(self).wf(),
            r.address == remote_address,
            disconnected(old(self), final(self), r),
    {
        let finished_syncing_blocks = self.is_syncing_blocks(remote_address);
        let task = self.tasks.remove(remote_address);
        let _channel = self.channels.remove(remote_address);
        let result = self.peer_book.set_disconnected(remote_address);
        Disconnection { address: remote_address, finished_syncing_blocks, task, result }
    }

    /// Begins a connection to a peer, unless the address leads back to this node or the peer is
    /// connecting or connected already. What comes next is to dial the address and to run the
    /// handshake.
    pub fn initiate_connection(&mut self, remote_address: SocketAddr) -> (r: Result<
        (),
        NetworkError,
    >)
        requires
            old(self).wf(),
            old(self).environment.local_address is Some,
        ensures
            final(self).wf(),
            r == initiation_result(
                remote_address,
                old(self).environment.local_address->0,
                old(self).peer_book@,
            ),
            r is Ok ==> final(self).same_but_for_book(old(self)) && final(self).peer_book@ == old(
                self,
            ).peer_book@.with_connecting(remote_address),
            r is Err ==> *final(self) == *old(self),
    {
        if let Some(own_address) = self.environment.local_address {
            if remote_address == own_address || ((remote_address.ip().is_unspecified()
                || remote_address.ip().is_loopback()) && remote_address.port()
                == own_address.port()) {
                return Err(NetworkError::SelfConnectAttempt);
            }
        }
        if self.peer_book.is_connecting(remote_address) {
            return Err(NetworkError::PeerAlreadyConnecting);
        }
        if self.peer_book.is_connected(remote_address) {
            return Err(NetworkError::PeerAlreadyConnected);
        }
        self.peer_book.set_connecting(remote_address)
    }

    /// Records that the handshake with a peer was completed at the given time, with the channel
    /// that now leads to the peer.
    pub fn complete_connection_at(
        &mut self,
        remote_address: SocketAddr,
        channel: C,
        now: Timestamp,
    ) -> (r: Result<(), NetworkError>)
        requires
            old(self).wf(),
        ensures
            final(self).wf(),
            completed(old(self), final(self), remote_address, channel, now, r),
    {
        let _previous = self.channels.insert(remote_address, channel);
        self.peer_book.set_connected(remote_address, now)
    }

    /// Records that the handshake with a peer was completed just now, with the channel that now
    /// leads to the peer.
    pub fn complete_connection(&mut self, remote_address: SocketAddr, channel: C) -> (r: Result<
        (),
        NetworkError,
    >)
        requires
            old(self).wf(),
        ensures
            final(self).wf(),
            exists|now: Timestamp|
                crate::clock::is_time_read(now) && 0 <= now.secs && now.nanos < 1_000_000_000
                    && #[trigger] completed(
                    old(self),
                    final(self),
                    remote_address,
                    channel,
                    now,
                    r,
                ),
    {
        let now = read_time();
        self.complete_connection_at(remote_address, channel, now)
    }

    /// The bootnodes that are not connected, to each of which a connection is to be attempted.
    pub fn connect_to_bootnodes(&self) -> (r: Vec<SocketAddr>)
        requires
            self.wf(),
        ensures
            r@ == self.environment.bootnodes@.filter(not_connected(self.peer_book@)),
    {
        let bootnodes = &self.environment.bootnodes;
        let ghost keep = not_connected(self.peer_book@);
        let mut list: Vec<SocketAddr> = Vec::new();
        let mut i: usize = 0;
        proof {
            reveal(Seq::filter);
        }
        while i < bootnodes.len()
            invariant
                self.wf(),
                bootnodes@ == self.environment.bootnodes@,
                keep == not_connected(self.peer_book@),
                i <= bootnodes@.len(),
                list@ == bootnodes@.take(i as int).filter(keep),
            decreases bootnodes@.len() - i,
        {
            let address = bootnodes[i];
            proof {
                reveal(Seq::filter);
                assert(bootnodes@.take(i + 1).drop_last() =~= bootnodes@.take(i as int));
            }
            if !self.peer_book.is_connected(address) {
                list.push(address);
            }
            i += 1;
        }
        assert(bootnodes@.take(i as int) =~= bootnodes@);
        list
    }

    /// Up to the given number of disconnected peers, to each of which a connection is to be
    /// attempted.
    pub fn connect_to_disconnected_peers(&self, count: usize) -> (r: Vec<SocketAddr>)
        requires
            self.wf(),
        ensures
            r@ == self.peer_book.disconnected.keys().take(
                vstd::math::min(count as int, self.peer_book@.disconnected.len() as int),
            ),
    {
        proof {
            self.peer_book.disconnected.lemma_keys();
        }
        let mut list = self.peer_book.disconnected.key_list();
        if count < list.len() {
            list.truncate(count);
            assert(list@ =~= self.peer_book.disconnected.keys().take(count as int));
        } else {
            assert(list@ =~= list@.take(list@.len() as int));
        }
        list
    }

    /// The connected peers.
    pub fn connected_addresses(&self) -> (r: Vec<SocketAddr>)
        ensures
            r@ == self.peer_book.connected.keys(),
    {
        self.peer_book.connected.key_list()
    }

    /// The answer to a peer that asks for peers: all that are connected, but for the one that
    /// asks.
    pub fn send_get_peers(&self, remote_address: SocketAddr) -> (r: Message)
        ensures
            r.direction == Direction::Outbound(remote_address),
            r.payload matches Payload::Peers(peers) && peers@
                == self.peer_book.connected.keys().filter(other_than(remote_address)),
    {
        let connected = self.connected_addresses();
        let ghost keep = other_than(remote_address);
        let mut peers: Vec<SocketAddr> = Vec::new();
        let mut i: usize = 0;
        proof {
            reveal(Seq::filter);
        }
        while i < connected.len()
            invariant
                keep == other_than(remote_address),
                i <= connected@.len(),
                peers@ == connected@.take(i as int).filter(keep),
            decreases connected@.len() - i,
        {
            let address = connected[i];
            proof {
                reveal(Seq::filter);
                assert(connected@.take(i + 1).drop_last() =~= connected@.take(i as int));
            }
            if address != remote_address {
                peers.push(address);
            }
            i += 1;
        }
        assert(connected@.take(i as int) =~= connected@);
        Message::new(Direction::Outbound(remote_address), Payload::Peers(peers))
    }

    /// Takes in the addresses that a peer sent: those that are new and not this node's own are
    /// listed as disconnected.
    pub fn process_inbound_peers(&mut self, peers: Vec<SocketAddr>)
        requires
            old(self).wf(),
            old(self).environment.local_address is Some,
        ensures
            final(self).wf(),
            final(self).same_but_for_book(old(self)),
            final(self).peer_book@ == with_inbound_peers(
                old(self).peer_book@,
                peers@,
                old(self).environment.local_address->0,
            ),
    {
        let local_address = match self.environment.local_address {
            Some(address) => address,
            None => return,
        };
        let mut i: usize = 0;
        assert(self.peer_book@.disconnected =~= with_inbound_peers(
            self.peer_book@,
            peers@.take(0),
            local_address,
        ).disconnected);
        while i < peers.len()
            invariant
                self.wf(),
                self.same_but_for_book(old(self)),
                i <= peers@.len(),
                self.peer_book@ == with_inbound_peers(
                    old(self).peer_book@,
                    peers@.take(i as int),
                    local_address,
                ),
            decreases peers@.len() - i,
        {
            let address = peers[i];
            if address != local_address {
                self.peer_book.add_peer(address);
            }
            proof {
                lemma_inbound_step(
                    old(self).peer_book@,
                    peers@.take(i as int),
                    local_address,
                    address,
                );
                assert(peers@.take(i + 1) =~= peers@.take(i as int).push(address));
            }
            i += 1;
        }
        assert(peers@.take(i as int) =~= peers@);
    }
}

/// What comes of a wish to connect: the address must not lead back to the node itself, and the
/// peer must be neither connecting nor connected.
pub open spec fn initiation_result(
    remote_address: SocketAddr,
    own_address: SocketAddr,
    book: PeerBookView,
) -> Result<(), NetworkError> {
    if remote_address.reaches(own_address) {
        Err(NetworkError::SelfConnectAttempt)
    } else if book.connecting.contains_key(remote_address) {
        Err(NetworkError::PeerAlreadyConnecting)
    } else if book.connected.contains_key(remote_address) {
        Err(NetworkError::PeerAlreadyConnected)
    } else {
        Ok(())
    }
}

/// What a completed handshake changes: the channel is there in any case, and a peer that was not
/// connected is.
pub open spec fn completed<T, C>(
    before: &Node<T, C>,
    after: &Node<T, C>,
    address: SocketAddr,
    channel: C,
    now: Timestamp,
    result: Result<(), NetworkError>,
) -> bool {
    &&& after.environment == before.environment
    &&& after.tasks == before.tasks
    &&& after.channels@ == before.channels@.insert(address, channel)
    &&& if before.connected(address) {
        &&& result == Err::<(), _>(NetworkError::PeerAlreadyConnected)
        &&& after.peer_book == before.peer_book
    } else {
        &&& result == Ok::<(), NetworkError>(())
        &&& after.peer_book@ == before.peer_book@.with_connected(address, now)
    }
}

/// The book with those of the given peers added that are new and not the node itself.
pub open spec fn with_inbound_peers(
    book: PeerBookView,
    peers: Seq<SocketAddr>,
    own_address: SocketAddr,
) -> PeerBookView {
    PeerBookView {
        disconnected: Map::new(
            |address: SocketAddr|
                book.disconnected.contains_key(address) || (peers.contains(address) && address
                    != own_address && !book.knows(address)),
            |address: SocketAddr|
                if book.disconnected.contains_key(address) {
                    book.disconnected[address]
                } else {
                    PeerInfo::fresh(address)
                },
        ),
        ..book
    }
}

proof fn lemma_inbound_step(
    book: PeerBookView,
    peers: Seq<SocketAddr>,
    own_address: SocketAddr,
    next: SocketAddr,
)
    ensures
        with_inbound_peers(book, peers.push(next), own_address) == (if next != own_address {
            with_inbound_peers(book, peers, own_address).with_peer(next)
        } else {
            with_inbound_peers(book, peers, own_address)
        }),
{
    let before = with_inbound_peers(book, peers, own_address);
    let after = with_inbound_peers(book, peers.push(next), own_address);
    let expected = if next != own_address {
        before.with_peer(next)
    } else {
        before
    };
    assert forall|a: SocketAddr| peers.push(next).contains(a) <==> peers.contains(a) || a
        == next by {
        if peers.contains(a) {
            let i = peers.index_of(a);
            assert(peers.push(next)[i] == a);
        }
        if a == next {
            assert(peers.push(next)[peers.len() as int] == a);
        }
    }
    assert(after.disconnected =~= expected.disconnected);
}

} // verus!
