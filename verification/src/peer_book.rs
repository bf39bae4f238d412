//! What a node knows of its peers.
use crate::address::SocketAddr;
use crate::address_map::AddressMap;
use crate::clock::{Elapsed, Timestamp};
use crate::error::NetworkError;
use std::time::Instant;
use vstd::prelude::*;

verus! {

/// How many blocks are taken to be still to come after one that nothing asked for.
pub const UNANNOUNCED_SYNC_BLOCKS: usize = 0xffff;

/// How a peer has been behaving.
#[derive(Clone, Copy, Debug)]
pub struct PeerQuality {
    /// When the peer was last heard of.
    pub last_seen: Option<Timestamp>,
    /// When the latest ping went out.
    pub last_ping_sent: Option<Instant>,
    /// Whether that ping has not been answered yet.
    pub expecting_pong: bool,
    /// The round-trip time of the latest answered ping, in milliseconds.
    pub rtt_ms: u64,
    /// How many times the peer has misbehaved; the count wraps.
    pub failures: u32,
    /// How many blocks are still to come from a sync with the peer.
    pub remaining_sync_blocks: usize,
}

impl PeerQuality {
    /// A pong is only expected when a ping went out.
    pub open spec fn wf(self) -> bool {
        self.expecting_pong ==> self.last_ping_sent is Some
    }

    /// The quality of a peer of which nothing is known yet.
    pub open spec fn fresh() -> PeerQuality {
        PeerQuality {
            last_seen: None,
            last_ping_sent: None,
            expecting_pong: false,
            rtt_ms: 0,
            failures: 0,
            remaining_sync_blocks: 0,
        }
    }

    /// After the peer was heard of.
    pub open spec fn seen(self, now: Timestamp) -> PeerQuality {
        PeerQuality { last_seen: Some(now), ..self }
    }

    /// After a ping went out.
    pub open spec fn pinged(self, now: Instant) -> PeerQuality {
        PeerQuality { last_ping_sent: Some(now), expecting_pong: true, ..self }
    }

    /// After a pong came in, the given time after the latest ping. A pong that nothing asked for
    /// is a failure of the peer.
    pub open spec fn ponged(self, elapsed: Elapsed) -> PeerQuality {
        if self.expecting_pong {
            PeerQuality {
                rtt_ms: (elapsed.millis() % 0x1_0000_0000_0000_0000) as u64,
                expecting_pong: false,
                ..self
            }
        } else {
            PeerQuality { failures: ((self.failures + 1) % 0x1_0000_0000) as u32, ..self }
        }
    }

    /// After a sync of the given number of blocks was agreed on.
    pub open spec fn expecting_blocks(self, count: usize) -> PeerQuality {
        PeerQuality { remaining_sync_blocks: count, ..self }
    }

    /// After a block of the sync came in. One that nothing asked for opens a sync of unknown
    /// length.
    pub open spec fn got_block(self) -> PeerQuality {
        PeerQuality {
            remaining_sync_blocks: if self.remaining_sync_blocks == 0 {
                UNANNOUNCED_SYNC_BLOCKS
            } else {
                (self.remaining_sync_blocks - 1) as usize
            },
            ..self
        }
    }

    pub fn new() -> (r: Self)
        ensures
            r == Self::fresh(),
    {
        PeerQuality {
            last_seen: None,
            last_ping_sent: None,
            expecting_pong: false,
            rtt_ms: 0,
            failures: 0,
            remaining_sync_blocks: 0,
        }
    }
}

/// What is known of one peer.
#[derive(Clone, Copy, Debug)]
pub struct PeerInfo {
    pub address: SocketAddr,
    /// When the latest connection to the peer was made.
    pub last_connected: Option<Timestamp>,
    pub quality: PeerQuality,
}

impl PeerInfo {
    /// A peer of which only the address is known.
    pub open spec fn fresh(address: SocketAddr) -> PeerInfo {
        PeerInfo { address, last_connected: None, quality: PeerQuality::fresh() }
    }

    pub fn new(address: SocketAddr) -> (r: Self)
        ensures
            r == Self::fresh(address),
    {
        PeerInfo { address, last_connected: None, quality: PeerQuality::new() }
    }
}

/// The peers by what stands between them and this node.
pub struct PeerBookView {
    pub connecting: Map<SocketAddr, PeerInfo>,
    pub connected: Map<SocketAddr, PeerInfo>,
    pub disconnected: Map<SocketAddr, PeerInfo>,
}

impl PeerBookView {
    /// A book without peers.
    pub open spec fn empty() -> PeerBookView {
        PeerBookView {
            connecting: Map::empty(),
            connected: Map::empty(),
            disconnected: Map::empty(),
        }
    }

    /// Each peer is listed under its own address, and its quality makes sense.
    pub open spec fn entries_wf(peers: Map<SocketAddr, PeerInfo>) -> bool {
        forall|address: SocketAddr| #[trigger]
            peers.contains_key(address) ==> peers[address].address == address
                && peers[address].quality.wf()
    }

    /// An address has one status at most.
    pub open spec fn wf(self) -> bool {
        &&& Self::entries_wf(self.connecting)
        &&& Self::entries_wf(self.connected)
        &&& Self::entries_wf(self.disconnected)
        &&& forall|address: SocketAddr|
            {
                &&& !(#[trigger] self.connecting.contains_key(address)
                    && self.connected.contains_key(address))
                &&& !(self.connecting.contains_key(address) && self.disconnected.contains_key(
                    address,
                ))
            }
        &&& forall|address: SocketAddr|
            !(#[trigger] self.connected.contains_key(address) && self.disconnected.contains_key(
                address,
            ))
    }

    /// The peer is in the book, whatever its status.
    pub open spec fn knows(self, address: SocketAddr) -> bool {
        self.connecting.contains_key(address) || self.connected.contains_key(address)
            || self.disconnected.contains_key(address)
    }

    /// What is known of a peer that is not connected.
    pub open spec fn unconnected_info(self, address: SocketAddr) -> PeerInfo {
        if self.connecting.contains_key(address) {
            self.connecting[address]
        } else if self.disconnected.contains_key(address) {
            self.disconnected[address]
        } else {
            PeerInfo::fresh(address)
        }
    }

    /// After a connection to the peer was begun.
    pub open spec fn with_connecting(self, address: SocketAddr) -> PeerBookView {
        PeerBookView {
            connecting: self.connecting.insert(address, self.unconnected_info(address)),
            disconnected: self.disconnected.remove(address),
            ..self
        }
    }

    /// After a connection to the peer was made.
    pub open spec fn with_connected(self, address: SocketAddr, now: Timestamp) -> PeerBookView {
        PeerBookView {
            connecting: self.connecting.remove(address),
            connected: self.connected.insert(
                address,
                PeerInfo { last_connected: Some(now), ..self.unconnected_info(address) },
            ),
            disconnected: self.disconnected.remove(address),
        }
    }

    /// After the connection to the peer, made or only begun, was given up.
    pub open spec fn with_disconnected(self, address: SocketAddr) -> PeerBookView {
        if self.connecting.contains_key(address) {
            PeerBookView {
                connecting: self.connecting.remove(address),
                disconnected: self.disconnected.insert(address, self.connecting[address]),
                ..self
            }
        } else if self.connected.contains_key(address) {
            PeerBookView {
                connected: self.connected.remove(address),
                disconnected: self.disconnected.insert(address, self.connected[address]),
                ..self
            }
        } else {
            self
        }
    }

    /// After the address of a peer was learned of.
    pub open spec fn with_peer(self, address: SocketAddr) -> PeerBookView {
        if self.knows(address) {
            self
        } else {
            PeerBookView {
                disconnected: self.disconnected.insert(address, PeerInfo::fresh(address)),
                ..self
            }
        }
    }

    /// With another quality for a connected peer.
    pub open spec fn with_quality(self, address: SocketAddr, quality: PeerQuality) -> PeerBookView {
        PeerBookView {
            connected: self.connected.insert(
                address,
                PeerInfo { quality, ..self.connected[address] },
            ),
            ..self
        }
    }
}

/// The peers that a node knows of.
pub struct PeerBook {
    pub connecting: AddressMap<PeerInfo>,
    pub connected: AddressMap<PeerInfo>,
    pub disconnected: AddressMap<PeerInfo>,
}

impl View for PeerBook {
    type V = PeerBookView;

    open spec fn view(&self) -> PeerBookView {
        PeerBookView {
            connecting: self.connecting@,
            connected: self.connected@,
            disconnected: self.disconnected@,
        }
    }
}

impl PeerBook {
    pub open spec fn wf(&self) -> bool {
        &&& self.connecting.wf()
        &&& self.connected.wf()
        &&& self.disconnected.wf()
        &&& self@.wf()
    }

    /// A book without peers.
    pub fn new() -> (r: Self)
        ensures
            r.wf(),
            r@ == PeerBookView::empty(),
    {
        PeerBook {
            connecting: AddressMap::new(),
            connected: AddressMap::new(),
            disconnected: AddressMap::new(),
        }
    }

    pub fn is_connecting(&self, address: SocketAddr) -> (r: bool)
        requires
            self.wf(),
        ensures
            r == self@.connecting.contains_key(address),
    {
        self.connecting.contains_key(address)
    }

    pub fn is_connected(&self, address: SocketAddr) -> (r: bool)
        requires
            self.wf(),
        ensures
            r == self@.connected.contains_key(address),
    {
        self.connected.contains_key(address)
    }

    pub fn is_disconnected(&self, address: SocketAddr) -> (r: bool)
        requires
            self.wf(),
        ensures
            r == self@.disconnected.contains_key(address),
    {
        self.disconnected.contains_key(address)
    }

    pub fn number_of_connected_peers(&self) -> (r: usize)
        requires
            self.wf(),
        ensures
            r == self@.connected.len(),
    {
        self.connected.len()
    }

    /// Takes what is known of a peer that is not connected out of the book.
    fn take_unconnected(&mut self, address: SocketAddr) -> (r: PeerInfo)
        requires
            old(self).wf(),
        ensures
            final(self).wf(),
            final(self)@ == (PeerBookView {
                connecting: old(self)@.connecting.remove(address),
                disconnected: old(self)@.disconnected.remove(address),
                ..old(self)@
            }),
            r == old(self)@.unconnected_info(address),
    {
        let connecting = self.connecting.remove(address);
        let disconnected = self.disconnected.remove(address);
        match connecting {
            Some(info) => info,
            None => match disconnected {
                Some(info) => info,
                None => PeerInfo::new(address),
            },
        }
    }

    /// Begins a connection to a peer that has none.
    pub fn set_connecting(&mut self, address: SocketAddr) -> (r: Result<(), NetworkError>)
        requires
            old(self).wf(),
        ensures
            final(self).wf(),
            old(self)@.connecting.contains_key(address) ==> r == Err::<(), _>(
                NetworkError::PeerAlreadyConnecting,
            ),
            old(self)@.connected.contains_key(address) ==> r == Err::<(), _>(
                NetworkError::PeerAlreadyConnected,
            ),
            !old(self)@.connecting.contains_key(address) && !old(self)@.connected.contains_key(
                address,
            ) ==> r == Ok::<(), NetworkError>(()),
            r is Ok ==> final(self)@ == old(self)@.with_connecting(address),
            r is Err ==> *final(self) == *old(self),
    {
        if self.is_connecting(address) {
            return Err(NetworkError::PeerAlreadyConnecting);
        }
        if self.is_connected(address) {
            return Err(NetworkError::PeerAlreadyConnected);
        }
        let info = self.take_unconnected(address);
        self.connecting.insert(address, info);
        assert(self@.connecting =~= old(self)@.with_connecting(address).connecting);
        Ok(())
    }

    /// Makes a connection to a peer that is not connected, at the given time.
    pub fn set_connected(&mut self, address: SocketAddr, now: Timestamp) -> (r: Result<
        (),
        NetworkError,
    >)
        requires
            old(self).wf(),
        ensures
            final(self).wf(),
            old(self)@.connected.contains_key(address) ==> r == Err::<(), _>(
                NetworkError::PeerAlreadyConnected,
            ),
            !old(self)@.connected.contains_key(address) ==> r == Ok::<(), NetworkError>(()),
            r is Ok ==> final(self)@ == old(self)@.with_connected(address, now),
            r is Err ==> *final(self) == *old(self),
    {
        if self.is_connected(address) {
            return Err(NetworkError::PeerAlreadyConnected);
        }
        let mut info = self.take_unconnected(address);
        info.last_connected = Some(now);
        self.connected.insert(address, info);
        Ok(())
    }

    /// Gives up the connection to a peer, made or only begun. A peer without one stays as it is.
    pub fn set_disconnected(&mut self, address: SocketAddr) -> (r: Result<(), NetworkError>)
        requires
            old(self).wf(),
        ensures
            final(self).wf(),
            r == Ok::<(), NetworkError>(()),
            final(self)@ == old(self)@.with_disconnected(address),
    {
        if let Some(info) = self.connecting.remove(address) {
            self.disconnected.insert(address, info);
        } else if let Some(info) = self.connected.remove(address) {
            self.disconnected.insert(address, info);
            assert(self@.connecting =~= old(self)@.connecting);
        } else {
            assert(self@.connecting =~= old(self)@.connecting);
            assert(self@.connected =~= old(self)@.connected);
        }
        Ok(())
    }

    /// Learns of a peer: one that is new is listed as disconnected.
    pub fn add_peer(&mut self, address: SocketAddr)
        requires
            old(self).wf(),
        ensures
            final(self).wf(),
            final(self)@ == old(self)@.with_peer(address),
    {
        if !self.is_connecting(address) && !self.is_connected(address) && !self.is_disconnected(
            address,
        ) {
            self.disconnected.insert(address, PeerInfo::new(address));
        }
    }

    /// Replaces the quality of a connected peer.
    pub fn set_quality(&mut self, address: SocketAddr, quality: PeerQuality)
        requires
            old(self).wf(),
            old(self)@.connected.contains_key(address),
            quality.wf(),
        ensures
            final(self).wf(),
            final(self)@ == old(self)@.with_quality(address, quality),
            final(self).connected.keys() == old(self).connected.keys(),
    {
        if let Some(info) = self.connected.get(address) {
            let mut info: PeerInfo = *info;
            info.quality = quality;
            self.connected.insert(address, info);
        }
    }
}

} // verus!
