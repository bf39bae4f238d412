//! The round in which a node looks after its peers.
//!
//! A round is a sequence of steps. Each step decides on one thing to do outside of the node, and
//! the next step hears how that went. Other events may change the node between two steps.
use crate::address::SocketAddr;
use crate::clock::{is_no_later, Timestamp};
use crate::error::NetworkError;
use crate::message::{Direction, Message, Payload};
use crate::node::{Disconnection, Node};
use crate::peer_book::{PeerBookView, PeerInfo};
use std::time::Instant;
use vstd::prelude::*;

verus! {

/// How far a round has come.
#[derive(Clone, Copy, Debug, PartialEq, Eq, Structural)]
pub enum UpdatePhase {
    Start,
    /// Connections to the bootnodes are attempted.
    Bootnodes,
    /// Connections to disconnected peers are attempted.
    DisconnectedPeers,
    /// The connected peers are asked for further peers.
    GetPeers,
    /// Peers above the permitted number are disconnected.
    Excess,
    /// The connected peers are pinged.
    Pings,
    Done,
}

/// A round under way.
pub struct UpdateRound {
    pub phase: UpdatePhase,
    /// How many peers were connected at the start.
    pub number_of_connected_peers: usize,
    /// How many peers were missing at the start.
    pub wanted: usize,
    /// The peers that the phase has yet to turn to.
    pub pending: Vec<SocketAddr>,
    /// The peer to which a connection is being attempted.
    pub attempt: Option<SocketAddr>,
    /// The block height that the pings carry.
    pub block_height: u32,
}

pub struct UpdateRoundView {
    pub phase: UpdatePhase,
    pub number_of_connected_peers: nat,
    pub wanted: nat,
    pub pending: Seq<SocketAddr>,
    pub attempt: Option<SocketAddr>,
    pub block_height: u32,
}

impl View for UpdateRound {
    type V = UpdateRoundView;

    open spec fn view(&self) -> UpdateRoundView {
        UpdateRoundView {
            phase: self.phase,
            number_of_connected_peers: self.number_of_connected_peers as nat,
            wanted: self.wanted as nat,
            pending: self.pending@,
            attempt: self.attempt,
            block_height: self.block_height,
        }
    }
}

impl UpdateRoundView {
    /// A round of which nothing has happened yet.
    pub open spec fn fresh() -> UpdateRoundView {
        UpdateRoundView {
            phase: UpdatePhase::Start,
            number_of_connected_peers: 0,
            wanted: 0,
            pending: Seq::empty(),
            attempt: None,
            block_height: 0,
        }
    }
}

impl UpdateRound {
    pub fn new() -> (r: Self)
        ensures
            r@ == UpdateRoundView::fresh(),
    {
        UpdateRound {
            phase: UpdatePhase::Start,
            number_of_connected_peers: 0,
            wanted: 0,
            pending: Vec::new(),
            attempt: None,
            block_height: 0,
        }
    }

    /// Turns to the next pending peer, if there is one.
    fn take_next(&mut self) -> (r: Option<SocketAddr>)
        ensures
            r is Some <==> old(self)@.pending.len() > 0,
            r matches Some(address) ==> address == old(self)@.pending[0],
            final(self)@ == (UpdateRoundView {
                pending: if old(self)@.pending.len() > 0 {
                    old(self)@.pending.drop_first()
                } else {
                    old(self)@.pending
                },
                ..old(self)@
            }),
    {
        if self.pending.len() == 0 {
            None
        } else {
            let address = self.pending.remove(0);
            assert(self@.pending =~= old(self)@.pending.drop_first());
            Some(address)
        }
    }
}

/// What a step of a round leaves to be done.
pub enum UpdateAction<T> {
    /// Nothing; the next step may follow.
    Continue,
    /// Attempt a connection to the peer, and report how that went.
    Connect(SocketAddr),
    /// Send the message.
    Send(Message),
    /// Finish the disconnections.
    Disconnected(Vec<Disconnection<T>>),
    /// Nothing; the round is over.
    Done,
}

/// The node has too few peers and is to look for more.
pub open spec fn is_short_of_peers<T, C>(node: &Node<T, C>) -> bool {
    !node.environment.is_bootnode && node.peer_book@.connected.len()
        < node.environment.minimum_number_of_connected_peers
}

/// A ping to the peer was recorded, if it is connected, with an instant that was read for it.
pub open spec fn ping_recorded<T, C>(
    before: &Node<T, C>,
    after: &Node<T, C>,
    address: SocketAddr,
) -> bool {
    if before.connected(address) {
        exists|now: Instant|
            crate::clock::is_instant_read(now) && #[trigger] after.has_new_quality(
                before,
                address,
                before.quality(address).pinged(now),
            )
    } else {
        *after == *before
    }
}

/// How a step ends a connection attempt: a peer that could not be connected to is disconnected.
pub open spec fn attempt_step<T, C>(
    before: &Node<T, C>,
    round: UpdateRoundView,
    outcome: Result<(), NetworkError>,
    after: &Node<T, C>,
    next: UpdateRoundView,
    action: UpdateAction<T>,
) -> bool {
    &&& next == (UpdateRoundView { attempt: None, ..round })
    &&& match outcome {
        Ok(_) => *after == *before && action is Continue,
        Err(_) => {
            &&& action matches UpdateAction::Disconnected(done)
            &&& done@.len() == 1
            &&& done@[0].address == round.attempt->0
            &&& crate::node::disconnected(before, after, done@[0])
        },
    }
}

/// How a step attempts a connection to the next pending peer.
pub open spec fn connect_step<T>(
    round: UpdateRoundView,
    next: UpdateRoundView,
    action: UpdateAction<T>,
) -> bool {
    &&& action == UpdateAction::<T>::Connect(round.pending[0])
    &&& next == (UpdateRoundView {
        pending: round.pending.drop_first(),
        attempt: Some(round.pending[0]),
        ..round
    })
}

/// How a step asks the next pending peer for further peers, or ends the broadcast after the last.
pub open spec fn getpeers_step<T>(
    round: UpdateRoundView,
    next: UpdateRoundView,
    action: UpdateAction<T>,
) -> bool {
    if round.pending.len() > 0 {
        &&& action == UpdateAction::<T>::Send(
            Message {
                direction: Direction::Outbound(round.pending[0]),
                payload: Payload::GetPeers,
            },
        )
        &&& next == (UpdateRoundView { pending: round.pending.drop_first(), ..round })
    } else {
        action is Continue && next == (UpdateRoundView { phase: UpdatePhase::Excess, ..round })
    }
}

/// How a step pings the next pending peer, or ends the broadcast after the last.
pub open spec fn pings_step<T, C>(
    before: &Node<T, C>,
    round: UpdateRoundView,
    after: &Node<T, C>,
    next: UpdateRoundView,
    action: UpdateAction<T>,
) -> bool {
    if round.pending.len() > 0 {
        &&& ping_recorded(before, after, round.pending[0])
        &&& action == UpdateAction::<T>::Send(
            Message {
                direction: Direction::Outbound(round.pending[0]),
                payload: Payload::Ping(round.block_height),
            },
        )
        &&& next == (UpdateRoundView { pending: round.pending.drop_first(), ..round })
    } else {
        &&& *after == *before
        &&& action is Continue
        &&& next == (UpdateRoundView { phase: UpdatePhase::Done, ..round })
    }
}

/// How a step deals with peers above the permitted number, and gets ready to ping the others.
pub open spec fn excess_step<T, C>(
    before: &Node<T, C>,
    round: UpdateRoundView,
    current_block_height: u32,
    after: &Node<T, C>,
    next: UpdateRoundView,
    action: UpdateAction<T>,
) -> bool {
    let permitted = before.environment.maximum_number_of_connected_peers;
    &&& if round.number_of_connected_peers > permitted {
        &&& action matches UpdateAction::Disconnected(done)
        &&& excess_disconnected(
            before,
            after,
            (round.number_of_connected_peers - permitted) as nat,
            done@,
        )
    } else {
        *after == *before && action is Continue
    }
    &&& next == if round.number_of_connected_peers != 0 {
        UpdateRoundView {
            phase: UpdatePhase::Pings,
            pending: after.peer_book.connected.keys(),
            block_height: current_block_height,
            ..round
        }
    } else {
        UpdateRoundView { phase: UpdatePhase::Done, ..round }
    }
}

/// One step of a round: what it makes of the node and the round, and what it leaves to be done.
pub open spec fn update_step<T, C>(
    before: &Node<T, C>,
    round: UpdateRoundView,
    outcome: Result<(), NetworkError>,
    current_block_height: u32,
    after: &Node<T, C>,
    next: UpdateRoundView,
    action: UpdateAction<T>,
) -> bool {
    let idle = *after == *before && action is Continue;
    if round.attempt is Some {
        attempt_step(before, round, outcome, after, next, action)
    } else {
        match round.phase {
            UpdatePhase::Start => idle && next == start_of_round(before, round),
            UpdatePhase::Bootnodes => if round.pending.len() > 0 {
                *after == *before && connect_step(round, next, action)
            } else {
                idle && next == (UpdateRoundView {
                    phase: UpdatePhase::DisconnectedPeers,
                    pending: before.peer_book.disconnected.keys().take(
                        vstd::math::min(
                            round.wanted as int,
                            before.peer_book@.disconnected.len() as int,
                        ),
                    ),
                    ..round
                })
            },
            UpdatePhase::DisconnectedPeers => if round.pending.len() > 0 {
                *after == *before && connect_step(round, next, action)
            } else {
                idle && next == (UpdateRoundView {
                    phase: UpdatePhase::GetPeers,
                    pending: before.peer_book.connected.keys(),
                    ..round
                })
            },
            UpdatePhase::GetPeers => *after == *before && getpeers_step(round, next, action),
            UpdatePhase::Excess => excess_step(
                before,
                round,
                current_block_height,
                after,
                next,
                action,
            ),
            UpdatePhase::Pings => pings_step(before, round, after, next, action),
            UpdatePhase::Done => *after == *before && action is Done && next == round,
        }
    }
}

/// A round in which the peers have been counted.
pub open spec fn start_of_round<T, C>(
    node: &Node<T, C>,
    round: UpdateRoundView,
) -> UpdateRoundView {
    let connected = node.peer_book@.connected.len();
    if is_short_of_peers(node) {
        UpdateRoundView {
            phase: UpdatePhase::Bootnodes,
            number_of_connected_peers: connected,
            wanted: (node.environment.minimum_number_of_connected_peers - connected) as nat,
            pending: node.environment.bootnodes@.filter(
                crate::node::not_connected(node.peer_book@),
            ),
            ..round
        }
    } else {
        UpdateRoundView {
            phase: UpdatePhase::Excess,
            number_of_connected_peers: connected,
            ..round
        }
    }
}

/// The chosen peers are connected, each is chosen once, as many as asked for or all there are, the
/// most recently connected first, and none that was left out connected more recently.
pub open spec fn are_most_recent(
    connected: Map<SocketAddr, PeerInfo>,
    chosen: Seq<SocketAddr>,
    count: nat,
) -> bool {
    &&& chosen.no_duplicates()
    &&& chosen.len() == vstd::math::min(count as int, connected.len() as int)
    &&& forall|i: int| 0 <= i < chosen.len() ==> connected.contains_key(#[trigger] chosen[i])
    &&& forall|i: int, j: int|
        0 <= i < j < chosen.len() ==> crate::clock::no_later(
            connected[#[trigger] chosen[j]].last_connected,
            connected[#[trigger] chosen[i]].last_connected,
        )
    &&& forall|address: SocketAddr, i: int|
        #[trigger] connected.contains_key(address) && !chosen.contains(address) && 0 <= i
            < chosen.len() ==> crate::clock::no_later(
            connected[address].last_connected,
            connected[#[trigger] chosen[i]].last_connected,
        )
}

/// The book after the given peers were disconnected, all of which were connected.
pub open spec fn without(book: PeerBookView, gone: Set<SocketAddr>) -> PeerBookView {
    PeerBookView {
        connected: book.connected.remove_keys(gone),
        disconnected: book.disconnected.union_prefer_right(book.connected.restrict(gone)),
        ..book
    }
}

/// The addresses of the peers that were disconnected, in order.
pub open spec fn disconnected_addresses<T>(done: Seq<Disconnection<T>>) -> Seq<SocketAddr> {
    done.map_values(|disconnection: Disconnection<T>| disconnection.address)
}

/// The most recently connected peers were disconnected, as many as asked for.
pub open spec fn excess_disconnected<T, C>(
    before: &Node<T, C>,
    after: &Node<T, C>,
    count: nat,
    done: Seq<Disconnection<T>>,
) -> bool {
    let gone = disconnected_addresses(done);
    &&& are_most_recent(before.peer_book@.connected, gone, count)
    &&& after.environment == before.environment
    &&& after.peer_book@ == without(before.peer_book@, gone.to_set())
    &&& after.tasks@ == before.tasks@.remove_keys(gone.to_set())
    &&& after.channels@ == before.channels@.remove_keys(gone.to_set())
    &&& forall|i: int| 0 <= i < done.len() ==> crate::node::is_disconnection(before, #[trigger] done[i])
}

impl<T, C> Node<T, C> {
    /// When the connection to a connected peer was made.
    fn connected_since(&self, address: SocketAddr) -> (r: Option<Timestamp>)
        requires
            self.wf(),
            self.connected(address),
        ensures
            r == self.peer_book@.connected[address].last_connected,
    {
        match self.peer_book.connected.get(address) {
            Some(info) => info.last_connected,
            None => None,
        }
    }

    /// The most recently connected peers, up to the given number.
    pub fn most_recent_peers(&self, count: usize) -> (r: Vec<SocketAddr>)
        requires
            self.wf(),
        ensures
            are_most_recent(self.peer_book@.connected, r@, count as nat),
    {
        proof {
            self.peer_book.connected.lemma_keys();
        }
        let ghost connected = self.peer_book@.connected;
        let mut rest = self.connected_addresses();
        let mut chosen: Vec<SocketAddr> = Vec::new();
        while chosen.len() < count && rest.len() > 0
            invariant
                self.wf(),
                connected == self.peer_book@.connected,
                chosen@.no_duplicates(),
                rest@.no_duplicates(),
                chosen@.len() + rest@.len() == connected.len(),
                chosen@.len() <= count,
                forall|a: SocketAddr| #[trigger]
                    connected.contains_key(a) <==> chosen@.contains(a) || rest@.contains(a),
                forall|a: SocketAddr| !(#[trigger] chosen@.contains(a) && rest@.contains(a)),
                forall|i: int|
                    0 <= i < chosen@.len() ==> connected.contains_key(#[trigger] chosen@[i]),
                forall|i: int, j: int|
                    0 <= i < j < chosen@.len() ==> crate::clock::no_later(
                        connected[#[trigger] chosen@[j]].last_connected,
                        connected[#[trigger] chosen@[i]].last_connected,
                    ),
                forall|i: int, j: int|
                    0 <= i < chosen@.len() && 0 <= j < rest@.len() ==> crate::clock::no_later(
                        connected[#[trigger] rest@[j]].last_connected,
                        connected[#[trigger] chosen@[i]].last_connected,
                    ),
            decreases rest@.len(),
        {
            let best = self.most_recent_index(&rest);
            let ghost rest_before = rest@;
            let ghost chosen_before = chosen@;
            let address = rest.swap_remove(best);
            chosen.push(address);
            proof {
                let last = rest_before.len() - 1;
                assert(rest_before[best as int] == address);
                assert(rest_before.contains(address));
                assert forall|j: int| 0 <= j < rest@.len() implies #[trigger] rest@[j] == (if j
                    == best {
                    rest_before[last]
                } else {
                    rest_before[j]
                }) by {}
                assert forall|a: SocketAddr| rest@.contains(a) <==> rest_before.contains(a) && a
                    != address by {
                    if rest@.contains(a) {
                        let k = rest@.index_of(a);
                        assert(rest@[k] == a);
                        let from = if k == best { last } else { k };
                        assert(rest_before[from] == a);
                    }
                    if rest_before.contains(a) && a != address {
                        let k = rest_before.index_of(a);
                        assert(rest_before[k] == a);
                        let to = if k == last { best as int } else { k };
                        assert(rest@[to] == a);
                    }
                }
                assert forall|a: SocketAddr| chosen@.contains(a) <==> chosen_before.contains(a)
                    || a == address by {
                    if chosen_before.contains(a) {
                        assert(chosen@[chosen_before.index_of(a)] == a);
                    }
                    assert(chosen@[chosen_before.len() as int] == address);
                }
                assert(!chosen_before.contains(address));
                assert forall|a: SocketAddr| !(#[trigger] chosen@.contains(a) && rest@.contains(
                    a,
                )) by {
                    assert(chosen_before.contains(a) ==> !rest_before.contains(a));
                }
                assert forall|i: int, j: int| 0 <= i < chosen@.len() && 0 <= j
                    < rest@.len() implies crate::clock::no_later(
                    connected[#[trigger] rest@[j]].last_connected,
                    connected[#[trigger] chosen@[i]].last_connected,
                ) by {
                    let from = if j == best { last } else { j };
                    assert(rest@[j] == rest_before[from]);
                    if i < chosen_before.len() {
                        assert(chosen@[i] == chosen_before[i]);
                    }
                }
                assert forall|i: int, j: int| 0 <= i < j
                    < chosen@.len() implies crate::clock::no_later(
                    connected[#[trigger] chosen@[j]].last_connected,
                    connected[#[trigger] chosen@[i]].last_connected,
                ) by {
                    assert(chosen@[i] == chosen_before[i]);
                    if j < chosen_before.len() {
                        assert(chosen@[j] == chosen_before[j]);
                    } else {
                        assert(rest_before[best as int] == chosen@[j]);
                    }
                }
            }
        }
        proof {
            assert forall|address: SocketAddr, i: int|
                #[trigger] connected.contains_key(address) && !chosen@.contains(address) && 0 <= i
                    < chosen@.len() implies crate::clock::no_later(
                connected[address].last_connected,
                connected[#[trigger] chosen@[i]].last_connected,
            ) by {
                let j = rest@.index_of(address);
                assert(rest@[j] == address);
            }
        }
        chosen
    }

    /// Where the most recently connected of the given peers stands.
    fn most_recent_index(&self, addresses: &Vec<SocketAddr>) -> (r: usize)
        requires
            self.wf(),
            addresses@.len() > 0,
            forall|i: int| 0 <= i < addresses@.len() ==> self.connected(#[trigger] addresses@[i]),
        ensures
            r < addresses@.len(),
            forall|i: int|
                0 <= i < addresses@.len() ==> crate::clock::no_later(
                    self.peer_book@.connected[#[trigger] addresses@[i]].last_connected,
                    self.peer_book@.connected[addresses@[r as int]].last_connected,
                ),
    {
        let mut best: usize = 0;
        let mut best_since = self.connected_since(addresses[0]);
        let mut i: usize = 1;
        while i < addresses.len()
            invariant
                self.wf(),
                forall|j: int|
                    0 <= j < addresses@.len() ==> self.connected(#[trigger] addresses@[j]),
                best < i <= addresses@.len(),
                best_since == self.peer_book@.connected[addresses@[best as int]].last_connected,
                forall|j: int|
                    0 <= j < i ==> crate::clock::no_later(
                        self.peer_book@.connected[#[trigger] addresses@[j]].last_connected,
                        best_since,
                    ),
            decreases addresses@.len() - i,
        {
            let since = self.connected_since(addresses[i]);
            if is_no_later(best_since, since) {
                best = i;
                best_since = since;
            }
            i += 1;
        }
        best
    }

    /// Disconnects from the most recently connected peers, up to the given number.
    pub fn disconnect_excess(&mut self, count: usize) -> (r: Vec<Disconnection<T>>)
        requires
            old(self).wf(),
        ensures
            final(self).wf(),
            excess_disconnected(old(self), final(self), count as nat, r@),
    {
        let chosen = self.most_recent_peers(count);
        let mut done: Vec<Disconnection<T>> = Vec::new();
        let mut i: usize = 0;
        let ghost before = *self;
        proof {
            let none = chosen@.take(0).to_set();
            assert(self.peer_book@.connected =~= without(before.peer_book@, none).connected);
            assert(self.peer_book@.disconnected =~= without(before.peer_book@, none).disconnected);
            assert(self.tasks@ =~= before.tasks@.remove_keys(none));
            assert(self.channels@ =~= before.channels@.remove_keys(none));
        }
        while i < chosen.len()
            invariant
                self.wf(),
                before.wf(),
                are_most_recent(before.peer_book@.connected, chosen@, count as nat),
                i <= chosen@.len(),
                done@.len() == i,
                forall|j: int| 0 <= j < i ==> (#[trigger] done@[j]).address == chosen@[j],
                forall|j: int| 0 <= j < i ==> crate::node::is_disconnection(&before, #[trigger] done@[j]),
                self.environment == before.environment,
                self.peer_book@ == without(before.peer_book@, chosen@.take(i as int).to_set()),
                self.tasks@ == before.tasks@.remove_keys(chosen@.take(i as int).to_set()),
                self.channels@ == before.channels@.remove_keys(chosen@.take(i as int).to_set()),
            decreases chosen@.len() - i,
        {
            let address = chosen[i];
            let ghost gone = chosen@.take(i as int).to_set();
            let ghost now_gone = chosen@.take(i + 1).to_set();
            proof {
                assert(before.connected(chosen@[i as int]));
                if gone.contains(address) {
                    let k = chosen@.take(i as int).index_of(address);
                    assert(chosen@[k] == chosen@[i as int]);
                }
                assert(!gone.contains(address));
                assert(self.connected(address));
                assert(self.syncing(address) == before.syncing(address));
                assert(chosen@.take(i + 1) =~= chosen@.take(i as int).push(address));
                assert forall|a: SocketAddr| now_gone.contains(a) <==> gone.contains(a) || a
                    == address by {
                    if gone.contains(a) {
                        let k = chosen@.take(i as int).index_of(a);
                        assert(chosen@.take(i + 1)[k] == a);
                    }
                    assert(chosen@.take(i + 1)[i as int] == address);
                }
                assert(now_gone =~= gone.insert(address));
            }
            let disconnection = self.disconnect_from_peer(address);
            done.push(disconnection);
            proof {
                let expected = without(before.peer_book@, now_gone);
                assert(self.peer_book@.connecting =~= expected.connecting);
                assert(self.peer_book@.connected =~= expected.connected);
                assert(self.peer_book@.disconnected =~= expected.disconnected);
                assert(self.tasks@ =~= before.tasks@.remove_keys(now_gone));
                assert(self.channels@ =~= before.channels@.remove_keys(now_gone));
            }
            i += 1;
        }
        proof {
            assert(chosen@.take(i as int) =~= chosen@);
            assert(disconnected_addresses(done@) =~= chosen@);
        }
        done
    }

    /// Takes one step of the broadcast that asks every pending peer of the round for further peers.
    pub fn broadcast_getpeers_requests(&self, round: &mut UpdateRound) -> (r: UpdateAction<T>)
        ensures
            getpeers_step(old(round)@, final(round)@, r),
    {
        match round.take_next() {
            Some(address) => UpdateAction::Send(
                Message::new(Direction::Outbound(address), Payload::GetPeers),
            ),
            None => {
                round.phase = UpdatePhase::Excess;
                UpdateAction::Continue
            },
        }
    }

    /// Takes one step of the broadcast that pings every pending peer of the round with the block
    /// height of the round.
    pub fn broadcast_pings(&mut self, round: &mut UpdateRound) -> (r: UpdateAction<T>)
        requires
            old(self).wf(),
        ensures
            final(self).wf(),
            pings_step(old(self), old(round)@, final(self), final(round)@, r),
    {
        match round.take_next() {
            Some(address) => {
                self.sending_ping(address);
                UpdateAction::Send(
                    Message::new(Direction::Outbound(address), Payload::Ping(round.block_height)),
                )
            },
            None => {
                round.phase = UpdatePhase::Done;
                UpdateAction::Continue
            },
        }
    }

    /// Takes one step of a round that keeps up the number of connected peers and sends them
    /// updates.
    ///
    /// `outcome` says how the latest connection attempt of the round went, if there is one that
    /// has not been reported yet.
    pub fn update_peers(
        &mut self,
        round: &mut UpdateRound,
        outcome: Result<(), NetworkError>,
        current_block_height: u32,
    ) -> (r: UpdateAction<T>)
        requires
            old(self).wf(),
        ensures
            final(self).wf(),
            update_step(
                old(self),
                old(round)@,
                outcome,
                current_block_height,
                final(self),
                final(round)@,
                r,
            ),
    {
        if let Some(address) = round.attempt {
            round.attempt = None;
            return match outcome {
                Ok(_) => UpdateAction::Continue,
                Err(_) => {
                    let mut done: Vec<Disconnection<T>> = Vec::new();
                    done.push(self.disconnect_from_peer(address));
                    UpdateAction::Disconnected(done)
                },
            };
        }
        match round.phase {
            UpdatePhase::Start => {
                let connected = self.peer_book.number_of_connected_peers();
                let minimum: usize = self.environment.minimum_number_of_connected_peers as usize;
                round.number_of_connected_peers = connected;
                if !self.environment.is_bootnode && connected < minimum {
                    round.phase = UpdatePhase::Bootnodes;
                    round.wanted = minimum - connected;
                    round.pending = self.connect_to_bootnodes();
                } else {
                    round.phase = UpdatePhase::Excess;
                }
                UpdateAction::Continue
            },
            UpdatePhase::Bootnodes => match round.take_next() {
                Some(address) => {
                    round.attempt = Some(address);
                    UpdateAction::Connect(address)
                },
                None => {
                    round.phase = UpdatePhase::DisconnectedPeers;
                    round.pending = self.connect_to_disconnected_peers(round.wanted);
                    UpdateAction::Continue
                },
            },
            UpdatePhase::DisconnectedPeers => match round.take_next() {
                Some(address) => {
                    round.attempt = Some(address);
                    UpdateAction::Connect(address)
                },
                None => {
                    round.phase = UpdatePhase::GetPeers;
                    round.pending = self.connected_addresses();
                    UpdateAction::Continue
                },
            },
            UpdatePhase::GetPeers => self.broadcast_getpeers_requests(round),
            UpdatePhase::Excess => {
                let connected = round.number_of_connected_peers;
                let maximum: usize = self.environment.maximum_number_of_connected_peers as usize;
                let action = if connected > maximum {
                    UpdateAction::Disconnected(self.disconnect_excess(connected - maximum))
                } else {
                    UpdateAction::Continue
                };
                if connected != 0 {
                    round.phase = UpdatePhase::Pings;
                    round.pending = self.connected_addresses();
                    round.block_height = current_block_height;
                } else {
                    round.phase = UpdatePhase::Done;
                }
                action
            },
            UpdatePhase::Pings => self.broadcast_pings(round),
            UpdatePhase::Done => UpdateAction::Done,
        }
    }
}

} // verus!
