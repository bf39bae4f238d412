//! What comes of each step of a round, said of the numbers, addresses and fields that go in and
//! come out.
//!
//! As in [`crate::calls`], each law speaks of a call that has been made with the given arguments
//! and that returned the given result.
use crate::address::SocketAddr;
use crate::calls::{did_not_happen_after, is_left_to_do, only_quality_differs};
use crate::error::NetworkError;
use crate::message::{Direction, Payload};
use crate::node::{Disconnection, Node};
use crate::peer_book::PeerQuality;
use crate::update::{UpdateAction, UpdateRound};
use std::time::Instant;
use vstd::prelude::*;

verus! {

/// A new round has yet to start and has nothing to turn to.
pub proof fn law_new_round_has_yet_to_start(r: UpdateRound)
    requires
        call_ensures(UpdateRound::new, (), r),
    ensures
        r.phase is Start,
        r.pending@.len() == 0,
        r.attempt is None,
{
    assert(r@.phase == r.phase && r@.attempt == r.attempt);
}

/// A round starts by counting the connected peers. If the node is no bootnode and the peers are
/// fewer than the minimum, it turns to the bootnodes that are not connected and wants as many peers
/// as are missing; in every other case it turns to the excess peers at once.
pub proof fn law_round_seeks_peers_below_the_minimum<T, C>(
    node: &mut Node<T, C>,
    round: &mut UpdateRound,
    outcome: Result<(), NetworkError>,
    current_block_height: u32,
    r: UpdateAction<T>,
)
    requires
        old(round).phase is Start,
        old(round).attempt is None,
        call_ensures(
            Node::<T, C>::update_peers,
            (node, round, outcome, current_block_height),
            r,
        ),
    ensures
        *final(node) == *old(node),
        r is Continue,
        final(round).attempt is None,
        ({
            let connected = old(node).peer_book.connected@;
            let environment = old(node).environment;
            let minimum = environment.minimum_number_of_connected_peers as int;
            &&& final(round).number_of_connected_peers == connected.len()
            &&& !environment.is_bootnode && connected.len() < minimum ==> {
                &&& final(round).phase is Bootnodes
                &&& final(round).wanted == minimum - connected.len()
                &&& final(round).pending@ == environment.bootnodes@.filter(
                    |address: SocketAddr| !connected.contains_key(address),
                )
            }
            &&& environment.is_bootnode || connected.len() >= minimum
                ==> final(round).phase is Excess
        }),
{
    assert(old(round)@.phase == old(round).phase && old(round)@.attempt == old(round).attempt);
    assert(final(round)@.phase == final(round).phase);
    assert(final(round)@.attempt == final(round).attempt);
    let connected = old(node).peer_book.connected@;
    let keep = |address: SocketAddr| !connected.contains_key(address);
    assert(crate::node::not_connected(old(node).peer_book@) =~= keep);
}

/// While there are peers to connect to, a round turns to the first of them: it asks for a connection
/// and takes the peer off the list. The node itself does not change.
pub proof fn law_round_attempts_the_next_peer<T, C>(
    node: &mut Node<T, C>,
    round: &mut UpdateRound,
    outcome: Result<(), NetworkError>,
    current_block_height: u32,
    r: UpdateAction<T>,
)
    requires
        old(round).phase is Bootnodes || old(round).phase is DisconnectedPeers,
        old(round).attempt is None,
        old(round).pending@.len() > 0,
        call_ensures(
            Node::<T, C>::update_peers,
            (node, round, outcome, current_block_height),
            r,
        ),
    ensures
        *final(node) == *old(node),
        r == UpdateAction::<T>::Connect(old(round).pending@[0]),
        final(round).attempt == Some(old(round).pending@[0]),
        old(round).pending@ == seq![old(round).pending@[0]] + final(round).pending@,
        final(round).phase == old(round).phase,
        final(round).wanted == old(round).wanted,
        final(round).number_of_connected_peers == old(round).number_of_connected_peers,
{
    assert(old(round)@.phase == old(round).phase && old(round)@.attempt == old(round).attempt);
    assert(final(round)@.phase == final(round).phase);
    assert(final(round)@.attempt == final(round).attempt);
    assert(final(round)@.pending == final(round).pending@);
    assert(old(round).pending@ =~= seq![old(round).pending@[0]] + final(round).pending@);
}

/// A round goes on after an attempt to connect, in whichever phase it was. If the attempt failed,
/// whatever the error, the peer is disconnected; otherwise the node stays as it is.
pub proof fn law_round_disconnects_a_peer_that_it_could_not_reach<T, C>(
    node: &mut Node<T, C>,
    round: &mut UpdateRound,
    outcome: Result<(), NetworkError>,
    current_block_height: u32,
    r: UpdateAction<T>,
)
    requires
        old(node).wf(),
        old(round).attempt is Some,
        call_ensures(
            Node::<T, C>::update_peers,
            (node, round, outcome, current_block_height),
            r,
        ),
    ensures
        final(round).attempt is None,
        final(round).phase == old(round).phase,
        final(round).pending@ == old(round).pending@,
        final(round).wanted == old(round).wanted,
        final(round).number_of_connected_peers == old(round).number_of_connected_peers,
        outcome is Ok ==> *final(node) == *old(node) && r is Continue,
        outcome is Err ==> {
            let address = old(round).attempt->0;
            let before = old(node).peer_book;
            let after = final(node).peer_book;
            &&& r is Disconnected
            &&& r->Disconnected_0@.len() == 1
            &&& r->Disconnected_0@[0].address == address
            &&& is_left_to_do(*old(node), r->Disconnected_0@[0])
            &&& final(node).environment == old(node).environment
            &&& final(node).tasks@ == old(node).tasks@.remove(address)
            &&& final(node).channels@ == old(node).channels@.remove(address)
            &&& after.connecting@ == before.connecting@.remove(address)
            &&& after.connected@ == before.connected@.remove(address)
            &&& after.disconnected@.remove(address) == before.disconnected@.remove(address)
            &&& before.connecting@.contains_key(address) ==> after.disconnected@.contains_key(
                address,
            ) && after.disconnected@[address] == before.connecting@[address]
            &&& before.connected@.contains_key(address) ==> after.disconnected@.contains_key(
                address,
            ) && after.disconnected@[address] == before.connected@[address]
        },
{
    assert(old(round)@.phase == old(round).phase && old(round)@.attempt == old(round).attempt);
    assert(final(round)@.phase == final(round).phase);
    assert(final(round)@.attempt == final(round).attempt);
    assert(final(round)@.pending == final(round).pending@);
    if outcome is Err {
        crate::calls::lemma_book_given_up(
            old(node).peer_book,
            final(node).peer_book,
            old(round).attempt->0,
        );
    }
}

/// Once the bootnodes are done with, a round turns to disconnected peers: as many as it wants, or
/// all there are, and to each of them once.
pub proof fn law_round_turns_to_as_many_disconnected_peers_as_it_wants<T, C>(
    node: &mut Node<T, C>,
    round: &mut UpdateRound,
    outcome: Result<(), NetworkError>,
    current_block_height: u32,
    r: UpdateAction<T>,
)
    requires
        old(node).wf(),
        old(round).phase is Bootnodes,
        old(round).attempt is None,
        old(round).pending@.len() == 0,
        call_ensures(
            Node::<T, C>::update_peers,
            (node, round, outcome, current_block_height),
            r,
        ),
    ensures
        *final(node) == *old(node),
        r is Continue,
        final(round).phase is DisconnectedPeers,
        final(round).attempt is None,
        final(round).number_of_connected_peers == old(round).number_of_connected_peers,
        final(round).pending@.len() == vstd::math::min(
            old(round).wanted as int,
            old(node).peer_book.disconnected@.len() as int,
        ),
        final(round).pending@.no_duplicates(),
        forall|i: int|
            0 <= i < final(round).pending@.len() ==> old(
                node,
            ).peer_book.disconnected@.contains_key(#[trigger] final(round).pending@[i]),
{
    assert(old(round)@.phase == old(round).phase && old(round)@.attempt == old(round).attempt);
    assert(old(round)@.pending == old(round).pending@);
    assert(final(round)@.phase == final(round).phase);
    assert(final(round)@.attempt == final(round).attempt);
    assert(final(round)@.pending == final(round).pending@);
    let disconnected = old(node).peer_book.disconnected;
    disconnected.lemma_keys();
    assert forall|i: int| 0 <= i < final(round).pending@.len() implies disconnected@.contains_key(
        #[trigger] final(round).pending@[i],
    ) by {
        assert(disconnected.keys().contains(final(round).pending@[i]));
    }
}

/// Once the disconnected peers are done with, a round turns to every connected peer, each once, to
/// ask it for further peers.
pub proof fn law_round_turns_to_every_connected_peer<T, C>(
    node: &mut Node<T, C>,
    round: &mut UpdateRound,
    outcome: Result<(), NetworkError>,
    current_block_height: u32,
    r: UpdateAction<T>,
    address: SocketAddr,
)
    requires
        old(node).wf(),
        old(round).phase is DisconnectedPeers,
        old(round).attempt is None,
        old(round).pending@.len() == 0,
        call_ensures(
            Node::<T, C>::update_peers,
            (node, round, outcome, current_block_height),
            r,
        ),
    ensures
        *final(node) == *old(node),
        r is Continue,
        final(round).phase is GetPeers,
        final(round).attempt is None,
        final(round).number_of_connected_peers == old(round).number_of_connected_peers,
        final(round).pending@.no_duplicates(),
        final(round).pending@.contains(address) <==> old(
            node,
        ).peer_book.connected@.contains_key(address),
{
    assert(old(round)@.phase == old(round).phase && old(round)@.attempt == old(round).attempt);
    assert(old(round)@.pending == old(round).pending@);
    assert(final(round)@.phase == final(round).phase);
    assert(final(round)@.attempt == final(round).attempt);
    assert(final(round)@.pending == final(round).pending@);
    old(node).peer_book.connected.lemma_keys();
}

/// A round asks the first of the peers that it has yet to turn to for further peers, and takes it
/// off the list; after the last of them it turns to the excess peers. The node does not change.
pub proof fn law_round_asks_the_next_peer<T, C>(
    node: &mut Node<T, C>,
    round: &mut UpdateRound,
    outcome: Result<(), NetworkError>,
    current_block_height: u32,
    r: UpdateAction<T>,
)
    requires
        old(round).phase is GetPeers,
        old(round).attempt is None,
        call_ensures(
            Node::<T, C>::update_peers,
            (node, round, outcome, current_block_height),
            r,
        ),
    ensures
        *final(node) == *old(node),
        is_next_request(*old(round), *final(round), r),
{
    assert(old(round)@.phase == old(round).phase && old(round)@.attempt == old(round).attempt);
    lemma_next_request(*old(round), *final(round), r);
}

/// The first of the pending peers is asked for further peers, or there is none left.
pub open spec fn is_next_request<T>(
    before: UpdateRound,
    after: UpdateRound,
    action: UpdateAction<T>,
) -> bool {
    &&& after.attempt == before.attempt
    &&& after.number_of_connected_peers == before.number_of_connected_peers
    &&& if before.pending@.len() > 0 {
        &&& after.phase == before.phase
        &&& before.pending@ == seq![before.pending@[0]] + after.pending@
        &&& action is Send
        &&& action->Send_0.direction == Direction::Outbound(before.pending@[0])
        &&& action->Send_0.payload is GetPeers
    } else {
        after.phase is Excess && action is Continue
    }
}

proof fn lemma_next_request<T>(before: UpdateRound, after: UpdateRound, action: UpdateAction<T>)
    requires
        crate::update::getpeers_step(before@, after@, action),
    ensures
        is_next_request(before, after, action),
{
    assert(before@.phase == before.phase && before@.attempt == before.attempt);
    assert(after@.phase == after.phase && after@.attempt == after.attempt);
    assert(before@.pending == before.pending@ && after@.pending == after.pending@);
    if before.pending@.len() > 0 {
        assert(before.pending@ =~= seq![before.pending@[0]] + after.pending@);
    }
}

/// Each call of the broadcast asks the first pending peer for further peers, or ends it.
pub proof fn law_broadcast_asks_the_next_peer<T, C>(
    node: &Node<T, C>,
    round: &mut UpdateRound,
    r: UpdateAction<T>,
)
    requires
        call_ensures(Node::<T, C>::broadcast_getpeers_requests, (node, round), r),
    ensures
        is_next_request(*old(round), *final(round), r),
{
    lemma_next_request(*old(round), *final(round), r);
}

/// The given peers are as many as asked for, or all that are connected. Each is connected and given
/// once, none connected before one that is given after it, and none that is left out connected
/// after one that is given.
pub proof fn law_most_recent_peers_are_the_latest<T, C>(
    node: &Node<T, C>,
    count: usize,
    r: Vec<SocketAddr>,
    i: int,
    j: int,
    other: SocketAddr,
)
    requires
        call_ensures(Node::<T, C>::most_recent_peers, (node, count), r),
        0 <= i < r@.len(),
    ensures
        r@.len() == vstd::math::min(count as int, node.peer_book.connected@.len() as int),
        node.peer_book.connected@.contains_key(r@[i]),
        i < j < r@.len() ==> r@[i] != r@[j] && did_not_happen_after(
            node.peer_book.connected@[r@[j]].last_connected,
            node.peer_book.connected@[r@[i]].last_connected,
        ),
        node.peer_book.connected@.contains_key(other) && !r@.contains(other)
            ==> did_not_happen_after(
            node.peer_book.connected@[other].last_connected,
            node.peer_book.connected@[r@[i]].last_connected,
        ),
{
    assert(node.peer_book@.connected == node.peer_book.connected@);
}

/// The peers that were let go of: they were connected, are as many as asked for or all there were,
/// and are disconnected with all that was known of them, the latest to connect first. Nothing
/// listens or sends to them. Every other peer is as it was, and if it is connected it did not
/// connect after any of them.
pub open spec fn are_let_go<T, C>(
    before: Node<T, C>,
    after: Node<T, C>,
    count: int,
    done: Seq<Disconnection<T>>,
) -> bool {
    let old_book = before.peer_book;
    let new_book = after.peer_book;
    &&& after.environment == before.environment
    &&& done.len() == vstd::math::min(count, old_book.connected@.len() as int)
    &&& new_book.connected@.len() == old_book.connected@.len() - done.len()
    &&& new_book.connecting@ == old_book.connecting@
    &&& forall|i: int|
        0 <= i < done.len() ==> {
            let address = (#[trigger] done[i]).address;
            &&& is_left_to_do(before, done[i])
            &&& old_book.connected@.contains_key(address)
            &&& !new_book.connected@.contains_key(address)
            &&& new_book.disconnected@.contains_key(address)
            &&& new_book.disconnected@[address] == old_book.connected@[address]
            &&& !after.tasks@.contains_key(address)
            &&& !after.channels@.contains_key(address)
        }
    &&& forall|i: int, j: int|
        0 <= i < j < done.len() ==> (#[trigger] done[i]).address != (#[trigger] done[j]).address
            && did_not_happen_after(
            old_book.connected@[done[j].address].last_connected,
            old_book.connected@[done[i].address].last_connected,
        )
    &&& forall|address: SocketAddr|
        #![trigger new_book.connected@.contains_key(address)]
        (forall|i: int| 0 <= i < done.len() ==> (#[trigger] done[i]).address != address) ==> {
            &&& new_book.connected@.contains_key(address) <==> old_book.connected@.contains_key(
                address,
            )
            &&& new_book.connected@.contains_key(address) ==> new_book.connected@[address]
                == old_book.connected@[address]
            &&& new_book.disconnected@.contains_key(address)
                <==> old_book.disconnected@.contains_key(address)
            &&& new_book.disconnected@.contains_key(address) ==> new_book.disconnected@[address]
                == old_book.disconnected@[address]
            &&& after.tasks@.contains_key(address) <==> before.tasks@.contains_key(address)
            &&& after.tasks@.contains_key(address) ==> after.tasks@[address]
                == before.tasks@[address]
            &&& after.channels@.contains_key(address) <==> before.channels@.contains_key(address)
            &&& after.channels@.contains_key(address) ==> after.channels@[address]
                == before.channels@[address]
        }
    &&& forall|address: SocketAddr, i: int|
        #[trigger] new_book.connected@.contains_key(address) && 0 <= i < done.len()
            ==> did_not_happen_after(
            old_book.connected@[address].last_connected,
            old_book.connected@[(#[trigger] done[i]).address].last_connected,
        )
}

proof fn lemma_are_let_go<T, C>(
    before: Node<T, C>,
    after: Node<T, C>,
    count: nat,
    done: Seq<Disconnection<T>>,
)
    requires
        before.wf(),
        crate::update::excess_disconnected(&before, &after, count, done),
    ensures
        are_let_go(before, after, count as int, done),
{
    let gone = crate::update::disconnected_addresses(done);
    let old_book = before.peer_book;
    let new_book = after.peer_book;
    assert(old_book@.connected == old_book.connected@);
    assert(old_book@.disconnected == old_book.disconnected@);
    assert(new_book@.connected == new_book.connected@);
    assert(new_book@.connecting == new_book.connecting@);
    assert(new_book@.disconnected == new_book.disconnected@);
    old_book.connected.lemma_keys();
    gone.unique_seq_to_set();
    assert(gone.to_set().subset_of(old_book.connected@.dom()));
    old_book.connected@.lemma_remove_keys_len(gone.to_set());
    assert forall|i: int| 0 <= i < done.len() implies {
        let address = (#[trigger] done[i]).address;
        &&& is_left_to_do(before, done[i])
        &&& old_book.connected@.contains_key(address)
        &&& !new_book.connected@.contains_key(address)
        &&& new_book.disconnected@.contains_key(address)
        &&& new_book.disconnected@[address] == old_book.connected@[address]
        &&& !after.tasks@.contains_key(address)
        &&& !after.channels@.contains_key(address)
    } by {
        assert(gone[i] == done[i].address);
        assert(gone.to_set().contains(gone[i]));
    }
    assert forall|i: int, j: int| 0 <= i < j < done.len() implies (#[trigger] done[i]).address != (
    #[trigger] done[j]).address && did_not_happen_after(
        old_book.connected@[done[j].address].last_connected,
        old_book.connected@[done[i].address].last_connected,
    ) by {
        assert(gone[i] == done[i].address && gone[j] == done[j].address);
    }
    assert forall|address: SocketAddr|
        (forall|i: int| 0 <= i < done.len() ==> (#[trigger] done[i]).address
            != address) implies !gone.to_set().contains(address) by {
        if gone.contains(address) {
            let i = gone.index_of(address);
            assert(gone[i] == done[i].address);
        }
    }
    assert forall|address: SocketAddr, i: int|
        #[trigger] new_book.connected@.contains_key(address) && 0 <= i
            < done.len() implies did_not_happen_after(
        old_book.connected@[address].last_connected,
        old_book.connected@[(#[trigger] done[i]).address].last_connected,
    ) by {
        assert(gone[i] == done[i].address);
        assert(!gone.contains(address)) by {
            if gone.contains(address) {
                assert(gone.to_set().contains(address));
            }
        }
        assert(old_book.connected@.contains_key(address));
    }
}

/// The peers that are let go of as excess are the latest to connect, as many as asked for.
pub proof fn law_excess_peers_are_let_go<T, C>(
    node: &mut Node<T, C>,
    count: usize,
    r: Vec<Disconnection<T>>,
)
    requires
        old(node).wf(),
        call_ensures(Node::<T, C>::disconnect_excess, (node, count), r),
    ensures
        are_let_go(*old(node), *final(node), count as int, r@),
{
    lemma_are_let_go(*old(node), *final(node), count as nat, r@);
}

/// A round that counted more peers than the maximum lets go of as many as it counted above it, the
/// latest to connect; otherwise the node stays as it is. It then turns to every peer that is
/// connected by then, each once, to ping it with the current block height, unless it counted no
/// peers: then it is over.
pub proof fn law_round_lets_go_of_peers_above_the_maximum<T, C>(
    node: &mut Node<T, C>,
    round: &mut UpdateRound,
    outcome: Result<(), NetworkError>,
    current_block_height: u32,
    r: UpdateAction<T>,
    address: SocketAddr,
)
    requires
        old(node).wf(),
        final(node).wf(),
        old(round).phase is Excess,
        old(round).attempt is None,
        call_ensures(
            Node::<T, C>::update_peers,
            (node, round, outcome, current_block_height),
            r,
        ),
    ensures
        ({
            let counted = old(round).number_of_connected_peers as int;
            let maximum = old(node).environment.maximum_number_of_connected_peers as int;
            &&& counted <= maximum ==> *final(node) == *old(node) && r is Continue
            &&& counted > maximum ==> r is Disconnected && are_let_go(
                *old(node),
                *final(node),
                counted - maximum,
                r->Disconnected_0@,
            )
            &&& counted == 0 ==> final(round).phase is Done
            &&& counted > 0 ==> {
                &&& final(round).phase is Pings
                &&& final(round).block_height == current_block_height
                &&& final(round).pending@.no_duplicates()
                &&& final(round).pending@.contains(address)
                    <==> final(node).peer_book.connected@.contains_key(address)
            }
        }),
        final(round).attempt is None,
{
    assert(old(round)@.phase == old(round).phase && old(round)@.attempt == old(round).attempt);
    assert(final(round)@.phase == final(round).phase);
    assert(final(round)@.attempt == final(round).attempt);
    assert(final(round)@.pending == final(round).pending@);
    assert(final(round)@.block_height == final(round).block_height);
    final(node).peer_book.connected.lemma_keys();
    let counted = old(round).number_of_connected_peers as int;
    let maximum = old(node).environment.maximum_number_of_connected_peers as int;
    if counted > maximum {
        lemma_are_let_go(
            *old(node),
            *final(node),
            (counted - maximum) as nat,
            r->Disconnected_0@,
        );
    }
}

/// The first of the pending peers is pinged with the block height of the round, and the ping is
/// stamped with an instant that `Instant::now` returned for it, or there is none left and the round
/// is over.
pub open spec fn is_next_ping<T, C>(
    old_node: Node<T, C>,
    before: UpdateRound,
    new_node: Node<T, C>,
    after: UpdateRound,
    action: UpdateAction<T>,
) -> bool {
    &&& after.attempt == before.attempt
    &&& after.block_height == before.block_height
    &&& after.number_of_connected_peers == before.number_of_connected_peers
    &&& if before.pending@.len() > 0 {
        let address = before.pending@[0];
        let old_quality = old_node.peer_book.connected@[address].quality;
        let new_quality = new_node.peer_book.connected@[address].quality;
        &&& after.phase == before.phase
        &&& before.pending@ == seq![address] + after.pending@
        &&& action is Send
        &&& action->Send_0.direction == Direction::Outbound(address)
        &&& action->Send_0.payload == Payload::Ping(before.block_height)
        &&& if old_node.peer_book.connected@.contains_key(address) {
            &&& new_quality.last_ping_sent is Some
            &&& call_ensures(Instant::now, (), new_quality.last_ping_sent->0)
            &&& only_quality_differs(
                old_node,
                new_node,
                address,
                PeerQuality {
                    last_ping_sent: new_quality.last_ping_sent,
                    expecting_pong: true,
                    ..old_quality
                },
            )
        } else {
            new_node == old_node
        }
    } else {
        after.phase is Done && action is Continue && new_node == old_node
    }
}

proof fn lemma_next_ping<T, C>(
    old_node: Node<T, C>,
    before: UpdateRound,
    new_node: Node<T, C>,
    after: UpdateRound,
    action: UpdateAction<T>,
)
    requires
        crate::update::pings_step(&old_node, before@, &new_node, after@, action),
    ensures
        is_next_ping(old_node, before, new_node, after, action),
{
    assert(before@.phase == before.phase && before@.attempt == before.attempt);
    assert(after@.phase == after.phase && after@.attempt == after.attempt);
    assert(before@.block_height == before.block_height);
    assert(after@.block_height == after.block_height);
    assert(before@.pending == before.pending@ && after@.pending == after.pending@);
    if before.pending@.len() > 0 {
        let address = before.pending@[0];
        assert(before.pending@ =~= seq![address] + after.pending@);
        if old_node.connected(address) {
            let now = choose|now: Instant|
                crate::clock::is_instant_read(now) && #[trigger] new_node.has_new_quality(
                    &old_node,
                    address,
                    old_node.quality(address).pinged(now),
                );
            let quality = old_node.quality(address).pinged(now);
            crate::calls::lemma_new_quality(old_node, new_node, address, quality);
        }
    }
}

/// Each call of the broadcast pings the first pending peer, or ends the round.
pub proof fn law_broadcast_pings_the_next_peer<T, C>(
    node: &mut Node<T, C>,
    round: &mut UpdateRound,
    r: UpdateAction<T>,
)
    requires
        call_ensures(Node::<T, C>::broadcast_pings, (node, round), r),
    ensures
        is_next_ping(*old(node), *old(round), *final(node), *final(round), r),
{
    lemma_next_ping(*old(node), *old(round), *final(node), *final(round), r);
}

/// A round pings the first of the peers that it has yet to turn to, and takes it off the list; after
/// the last of them it is over.
pub proof fn law_round_pings_the_next_peer<T, C>(
    node: &mut Node<T, C>,
    round: &mut UpdateRound,
    outcome: Result<(), NetworkError>,
    current_block_height: u32,
    r: UpdateAction<T>,
)
    requires
        old(round).phase is Pings,
        old(round).attempt is None,
        call_ensures(
            Node::<T, C>::update_peers,
            (node, round, outcome, current_block_height),
            r,
        ),
    ensures
        is_next_ping(*old(node), *old(round), *final(node), *final(round), r),
{
    assert(old(round)@.phase == old(round).phase && old(round)@.attempt == old(round).attempt);
    lemma_next_ping(*old(node), *old(round), *final(node), *final(round), r);
}

/// A round that is over stays over and changes nothing.
pub proof fn law_finished_round_changes_nothing<T, C>(
    node: &mut Node<T, C>,
    round: &mut UpdateRound,
    outcome: Result<(), NetworkError>,
    current_block_height: u32,
    r: UpdateAction<T>,
)
    requires
        old(round).phase is Done,
        old(round).attempt is None,
        call_ensures(
            Node::<T, C>::update_peers,
            (node, round, outcome, current_block_height),
            r,
        ),
    ensures
        *final(node) == *old(node),
        r is Done,
        final(round).phase is Done,
        final(round).attempt is None,
{
    assert(old(round)@.phase == old(round).phase && old(round)@.attempt == old(round).attempt);
    assert(final(round)@.phase == final(round).phase);
    assert(final(round)@.attempt == final(round).attempt);
}

} // verus!
