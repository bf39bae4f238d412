//! What holds of the library as a whole.
use crate::address::SocketAddr;
use crate::clock::{Elapsed, Timestamp};
use crate::error::NetworkError;
use crate::handshake::AwaitingReply;
use crate::message::{Direction, Message, Payload, Version};
use crate::node::{Disconnection, Node};
use crate::peer_book::{PeerBookView, PeerInfo, PeerQuality};
use crate::update::{UpdateAction, UpdatePhase, UpdateRoundView};
use std::time::Instant;
use vstd::prelude::*;

verus! {

/// A disconnected peer is neither connected nor connecting, no block sync with it is under way,
/// and nothing listens or sends to it. A peer that the book knew is listed as disconnected, with
/// all that was known of it, and no other peer is affected.
pub proof fn law_disconnection_is_complete<T, C>(
    before: &Node<T, C>,
    after: &Node<T, C>,
    disconnection: Disconnection<T>,
)
    requires
        before.wf(),
        crate::node::disconnected(before, after, disconnection),
    ensures
        ({
            let address = disconnection.address;
            let old_book = before.peer_book@;
            let new_book = after.peer_book@;
            &&& !after.connected(address)
            &&& !new_book.connecting.contains_key(address)
            &&& !after.syncing(address)
            &&& !after.tasks@.contains_key(address)
            &&& !after.channels@.contains_key(address)
            &&& old_book.knows(address) <==> new_book.disconnected.contains_key(address)
            &&& old_book.connected.contains_key(address) ==> new_book.disconnected[address]
                == old_book.connected[address]
            &&& old_book.connecting.contains_key(address) ==> new_book.disconnected[address]
                == old_book.connecting[address]
            &&& new_book.connecting == old_book.connecting.remove(address)
            &&& new_book.connected == old_book.connected.remove(address)
            &&& new_book.disconnected.remove(address) == old_book.disconnected.remove(address)
        }),
{
    let address = disconnection.address;
    let old_book = before.peer_book@;
    let new_book = after.peer_book@;
    assert(new_book.connecting =~= old_book.connecting.remove(address));
    assert(new_book.connected =~= old_book.connected.remove(address));
    assert(new_book.disconnected.remove(address) =~= old_book.disconnected.remove(address));
}

/// A peer to which a round could not connect is left neither connected nor connecting, whatever
/// went wrong, and nothing listens or sends to it.
pub proof fn law_failed_attempt_leaves_no_connection<T, C>(
    before: &Node<T, C>,
    round: UpdateRoundView,
    error: NetworkError,
    current_block_height: u32,
    after: &Node<T, C>,
    next: UpdateRoundView,
    action: UpdateAction<T>,
)
    requires
        before.wf(),
        round.attempt is Some,
        crate::update::update_step(
            before,
            round,
            Err(error),
            current_block_height,
            after,
            next,
            action,
        ),
    ensures
        !after.connected(round.attempt->0),
        !after.peer_book@.connecting.contains_key(round.attempt->0),
        !after.tasks@.contains_key(round.attempt->0),
        !after.channels@.contains_key(round.attempt->0),
        next.attempt is None,
{
    let done = action->Disconnected_0;
    law_disconnection_is_complete(before, after, done@[0]);
}

/// The step of a round that looks for excess peers leaves no more than are permitted, if no peer
/// has connected since they were counted: exactly as many as are permitted if there were more, and
/// all of them otherwise.
pub proof fn law_number_of_peers_is_permitted<T, C>(
    before: &Node<T, C>,
    round: UpdateRoundView,
    outcome: Result<(), NetworkError>,
    current_block_height: u32,
    after: &Node<T, C>,
    next: UpdateRoundView,
    action: UpdateAction<T>,
)
    requires
        before.wf(),
        round.phase is Excess,
        round.attempt is None,
        round.number_of_connected_peers == before.peer_book@.connected.len(),
        crate::update::update_step(
            before,
            round,
            outcome,
            current_block_height,
            after,
            next,
            action,
        ),
    ensures
        after.peer_book@.connected.len() == vstd::math::min(
            before.peer_book@.connected.len() as int,
            before.environment.maximum_number_of_connected_peers as int,
        ),
        after.peer_book@.connected.submap_of(before.peer_book@.connected),
{
    let permitted = before.environment.maximum_number_of_connected_peers;
    let connected = before.peer_book@.connected;
    before.peer_book.connected.lemma_keys();
    if round.number_of_connected_peers > permitted {
        let done = action->Disconnected_0;
        let gone = crate::update::disconnected_addresses(done@);
        gone.unique_seq_to_set();
        assert(gone.to_set().subset_of(connected.dom()));
        connected.lemma_remove_keys_len(gone.to_set());
    }
}

/// A peer that stays connected while another is let go of did not connect more recently.
pub proof fn law_most_recent_peers_go_first<T, C>(
    before: &Node<T, C>,
    after: &Node<T, C>,
    count: nat,
    done: Seq<Disconnection<T>>,
    kept: SocketAddr,
    gone: SocketAddr,
)
    requires
        before.wf(),
        crate::update::excess_disconnected(before, after, count, done),
        after.connected(kept),
        before.connected(gone),
        !after.connected(gone),
    ensures
        crate::clock::no_later(
            before.peer_book@.connected[kept].last_connected,
            before.peer_book@.connected[gone].last_connected,
        ),
{
    let addresses = crate::update::disconnected_addresses(done);
    assert(addresses.to_set().contains(gone));
    let i = addresses.index_of(gone);
    assert(addresses[i] == gone);
    assert(!addresses.contains(kept)) by {
        if addresses.contains(kept) {
            assert(addresses.to_set().contains(kept));
        }
    }
    assert(before.peer_book@.connected.contains_key(kept));
}

/// How many phases a round still has before it.
pub open spec fn phases_left(phase: UpdatePhase) -> nat {
    match phase {
        UpdatePhase::Start => 6,
        UpdatePhase::Bootnodes => 5,
        UpdatePhase::DisconnectedPeers => 4,
        UpdatePhase::GetPeers => 3,
        UpdatePhase::Excess => 2,
        UpdatePhase::Pings => 1,
        UpdatePhase::Done => 0,
    }
}

/// How many steps a phase of a round still has before it, but for the one that ends it.
pub open spec fn steps_left(round: UpdateRoundView) -> nat {
    2 * round.pending.len() + if round.attempt is Some {
        1nat
    } else {
        0
    }
}

/// A round comes to an end: with every step that is not the last it comes closer to it, however
/// the node changes in between.
pub proof fn law_rounds_end<T, C>(
    before: &Node<T, C>,
    round: UpdateRoundView,
    outcome: Result<(), NetworkError>,
    current_block_height: u32,
    after: &Node<T, C>,
    next: UpdateRoundView,
    action: UpdateAction<T>,
)
    requires
        crate::update::update_step(
            before,
            round,
            outcome,
            current_block_height,
            after,
            next,
            action,
        ),
    ensures
        action is Done || phases_left(next.phase) < phases_left(round.phase) || (phases_left(
            next.phase,
        ) == phases_left(round.phase) && steps_left(next) < steps_left(round)),
{
}

/// One step of a round with all that it went by.
pub struct RoundStep<T, C> {
    pub before: Node<T, C>,
    pub round: UpdateRoundView,
    pub outcome: Result<(), NetworkError>,
    pub current_block_height: u32,
    pub after: Node<T, C>,
    pub next: UpdateRoundView,
    pub action: UpdateAction<T>,
}

impl<T, C> RoundStep<T, C> {
    pub open spec fn holds(self) -> bool {
        crate::update::update_step(
            &self.before,
            self.round,
            self.outcome,
            self.current_block_height,
            &self.after,
            self.next,
            self.action,
        )
    }
}

/// The steps of a round from its start. The node may change between two of them.
pub open spec fn is_round<T, C>(steps: Seq<RoundStep<T, C>>) -> bool {
    &&& steps.len() > 0 ==> steps[0].round == UpdateRoundView::fresh()
    &&& forall|i: int| 0 <= i < steps.len() ==> (#[trigger] steps[i]).holds()
    &&& forall|i: int, j: int|
        0 <= i && j == i + 1 && j < steps.len() ==> (#[trigger] steps[j]).round == (
        #[trigger] steps[i]).next
}

/// The node is no bootnode, and fewer peers are connected to it than the minimum.
pub open spec fn lacks_peers<T, C>(node: &Node<T, C>) -> bool {
    &&& !node.environment.is_bootnode
    &&& node.peer_book.connected@.len() < node.environment.minimum_number_of_connected_peers
}

/// A node that is a bootnode, or that has as many peers as it needs when the round starts,
/// attempts no connection and asks for no peers.
pub proof fn law_content_node_seeks_no_peers<T, C>(steps: Seq<RoundStep<T, C>>, i: int)
    requires
        is_round(steps),
        0 <= i < steps.len(),
        !lacks_peers(&steps[0].before),
    ensures
        !(steps[i].action is Connect),
        steps[i].action matches UpdateAction::Send(message) ==> !(message.payload is GetPeers),
        i > 0 ==> steps[i].round.phase is Excess || steps[i].round.phase is Pings
            || steps[i].round.phase is Done,
        steps[i].round.attempt is None,
    decreases i,
{
    assert(steps[i].holds());
    if i > 0 {
        law_content_node_seeks_no_peers(steps, i - 1);
        assert(steps[i - 1].holds());
        assert(steps[i].round == steps[i - 1].next);
    }
}

/// The bootnodes to which a round that seeks peers is to connect.
pub open spec fn bootnodes_sought<T, C>(steps: Seq<RoundStep<T, C>>) -> Seq<SocketAddr> {
    let node = steps[0].before;
    node.environment.bootnodes@.filter(crate::node::not_connected(node.peer_book@))
}

/// The step of a round that seeks peers in which it is done with the bootnodes and chooses among the
/// disconnected peers.
pub open spec fn choosing_step<T, C>(steps: Seq<RoundStep<T, C>>) -> int {
    1 + 2 * bootnodes_sought(steps).len() as int
}

/// The disconnected peers to which a round that seeks peers is to connect: as many as were missing
/// at its start, or all there are by then.
pub open spec fn peers_sought<T, C>(steps: Seq<RoundStep<T, C>>) -> Seq<SocketAddr> {
    let start = steps[0].before;
    let node = steps[choosing_step(steps)].before;
    node.peer_book.disconnected.keys().take(
        vstd::math::min(
            start.environment.minimum_number_of_connected_peers
                - start.peer_book@.connected.len(),
            node.peer_book@.disconnected.len() as int,
        ),
    )
}

/// The step of a round that seeks peers in which it is done with connecting and turns to the
/// connected peers.
pub open spec fn asking_step<T, C>(steps: Seq<RoundStep<T, C>>) -> int {
    choosing_step(steps) + 1 + 2 * peers_sought(steps).len()
}

/// The connected peers that a round that seeks peers is to ask for further peers.
pub open spec fn peers_asked<T, C>(steps: Seq<RoundStep<T, C>>) -> Seq<SocketAddr> {
    steps[asking_step(steps)].before.peer_book.connected.keys()
}

/// Where a round that seeks peers stands before it turns to the bootnode in the given place, or
/// after the last of them.
proof fn lemma_bootnodes_in_turn<T, C>(steps: Seq<RoundStep<T, C>>, i: int)
    requires
        is_round(steps),
        lacks_peers(&steps[0].before),
        0 <= i <= bootnodes_sought(steps).len(),
        1 + 2 * i < steps.len(),
    ensures
        steps[1 + 2 * i].round.phase is Bootnodes,
        steps[1 + 2 * i].round.attempt is None,
        steps[1 + 2 * i].round.pending == bootnodes_sought(steps).skip(i),
        steps[1 + 2 * i].round.wanted
            == steps[0].before.environment.minimum_number_of_connected_peers
            - steps[0].before.peer_book@.connected.len(),
    decreases i,
{
    let sought = bootnodes_sought(steps);
    if i == 0 {
        assert(steps[0].holds());
        assert(steps[1].round == steps[0].next);
        assert(sought.skip(0) =~= sought);
    } else {
        lemma_bootnodes_in_turn(steps, i - 1);
        lemma_attempt_takes_two_steps(steps, 2 * i - 1);
        assert(sought.skip(i - 1).drop_first() =~= sought.skip(i));
    }
}

/// An attempt takes two steps: one that asks for it, and one that hears how it went.
proof fn lemma_attempt_takes_two_steps<T, C>(steps: Seq<RoundStep<T, C>>, at: int)
    requires
        is_round(steps),
        0 <= at < steps.len(),
        steps[at].round.phase is Bootnodes || steps[at].round.phase is DisconnectedPeers,
        steps[at].round.attempt is None,
        steps[at].round.pending.len() > 0,
    ensures
        steps[at].action == UpdateAction::<T>::Connect(steps[at].round.pending[0]),
        at + 1 < steps.len() ==> is_report_of(steps[at + 1], steps[at].round.pending[0]),
        at + 2 < steps.len() ==> steps[at + 2].round == (UpdateRoundView {
            pending: steps[at].round.pending.drop_first(),
            ..steps[at].round
        }),
{
    assert(steps[at].holds());
    if at + 1 < steps.len() {
        assert(steps[at + 1].holds());
        assert(steps[at + 1].round == steps[at].next);
    }
    if at + 2 < steps.len() {
        assert(steps[at + 2].round == steps[at + 1].next);
    }
}

/// The step hears how the attempt to connect to the peer went, and does nothing else but disconnect
/// the peer if it failed.
pub open spec fn is_report_of<T, C>(step: RoundStep<T, C>, address: SocketAddr) -> bool {
    &&& step.round.attempt == Some(address)
    &&& crate::update::attempt_step(
        &step.before,
        step.round,
        step.outcome,
        &step.after,
        step.next,
        step.action,
    )
}

/// A round that lacks peers attempts a connection to every bootnode that is not connected, each in
/// turn, and hears how that went before it goes on.
pub proof fn law_every_bootnode_is_attempted<T, C>(steps: Seq<RoundStep<T, C>>, i: int)
    requires
        is_round(steps),
        lacks_peers(&steps[0].before),
        0 <= i < bootnodes_sought(steps).len(),
        1 + 2 * i < steps.len(),
    ensures
        steps[1 + 2 * i].action == UpdateAction::<T>::Connect(bootnodes_sought(steps)[i]),
        2 + 2 * i < steps.len() ==> is_report_of(steps[2 + 2 * i], bootnodes_sought(steps)[i]),
{
    lemma_bootnodes_in_turn(steps, i);
    lemma_attempt_takes_two_steps(steps, 1 + 2 * i);
}

/// Where a round that seeks peers stands before it turns to the disconnected peer in the given
/// place, or after the last of them.
proof fn lemma_peers_in_turn<T, C>(steps: Seq<RoundStep<T, C>>, i: int)
    requires
        is_round(steps),
        lacks_peers(&steps[0].before),
        0 <= i <= peers_sought(steps).len(),
        choosing_step(steps) + 1 + 2 * i < steps.len(),
    ensures
        steps[choosing_step(steps)].action is Continue,
        steps[choosing_step(steps) + 1 + 2 * i].round.phase is DisconnectedPeers,
        steps[choosing_step(steps) + 1 + 2 * i].round.attempt is None,
        steps[choosing_step(steps) + 1 + 2 * i].round.pending == peers_sought(steps).skip(i),
    decreases i,
{
    let choosing = choosing_step(steps);
    let sought = peers_sought(steps);
    if i == 0 {
        lemma_bootnodes_in_turn(steps, bootnodes_sought(steps).len() as int);
        assert(steps[choosing].holds());
        assert(steps[choosing + 1].round == steps[choosing].next);
        assert(sought.skip(0) =~= sought);
    } else {
        lemma_peers_in_turn(steps, i - 1);
        lemma_attempt_takes_two_steps(steps, choosing + 2 * i - 1);
        assert(sought.skip(i - 1).drop_first() =~= sought.skip(i));
    }
}

/// Once it is done with the bootnodes, a round that lacks peers attempts a connection to every
/// disconnected peer that it chose, each in turn, and hears how that went before it goes on.
pub proof fn law_every_chosen_peer_is_attempted<T, C>(steps: Seq<RoundStep<T, C>>, i: int)
    requires
        is_round(steps),
        lacks_peers(&steps[0].before),
        0 <= i < peers_sought(steps).len(),
        choosing_step(steps) + 1 + 2 * i < steps.len(),
    ensures
        steps[choosing_step(steps)].action is Continue,
        steps[choosing_step(steps) + 1 + 2 * i].action == UpdateAction::<T>::Connect(
            peers_sought(steps)[i],
        ),
        choosing_step(steps) + 2 + 2 * i < steps.len() ==> is_report_of(
            steps[choosing_step(steps) + 2 + 2 * i],
            peers_sought(steps)[i],
        ),
{
    lemma_peers_in_turn(steps, i);
    lemma_attempt_takes_two_steps(steps, choosing_step(steps) + 1 + 2 * i);
}

/// Where a round that seeks peers stands before it asks the connected peer in the given place, or
/// after the last of them.
proof fn lemma_asks_in_turn<T, C>(steps: Seq<RoundStep<T, C>>, i: int)
    requires
        is_round(steps),
        lacks_peers(&steps[0].before),
        0 <= i <= peers_asked(steps).len(),
        asking_step(steps) + 1 + i < steps.len(),
    ensures
        steps[asking_step(steps)].action is Continue,
        steps[asking_step(steps) + 1 + i].round.phase is GetPeers,
        steps[asking_step(steps) + 1 + i].round.attempt is None,
        steps[asking_step(steps) + 1 + i].round.pending == peers_asked(steps).skip(i),
    decreases i,
{
    let asking = asking_step(steps);
    let asked = peers_asked(steps);
    if i == 0 {
        lemma_peers_in_turn(steps, peers_sought(steps).len() as int);
        assert(steps[asking].holds());
        assert(steps[asking + 1].round == steps[asking].next);
        assert(asked.skip(0) =~= asked);
    } else {
        lemma_asks_in_turn(steps, i - 1);
        assert(steps[asking + i].holds());
        assert(steps[asking + 1 + i].round == steps[asking + i].next);
        assert(asked.skip(i - 1).drop_first() =~= asked.skip(i));
    }
}

/// Once it is done with connecting, a round that lacks peers asks every connected peer for further
/// peers, each once and in turn.
pub proof fn law_every_connected_peer_is_asked<T, C>(steps: Seq<RoundStep<T, C>>, i: int)
    requires
        is_round(steps),
        lacks_peers(&steps[0].before),
        0 <= i < peers_asked(steps).len(),
        asking_step(steps) + 1 + i < steps.len(),
    ensures
        steps[asking_step(steps)].action is Continue,
        steps[asking_step(steps) + 1 + i].action == UpdateAction::<T>::Send(
            Message {
                direction: Direction::Outbound(peers_asked(steps)[i]),
                payload: Payload::GetPeers,
            },
        ),
        steps[asking_step(steps) + 1 + i].after == steps[asking_step(steps) + 1 + i].before,
{
    lemma_asks_in_turn(steps, i);
    assert(steps[asking_step(steps) + 1 + i].holds());
}

/// A round that lacks peers looks for excess peers right after it has asked the last peer, and so
/// attempts no connection and asks no peer beyond those that it sought and asked in turn.
pub proof fn law_seeking_ends_after_the_last_peer<T, C>(steps: Seq<RoundStep<T, C>>, i: int)
    requires
        is_round(steps),
        lacks_peers(&steps[0].before),
        asking_step(steps) + 1 + peers_asked(steps).len() < i < steps.len(),
    ensures
        i == asking_step(steps) + 2 + peers_asked(steps).len() ==> steps[i].round.phase is Excess,
        steps[i].round.phase is Excess || steps[i].round.phase is Pings
            || steps[i].round.phase is Done,
        steps[i].round.attempt is None,
        !(steps[i].action is Connect),
        steps[i].action matches UpdateAction::Send(message) ==> !(message.payload is GetPeers),
    decreases i,
{
    let last = asking_step(steps) + 1 + peers_asked(steps).len();
    if i == last + 1 {
        lemma_asks_in_turn(steps, peers_asked(steps).len() as int);
    } else {
        law_seeking_ends_after_the_last_peer(steps, i - 1);
    }
    assert(steps[i - 1].holds());
    assert(steps[i].round == steps[i - 1].next);
    assert(steps[i].holds());
}

/// Throughout a round the number of peers that were connected at its start is kept in mind.
proof fn lemma_number_is_kept<T, C>(steps: Seq<RoundStep<T, C>>, i: int)
    requires
        is_round(steps),
        0 < i < steps.len(),
    ensures
        steps[i].round.number_of_connected_peers == steps[0].before.peer_book@.connected.len(),
        !(steps[i].round.phase is Start),
    decreases i,
{
    assert(steps[i - 1].holds());
    assert(steps[i].round == steps[i - 1].next);
    if i > 1 {
        lemma_number_is_kept(steps, i - 1);
    }
}

/// A node that seeks peers in a round lets go of none for being too many in the same round, as long
/// as it is permitted to have as many peers as it needs.
pub proof fn law_seeking_node_sheds_no_peers<T, C>(steps: Seq<RoundStep<T, C>>, i: int)
    requires
        is_round(steps),
        0 < i < steps.len(),
        lacks_peers(&steps[0].before),
        steps[0].before.environment.minimum_number_of_connected_peers
            <= steps[i].before.environment.maximum_number_of_connected_peers,
        steps[i].round.phase is Excess,
        steps[i].round.attempt is None,
    ensures
        steps[i].after == steps[i].before,
        !(steps[i].action is Disconnected),
{
    lemma_number_is_kept(steps, i);
    assert(steps[i].holds());
}

/// From the given step of the round on, the node changes in its steps alone.
pub open spec fn undisturbed_from<T, C>(steps: Seq<RoundStep<T, C>>, from: int) -> bool {
    forall|i: int, j: int|
        from <= i && j == i + 1 && j < steps.len() ==> (#[trigger] steps[j]).before == (
        #[trigger] steps[i]).after
}

/// Once the excess peers are gone, a round keeps the others connected to its end, if nothing else
/// happens meanwhile.
pub proof fn law_pings_keep_the_connected_peers<T, C>(
    steps: Seq<RoundStep<T, C>>,
    excess: int,
    i: int,
)
    requires
        is_round(steps),
        0 <= excess <= i < steps.len(),
        steps[excess].round.phase is Excess,
        steps[excess].round.attempt is None,
        undisturbed_from(steps, excess),
    ensures
        steps[i].after.peer_book@.connected.dom() == steps[excess].after.peer_book@.connected.dom(),
        i > excess ==> steps[i].round.phase is Pings || steps[i].round.phase is Done,
        steps[i].round.attempt is None,
    decreases i,
{
    if i > excess {
        law_pings_keep_the_connected_peers(steps, excess, i - 1);
        assert(steps[i - 1].holds());
        assert(steps[i].holds());
        assert(steps[i].round == steps[i - 1].next);
        assert(steps[i].before == steps[i - 1].after);
        assert(steps[i].after.peer_book@.connected.dom()
            =~= steps[i].before.peer_book@.connected.dom());
    }
}

/// A node that does not lack peers has no more than are permitted from the second step of its round
/// to the end, if nothing else happens meanwhile: exactly as many as are permitted if it had more,
/// and all of them otherwise.
pub proof fn law_content_node_ends_up_with_a_permitted_number<T, C>(
    steps: Seq<RoundStep<T, C>>,
    i: int,
)
    requires
        is_round(steps),
        1 <= i < steps.len(),
        steps[0].before.wf(),
        undisturbed_from(steps, 0),
        !lacks_peers(&steps[0].before),
    ensures
        steps[i].after.peer_book@.connected.len() == vstd::math::min(
            steps[0].before.peer_book@.connected.len() as int,
            steps[0].before.environment.maximum_number_of_connected_peers as int,
        ),
        steps[i].after.peer_book@.connected.dom().subset_of(
            steps[0].before.peer_book@.connected.dom(),
        ),
{
    let first = steps[0];
    let second = steps[1];
    assert(first.holds());
    assert(second.holds());
    assert(second.round == first.next);
    assert(second.before == first.after);
    law_number_of_peers_is_permitted(
        &second.before,
        second.round,
        second.outcome,
        second.current_block_height,
        &second.after,
        second.next,
        second.action,
    );
    law_pings_keep_the_connected_peers(steps, 1, i);
}

/// Once the excess peers are gone, a round pings every connected peer, each once and in turn, with
/// the block height of that moment.
pub proof fn law_every_connected_peer_is_pinged<T, C>(
    steps: Seq<RoundStep<T, C>>,
    excess: int,
    i: int,
)
    requires
        is_round(steps),
        0 <= excess < steps.len(),
        steps[excess].round.phase is Excess,
        steps[excess].round.attempt is None,
        steps[excess].round.number_of_connected_peers != 0,
        0 <= i < steps[excess].after.peer_book.connected.keys().len(),
        excess + 1 + i < steps.len(),
    ensures
        steps[excess + 1 + i].action == UpdateAction::<T>::Send(
            Message {
                direction: Direction::Outbound(
                    steps[excess].after.peer_book.connected.keys()[i],
                ),
                payload: Payload::Ping(steps[excess].current_block_height),
            },
        ),
        crate::update::ping_recorded(
            &steps[excess + 1 + i].before,
            &steps[excess + 1 + i].after,
            steps[excess].after.peer_book.connected.keys()[i],
        ),
{
    lemma_pings_in_turn(steps, excess, i);
    assert(steps[excess + 1 + i].holds());
}

proof fn lemma_pings_in_turn<T, C>(steps: Seq<RoundStep<T, C>>, excess: int, i: int)
    requires
        is_round(steps),
        0 <= excess < steps.len(),
        steps[excess].round.phase is Excess,
        steps[excess].round.attempt is None,
        steps[excess].round.number_of_connected_peers != 0,
        0 <= i <= steps[excess].after.peer_book.connected.keys().len(),
        excess + 1 + i < steps.len(),
    ensures
        steps[excess + 1 + i].round.phase is Pings,
        steps[excess + 1 + i].round.attempt is None,
        steps[excess + 1 + i].round.block_height == steps[excess].current_block_height,
        steps[excess + 1 + i].round.pending == steps[excess].after.peer_book.connected.keys().skip(
            i,
        ),
    decreases i,
{
    let keys = steps[excess].after.peer_book.connected.keys();
    assert(steps[excess + i].holds());
    assert(steps[excess + 1 + i].round == steps[excess + i].next);
    if i == 0 {
        assert(keys.skip(0) =~= keys);
    } else {
        lemma_pings_in_turn(steps, excess, i - 1);
        assert(keys.skip(i - 1).drop_first() =~= keys.skip(i));
    }
}

/// A phase that a round has left does not come back.
proof fn lemma_phases_pass<T, C>(steps: Seq<RoundStep<T, C>>, i: int, j: int)
    requires
        is_round(steps),
        0 <= i <= j < steps.len(),
    ensures
        phases_left(steps[j].round.phase) <= phases_left(steps[i].round.phase),
    decreases j - i,
{
    if i < j {
        lemma_phases_pass(steps, i, j - 1);
        let last = steps[j - 1];
        assert(last.holds());
        assert(steps[j].round == last.next);
        law_rounds_end(
            &last.before,
            last.round,
            last.outcome,
            last.current_block_height,
            &last.after,
            last.next,
            last.action,
        );
    }
}

/// The step sends a ping.
pub open spec fn sends_ping<T, C>(step: RoundStep<T, C>) -> bool {
    step.action matches UpdateAction::Send(message) && message.payload is Ping
}

/// A round sends no ping but those to the peers that are connected once the excess peers are gone.
/// After the last of them it changes nothing more and only ends.
pub proof fn law_no_other_ping_is_sent<T, C>(steps: Seq<RoundStep<T, C>>, excess: int, i: int)
    requires
        is_round(steps),
        0 <= excess < steps.len(),
        steps[excess].round.phase is Excess,
        steps[excess].round.attempt is None,
        steps[excess].round.number_of_connected_peers != 0,
        0 <= i < steps.len(),
        i <= excess || excess + steps[excess].after.peer_book.connected.keys().len() < i,
    ensures
        !sends_ping(steps[i]),
        i > excess ==> steps[i].after == steps[i].before,
        i == excess + 1 + steps[excess].after.peer_book.connected.keys().len()
            ==> steps[i].action is Continue,
        i > excess + 1 + steps[excess].after.peer_book.connected.keys().len()
            ==> steps[i].action is Done && steps[i].round.phase is Done,
        steps[i].round.phase is Done ==> steps[i].round.attempt is None,
    decreases i,
{
    let count = steps[excess].after.peer_book.connected.keys().len();
    assert(steps[i].holds());
    if i <= excess {
        lemma_phases_pass(steps, i, excess);
    } else if i == excess + 1 + count {
        lemma_pings_in_turn(steps, excess, count as int);
    } else {
        assert(steps[i - 1].holds());
        assert(steps[i].round == steps[i - 1].next);
        if i == excess + 2 + count {
            lemma_pings_in_turn(steps, excess, count as int);
        } else {
            law_no_other_ping_is_sent(steps, excess, i - 1);
        }
    }
}

/// A round that starts without a connected peer sends no ping at all.
pub proof fn law_lonely_round_sends_no_ping<T, C>(steps: Seq<RoundStep<T, C>>, i: int)
    requires
        is_round(steps),
        0 <= i < steps.len(),
        steps[0].before.peer_book@.connected.len() == 0,
    ensures
        !sends_ping(steps[i]),
        !(steps[i].round.phase is Pings),
    decreases i,
{
    assert(steps[i].holds());
    if i > 0 {
        law_lonely_round_sends_no_ping(steps, i - 1);
        if i > 1 {
            lemma_number_is_kept(steps, i - 1);
        }
        assert(steps[i - 1].holds());
        assert(steps[i].round == steps[i - 1].next);
    }
}

/// The quality of a peer after the given number of sync blocks came in.
pub open spec fn after_blocks(quality: PeerQuality, received: nat) -> PeerQuality
    decreases received,
{
    if received == 0 {
        quality
    } else {
        after_blocks(quality, (received - 1) as nat).got_block()
    }
}

/// A sync of any number of blocks is under way until the last of them comes in, and that one alone
/// ends it.
pub proof fn law_sync_ends_with_its_last_block(quality: PeerQuality, count: usize, received: nat)
    requires
        0 < count,
        received <= count,
    ensures
        after_blocks(quality.expecting_blocks(count), received).remaining_sync_blocks == count
            - received,
        received < count ==> ((after_blocks(
            quality.expecting_blocks(count),
            received,
        ).remaining_sync_blocks == 1) <==> received + 1 == count),
    decreases received,
{
    if received > 0 {
        law_sync_ends_with_its_last_block(quality, count, (received - 1) as nat);
    }
}

/// A ping and its pong give the round-trip time and are no failure; a further pong is one, and
/// leaves the round-trip time as it is. Pings in a row count as the latest of them, from which the
/// round-trip time is taken.
pub proof fn law_one_pong_answers_one_ping(
    quality: PeerQuality,
    earlier: Instant,
    now: Instant,
    elapsed: Elapsed,
    later: Elapsed,
)
    ensures
        ({
            let answered = quality.pinged(now).ponged(elapsed);
            let again = answered.ponged(later);
            &&& quality.pinged(earlier).pinged(now) == quality.pinged(now)
            &&& quality.pinged(now).last_ping_sent == Some(now)
            &&& answered.wf()
            &&& !answered.expecting_pong
            &&& answered.rtt_ms == elapsed.millis() % 0x1_0000_0000_0000_0000
            &&& answered.failures == quality.failures
            &&& again.rtt_ms == answered.rtt_ms
            &&& !again.expecting_pong
            &&& again.failures == (quality.failures + 1) % 0x1_0000_0000
        }),
{
}

/// A connected peer that was just heard of, later than any other, is the one last seen.
pub proof fn law_peer_heard_of_is_last_seen<T, C>(
    before: &Node<T, C>,
    after: &Node<T, C>,
    address: SocketAddr,
    now: Timestamp,
    latest: SocketAddr,
)
    requires
        before.connected(address),
        after.has_new_quality(before, address, before.quality(address).seen(now)),
        forall|other: SocketAddr| #[trigger]
            before.connected(other) && other != address ==> !crate::clock::no_later(
                Some(now),
                before.quality(other).last_seen,
            ),
        after.connected(latest),
        forall|other: SocketAddr| #[trigger]
            after.connected(other) ==> crate::clock::no_later(
                after.quality(other).last_seen,
                after.quality(latest).last_seen,
            ),
    ensures
        latest == address,
{
    assert(after.connected(address));
    if latest != address {
        assert(before.connected(latest));
        assert(after.quality(latest) == before.quality(latest));
    }
}

/// A node never begins a connection to itself.
pub proof fn law_no_connection_to_self(own_address: SocketAddr, book: PeerBookView)
    ensures
        initiation_refused(own_address, own_address, book),
        forall|address: SocketAddr|
            (address.spec_ip().spec_is_unspecified() || address.spec_ip().spec_is_loopback())
                && address.spec_port() == own_address.spec_port() ==> #[trigger]
            initiation_refused(address, own_address, book),
{
}

/// The wish to connect is turned down because the address leads back to the node.
pub open spec fn initiation_refused(
    address: SocketAddr,
    own_address: SocketAddr,
    book: PeerBookView,
) -> bool {
    crate::node::initiation_result(address, own_address, book) == Err::<(), _>(
        NetworkError::SelfConnectAttempt,
    )
}

/// A connection that is begun, completed and given up takes the peer from its place in the book to
/// the connecting, the connected and at last the disconnected peers, one status at a time. The
/// quality of the peer is kept all along, and the book remembers when it was connected.
pub proof fn law_life_of_a_connection(book: PeerBookView, address: SocketAddr, now: Timestamp)
    requires
        book.wf(),
        !book.connecting.contains_key(address),
        !book.connected.contains_key(address),
    ensures
        ({
            let begun = book.with_connecting(address);
            let made = begun.with_connected(address, now);
            let given_up = made.with_disconnected(address);
            let info = PeerInfo { last_connected: Some(now), ..book.unconnected_info(address) };
            &&& begun.wf() && made.wf() && given_up.wf()
            &&& begun.connecting.contains_key(address)
            &&& made.connected.contains_key(address) && made.connected[address] == info
            &&& given_up.disconnected.contains_key(address) && given_up.disconnected[address]
                == info
            &&& begun.connected == book.connected
            &&& made.connecting == book.connecting
            &&& given_up.connected == book.connected
        }),
{
    let begun = book.with_connecting(address);
    let made = begun.with_connected(address, now);
    let given_up = made.with_disconnected(address);
    assert(made.connecting =~= book.connecting);
    assert(given_up.connected =~= book.connected);
}

/// Inbound peers leave the connecting and connected peers and all that is known of any peer as it
/// was. They never put the node itself into its own book, and add no more peers than were sent.
pub proof fn law_inbound_peers_only_add(
    book: PeerBookView,
    peers: Seq<SocketAddr>,
    own_address: SocketAddr,
)
    requires
        book.wf(),
        book.disconnected.dom().finite(),
    ensures
        ({
            let after = crate::node::with_inbound_peers(book, peers, own_address);
            &&& after.wf()
            &&& after.connecting == book.connecting
            &&& after.connected == book.connected
            &&& book.disconnected.submap_of(after.disconnected)
            &&& after.knows(own_address) <==> book.knows(own_address)
            &&& after.disconnected.len() <= book.disconnected.len() + peers.len()
            &&& forall|address: SocketAddr| #[trigger]
                after.knows(address) <==> book.knows(address) || (peers.contains(address)
                    && address != own_address)
        }),
{
    let after = crate::node::with_inbound_peers(book, peers, own_address);
    let bound = book.disconnected.dom().union(peers.to_set());
    vstd::seq_lib::seq_to_set_is_finite(peers);
    peers.lemma_cardinality_of_set();
    assert(after.disconnected.dom().subset_of(bound));
    vstd::set_lib::lemma_len_union(book.disconnected.dom(), peers.to_set());
    vstd::set_lib::lemma_len_subset(after.disconnected.dom(), bound);
}

/// The peer that asks for peers is told of every connected peer but itself.
pub proof fn law_asking_peer_is_told_of_the_others<T, C>(node: &Node<T, C>, asking: SocketAddr)
    requires
        node.wf(),
    ensures
        ({
            let told = node.peer_book.connected.keys().filter(crate::node::other_than(asking));
            &&& !told.contains(asking)
            &&& forall|address: SocketAddr| #[trigger]
                told.contains(address) <==> node.connected(address) && address != asking
        }),
{
    node.peer_book.connected.lemma_keys();
    lemma_filter_contains(node.peer_book.connected.keys(), crate::node::other_than(asking));
}

/// The bootnodes to connect to are those that are not connected, all of them.
pub proof fn law_unconnected_bootnodes_are_sought<T, C>(node: &Node<T, C>)
    ensures
        ({
            let sought = node.environment.bootnodes@.filter(
                crate::node::not_connected(node.peer_book@),
            );
            forall|address: SocketAddr| #[trigger]
                sought.contains(address) <==> node.environment.bootnodes@.contains(address)
                    && !node.connected(address)
        }),
{
    lemma_filter_contains(
        node.environment.bootnodes@,
        crate::node::not_connected(node.peer_book@),
    );
}

proof fn lemma_filter_contains(all: Seq<SocketAddr>, keep: spec_fn(SocketAddr) -> bool)
    ensures
        forall|address: SocketAddr| #[trigger]
            all.filter(keep).contains(address) <==> all.contains(address) && keep(address),
    decreases all.len(),
{
    reveal(Seq::filter);
    if all.len() > 0 {
        let shorter = all.drop_last();
        lemma_filter_contains(shorter, keep);
        assert forall|address: SocketAddr| #[trigger]
            all.filter(keep).contains(address) <==> all.contains(address) && keep(address) by {
            let kept = shorter.filter(keep);
            assert(all.contains(address) <==> shorter.contains(address) || address
                == all.last()) by {
                if shorter.contains(address) {
                    assert(all[shorter.index_of(address)] == address);
                }
                if all.contains(address) {
                    let i = all.index_of(address);
                    if i < shorter.len() {
                        assert(shorter[i] == address);
                    }
                }
            }
            if keep(all.last()) {
                assert(all.filter(keep) == kept.push(all.last()));
                if kept.contains(address) {
                    assert(kept.push(all.last())[kept.index_of(address)] == address);
                }
                assert(kept.push(all.last())[kept.len() as int] == all.last());
                if kept.push(all.last()).contains(address) && address != all.last() {
                    let i = kept.push(all.last()).index_of(address);
                    assert(kept[i] == address);
                }
            } else {
                assert(all.filter(keep) == kept);
            }
        }
    }
}

/// A round turns to no more disconnected peers than were missing at its start.
pub proof fn law_no_more_attempts_than_missing_peers<T, C>(
    before: &Node<T, C>,
    round: UpdateRoundView,
    outcome: Result<(), NetworkError>,
    current_block_height: u32,
    after: &Node<T, C>,
    next: UpdateRoundView,
    action: UpdateAction<T>,
)
    requires
        before.wf(),
        crate::update::update_step(
            before,
            round,
            outcome,
            current_block_height,
            after,
            next,
            action,
        ),
        round.phase is Bootnodes,
        next.phase is DisconnectedPeers,
    ensures
        next.pending.len() <= round.wanted,
        next.pending.no_duplicates(),
        forall|i: int|
            0 <= i < next.pending.len() ==> before.peer_book@.disconnected.contains_key(
                #[trigger] next.pending[i],
            ),
{
    before.peer_book.disconnected.lemma_keys();
    let keys = before.peer_book.disconnected.keys();
    assert forall|i: int|
        0 <= i < next.pending.len() implies before.peer_book@.disconnected.contains_key(
        #[trigger] next.pending[i],
    ) by {
        assert(keys.contains(keys[i]));
    }
}

/// Two versions that read the same are the same: what one node serializes is what another
/// deserializes.
pub proof fn law_versions_survive_the_wire(sent: Version, received: Version)
    requires
        received.encoded() == sent.encoded(),
    ensures
        received == sent,
{
    sent.lemma_encoded_injective(received);
}

/// A message shorter than 256 bytes is told apart from what follows it: the first byte on the wire
/// gives its length, and it comes right after.
pub proof fn law_short_messages_are_delimited(message: Seq<u8>, following: Seq<u8>)
    requires
        message.len() < 0x100,
    ensures
        ({
            let wire = crate::handshake::framed(message) + following;
            &&& wire[0] == message.len()
            &&& wire.subrange(1, 1 + wire[0]) == message
        }),
{
    let wire = crate::handshake::framed(message) + following;
    assert(wire.subrange(1, 1 + wire[0]) =~= message);
}

/// Each message that a node sends in a handshake is short enough for its length to fit into the
/// byte in front of it, so that the peer knows where it ends.
pub proof fn law_handshake_messages_are_delimited(
    handshake: AwaitingReply,
    first: Seq<u8>,
    answer: Seq<u8>,
    listening_port: u16,
)
    requires
        handshake.is_begun_by(first),
        answer.len() == crate::handshake::own_version(listening_port).encoded().len()
            + crate::noise::THIRD_OVERHEAD,
    ensures
        first[0] == 48,
        first.len() == 1 + first[0],
        crate::handshake::framed(answer)[0] == 74,
        crate::handshake::framed(answer).len() == 1 + crate::handshake::framed(answer)[0],
{
}

} // verus!
