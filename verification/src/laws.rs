//! What holds of the connection set, of the acknowledgment map and of passing
//! messages on, whatever the calls.

use vstd::prelude::*;
use crate::connection::{lemma_receive_batches_keeps_transport, ConnectionView, PendingDiff};
use crate::events::EventsView;
use crate::manager::{lemma_without, ManagerView};
use crate::message::{EnvelopeView, MessageView};
use crate::ping::PingConfig;
use crate::target::NetworkTarget;
use crate::transport::find_channel;
use crate::types::{ChannelKind, MessageId, PeerId, Tick, Time};

verus! {

/// A peer that connects or disconnects.
pub enum PeerOp {
    Add(PeerId),
    Remove(PeerId),
}

/// The manager `m` after the calls `ops`, in order.
pub open spec fn run(m: ManagerView, ops: Seq<PeerOp>, ping_config: PingConfig) -> ManagerView
    decreases ops.len(),
{
    if ops.len() == 0 {
        m
    } else {
        let before = run(m, ops.drop_last(), ping_config);
        match ops.last() {
            PeerOp::Add(p) => before.add(p, ping_config),
            PeerOp::Remove(p) => before.remove(p),
        }
    }
}

/// Whether `peer` is added by one of the calls `ops` and not removed by a later one.
pub open spec fn added_and_kept(ops: Seq<PeerOp>, peer: PeerId) -> bool {
    exists|i: int|
        0 <= i < ops.len() && #[trigger] ops[i] == PeerOp::Add(peer) && forall|j: int|
            i < j < ops.len() ==> #[trigger] ops[j] != PeerOp::Remove(peer)
}

/// Whether none of the calls `ops` removes `peer`.
pub open spec fn never_removed(ops: Seq<PeerOp>, peer: PeerId) -> bool {
    forall|j: int| 0 <= j < ops.len() ==> #[trigger] ops[j] != PeerOp::Remove(peer)
}

/// Adding a peer keeps the manager valid and connects that peer and no other.
pub proof fn lemma_add(m: ManagerView, peer: PeerId, ping_config: PingConfig)
    requires
        m.wf(),
    ensures
        m.add(peer, ping_config).wf(),
        m.add(peer, ping_config).connected() == m.connected().insert(peer),
{
    let after = m.add(peer, ping_config);
    if !m.connections.contains_key(peer) {
        assert forall|i: int| 0 <= i < m.peers.len() implies m.peers[i] != peer by {
            if m.peers[i] == peer {
                assert(m.peers.contains(peer));
            }
        }
        assert forall|p: PeerId| after.connections.contains_key(p) <==> after.peers.contains(p) by {
            if m.peers.contains(p) {
                let i = choose|i: int| 0 <= i < m.peers.len() && m.peers[i] == p;
                assert(after.peers[i] == p);
            }
            if p == peer {
                assert(after.peers[m.peers.len() as int] == p);
            }
        }
    }
    assert(after.connected() =~= m.connected().insert(peer));
}

/// Removing a peer keeps the manager valid and disconnects that peer and no other.
pub proof fn lemma_remove(m: ManagerView, peer: PeerId)
    requires
        m.wf(),
    ensures
        m.remove(peer).wf(),
        m.remove(peer).connected() == m.connected().remove(peer),
{
    let after = m.remove(peer);
    lemma_without(m.peers, peer);
    assert forall|p: PeerId| after.connections.contains_key(p) <==> after.peers.contains(p) by {
        assert(m.connections.contains_key(p) <==> m.peers.contains(p));
    }
    assert(after.connected() =~= m.connected().remove(peer));
}

/// Adding a peer twice is adding it once.
pub proof fn lemma_add_is_idempotent(m: ManagerView, peer: PeerId, ping_config: PingConfig)
    ensures
        m.add(peer, ping_config).add(peer, ping_config) == m.add(peer, ping_config),
{
}

/// Removing a peer that is not connected leaves the connections as they are.
pub proof fn lemma_remove_absent(m: ManagerView, peer: PeerId)
    requires
        m.wf(),
        !m.connections.contains_key(peer),
    ensures
        m.remove(peer).connections == m.connections,
        m.remove(peer).peers == m.peers,
{
    assert(m.remove(peer).connections =~= m.connections);
    crate::keyed::lemma_find_found(m.peers, peer);
    if crate::keyed::find(m.peers, peer) is Some {
        let i = crate::keyed::find(m.peers, peer)->0;
        assert(m.peers.contains(m.peers[i]));
    }
}

/// After any calls of `add` and `remove`, in any order and with any repetitions, the
/// peers connected are those that were added and not removed afterwards, and those
/// that were connected at the start and never removed.
pub proof fn lemma_connection_set(
    m: ManagerView,
    ops: Seq<PeerOp>,
    ping_config: PingConfig,
    peer: PeerId,
)
    requires
        m.wf(),
    ensures
        run(m, ops, ping_config).wf(),
        run(m, ops, ping_config).connected().contains(peer) <==> (added_and_kept(ops, peer) || (
        m.connected().contains(peer) && never_removed(ops, peer))),
    decreases ops.len(),
{
    if ops.len() > 0 {
        let rest = ops.drop_last();
        let before = run(m, rest, ping_config);
        lemma_connection_set(m, rest, ping_config, peer);
        let last = ops.len() - 1;
        match ops.last() {
            PeerOp::Add(p) => {
                lemma_add(before, p, ping_config);
            },
            PeerOp::Remove(p) => {
                lemma_remove(before, p);
            },
        }
        if added_and_kept(rest, peer) {
            let i = choose|i: int|
                0 <= i < rest.len() && #[trigger] rest[i] == PeerOp::Add(peer) && forall|j: int|
                    i < j < rest.len() ==> #[trigger] rest[j] != PeerOp::Remove(peer);
            assert(ops[i] == rest[i]);
            if ops.last() != PeerOp::Remove(peer) {
                assert forall|j: int| i < j < ops.len() implies #[trigger] ops[j]
                    != PeerOp::Remove(peer) by {
                    if j < last {
                        assert(ops[j] == rest[j]);
                    }
                }
                assert(added_and_kept(ops, peer));
            }
        }
        if added_and_kept(ops, peer) {
            let i = choose|i: int|
                0 <= i < ops.len() && #[trigger] ops[i] == PeerOp::Add(peer) && forall|j: int|
                    i < j < ops.len() ==> #[trigger] ops[j] != PeerOp::Remove(peer);
            if i < last {
                assert(rest[i] == ops[i]);
                assert forall|j: int| i < j < rest.len() implies #[trigger] rest[j]
                    != PeerOp::Remove(peer) by {
                    assert(rest[j] == ops[j]);
                }
                assert(added_and_kept(rest, peer));
                assert(ops[last] != PeerOp::Remove(peer));
            }
        }
        if never_removed(rest, peer) && ops.last() != PeerOp::Remove(peer) {
            assert forall|j: int| 0 <= j < ops.len() implies #[trigger] ops[j] != PeerOp::Remove(
                peer,
            ) by {
                if j < last {
                    assert(ops[j] == rest[j]);
                }
            }
        }
        if never_removed(ops, peer) {
            assert forall|j: int| 0 <= j < rest.len() implies #[trigger] rest[j] != PeerOp::Remove(
                peer,
            ) by {
                assert(rest[j] == ops[j]);
            }
            assert(ops[last] != PeerOp::Remove(peer));
        }
        if ops.last() == PeerOp::Add(peer) {
            assert(added_and_kept(ops, peer)) by {
                assert(ops[last] == PeerOp::Add(peer));
            }
        }
        if ops.last() == PeerOp::Remove(peer) {
            assert(!never_removed(ops, peer)) by {
                assert(ops[last] == PeerOp::Remove(peer));
            }
            assert(!added_and_kept(ops, peer)) by {
                if added_and_kept(ops, peer) {
                    let i = choose|i: int|
                        0 <= i < ops.len() && #[trigger] ops[i] == PeerOp::Add(peer) && forall|j: int|
                            i < j < ops.len() ==> #[trigger] ops[j] != PeerOp::Remove(peer);
                    assert(ops[last] != PeerOp::Remove(peer));
                }
            }
        }
    }
}

/// Sending a diff puts the identifier of its message into the acknowledgment map if
/// and only if the diff carries values and the transport gave the message an
/// identifier; the entry names the group of the diff, and no other entry changes.
pub proof fn lemma_only_updates_are_tracked(c: ConnectionView, d: PendingDiff, id: MessageId)
    ensures
        c.send_diff(d).sender.in_flight.contains_key(id) <==> (c.sender.in_flight.contains_key(id)
            || (d.2 is Updates && c.transport.send_result(d.0) == Ok::<Option<MessageId>, crate::error::Error>(Some(id)))),
        d.2 is Updates && c.transport.send_result(d.0) == Ok::<Option<MessageId>, crate::error::Error>(Some(id))
            ==> c.send_diff(d).sender.in_flight[id] == d.1,
        !(d.2 is Updates && c.transport.send_result(d.0) == Ok::<Option<MessageId>, crate::error::Error>(Some(id)))
            && c.sender.in_flight.contains_key(id) ==> c.send_diff(d).sender.in_flight[id]
            == c.sender.in_flight[id],
{
}

/// Sending an application message, advancing the timers and forming packets leave
/// the acknowledgment map as it is.
pub proof fn lemma_other_calls_track_nothing(
    c: ConnectionView,
    message: MessageView,
    channel: ChannelKind,
    time: Time,
    tick: Tick,
)
    ensures
        c.buffer_message(message, channel).sender == c.sender,
        c.update(time, tick).sender == c.sender,
        c.send_packets(time).sender == c.sender,
{
}

/// Reading what arrived leaves the acknowledgment map as it is.
pub proof fn lemma_receive_tracks_nothing(c: ConnectionView, time: Time)
    ensures
        c.receive(time).sender == c.sender,
{
    lemma_receive_batches_keeps_transport(
        ConnectionView { transport: c.transport.after_read(), ..c },
        c.transport.inbox,
        time,
    );
}

/// A payload that arrives changes the acknowledgment map only by striking off the
/// messages whose acknowledgment an earlier payload brought.
pub proof fn lemma_packets_only_strike_off(
    c: ConnectionView,
    payload: crate::transport::PayloadView,
    clock: crate::types::ChangeTick,
    id: MessageId,
)
    ensures
        c.recv_packet(payload, clock).sender.in_flight.contains_key(id)
            ==> c.sender.in_flight.contains_key(id) && c.recv_packet(
            payload,
            clock,
        ).sender.in_flight[id] == c.sender.in_flight[id],
        c.transport.received_acks.contains(id) ==> !c.recv_packet(
            payload,
            clock,
        ).sender.in_flight.contains_key(id),
        !c.transport.received_acks.contains(id) && c.sender.in_flight.contains_key(id)
            ==> c.recv_packet(payload, clock).sender.in_flight.contains_key(id),
{
    lemma_ack_all(c.sender, c.transport.received_acks, clock, id);
}

proof fn lemma_ack_all(
    s: crate::replication::SenderView,
    ids: Seq<MessageId>,
    clock: crate::types::ChangeTick,
    id: MessageId,
)
    ensures
        s.ack_all(ids, clock).in_flight.contains_key(id) <==> (s.in_flight.contains_key(id)
            && !ids.contains(id)),
        s.ack_all(ids, clock).in_flight.contains_key(id) ==> s.ack_all(ids, clock).in_flight[id]
            == s.in_flight[id],
    decreases ids.len(),
{
    if ids.len() > 0 {
        lemma_ack_all(s, ids.drop_last(), clock, id);
        let rest = ids.drop_last();
        if rest.contains(id) {
            let i = choose|i: int| 0 <= i < rest.len() && rest[i] == id;
            assert(ids[i] == id);
        }
        if ids.contains(id) {
            let i = choose|i: int| 0 <= i < ids.len() && ids[i] == id;
            if i < ids.len() - 1 {
                assert(rest[i] == id);
            }
        }
        if ids.last() == id {
            assert(ids[ids.len() - 1] == id);
        }
    }
}

/// What a connection reports it reports once: reading again right away yields no event.
pub proof fn lemma_events_are_reported_once(c: ConnectionView, first: Time, second: Time)
    ensures
        c.receive(first).received(second).events == EventsView::empty(),
        c.receive(first).receive(second) == c.receive(first),
{
    let after = c.receive(first);
    lemma_receive_batches_keeps_transport(
        ConnectionView { transport: c.transport.after_read(), ..c },
        c.transport.inbox,
        first,
    );
    assert(after.transport.inbox =~= Seq::<crate::transport::Batch>::empty());
    assert(after.transport.after_read() == after.transport);
}

/// A peer that disconnects leaves nothing behind: where it connects again, its
/// connection is as new.
pub proof fn lemma_remove_discards_all(m: ManagerView, peer: PeerId, ping_config: PingConfig)
    ensures
        m.remove(peer).add(peer, ping_config).connections[peer] == m.fresh(ping_config),
        !m.remove(peer).connections.contains_key(peer),
{
}

/// An envelope that holds a diff, a ping or a pong is never kept to be passed on, and
/// neither is an application message whose target is nobody.
pub proof fn lemma_never_passed_on(
    c: ConnectionView,
    channel: ChannelKind,
    tick: Tick,
    envelope: EnvelopeView,
    time: Time,
)
    requires
        envelope matches EnvelopeView::Message { target, .. } ==> target == NetworkTarget::Nobody,
    ensures
        c.dispatch(channel, tick, envelope, time).rebroadcast == c.rebroadcast,
{
}

/// An application message that arrives with a target other than nobody is kept to
/// be passed on, with that target and on the channel it came by, and is not taken
/// in here.
pub proof fn lemma_passed_on(
    c: ConnectionView,
    channel: ChannelKind,
    tick: Tick,
    message: MessageView,
    target: NetworkTarget,
    time: Time,
)
    requires
        target != NetworkTarget::Nobody,
    ensures
        c.dispatch(channel, tick, EnvelopeView::Message { message, target }, time) == (
        ConnectionView {
            rebroadcast: c.rebroadcast.push((message.map_entities(c.to_local), target, channel)),
            ..c
        }),
{
}

/// A message handed to the manager reaches the connections of exactly the peers
/// that its target names: there it joins what waits to leave, in an envelope that
/// names nobody, so that it is not passed on again; every other connection is as before.
pub proof fn lemma_reaches_exactly_the_targets(
    m: ManagerView,
    message: MessageView,
    channel: ChannelKind,
    target: NetworkTarget,
    peer: PeerId,
)
    requires
        m.wf(),
        m.connections.contains_key(peer),
        find_channel(m.channels, channel) is Some,
    ensures
        m.buffer_message_result(channel, target) is Ok,
        m.buffer_message(message, channel, target).connected() == m.connected(),
        !target.targets(peer) ==> m.buffer_message(message, channel, target).connections[peer]
            == m.connections[peer],
        target.targets(peer) ==> {
            let before = m.connections[peer];
            let after = m.buffer_message(message, channel, target).connections[peer];
            &&& after.transport.outbound.len() == before.transport.outbound.len() + 1
            &&& after.transport.outbound.last().envelope == (EnvelopeView::Message {
                message,
                target: NetworkTarget::Nobody,
            })
            &&& after.transport.outbound.last().channel == channel
            &&& after.transport.outbound.drop_last() == before.transport.outbound
            &&& after == (ConnectionView { transport: after.transport, ..before })
        },
{
    let after = m.buffer_message(message, channel, target);
    assert(after.connected() =~= m.connected());
    if target.targets(peer) {
        let b = m.connections[peer];
        let a = after.connections[peer];
        assert(b.transport.channels == m.channels);
        assert(a.transport.outbound.drop_last() =~= b.transport.outbound);
    }
}

/// A message for nobody, handed to the manager, changes nothing.
pub proof fn lemma_nobody_reaches_no_one(m: ManagerView, message: MessageView, channel: ChannelKind)
    ensures
        m.buffer_message(message, channel, NetworkTarget::Nobody) == m,
        m.buffer_message_result(channel, NetworkTarget::Nobody) is Ok,
{
    assert(m.buffer_message(message, channel, NetworkTarget::Nobody).connections =~= m.connections);
}

} // verus!
