//! One peer's connection: its transport, ping synchronizer, input buffer,
//! replication bookkeeping and the events it has to report.

use vstd::prelude::*;
use crate::error::Error;
use crate::events::{ConnectionEvents, EventsView};
use crate::input_buffer::{merge_inputs, InputBuffer};
use crate::keyed::distinct_keys;
use crate::message::{
    Envelope, EnvelopeView, Message, MessageView, Pong, ReplicationDataView, SyncMessage,
};
use crate::ping::{PingConfig, PingManager, PingState};
use crate::replication::{
    receive_diff, GroupDiffs, ReplicationReceiver, ReplicationSender, SenderView,
};
use crate::target::NetworkTarget;
use crate::transport::{
    find_channel, Batch, ChannelRegistry, ChannelSettings, MessageManager, Payload, PayloadView,
    TransportView, UNKNOWN_CHANNEL_NAME,
};
use crate::types::{
    ChangeTick, ChannelKind, Entity, GroupId, Input, MessageId, Tick, Time, PING_CHANNEL,
};

verus! {

broadcast use vstd::std_specs::vec::axiom_spec_into_iter;

/// A diff that waits to be sent: its channel, its group, and the diff.
pub type PendingDiff = (ChannelKind, GroupId, ReplicationDataView);

/// A message to pass on: the message, the peers it is for, and its channel.
pub type Rebroadcast = (MessageView, NetworkTarget, ChannelKind);

/// The diffs of one group, each with the group.
pub open spec fn tagged(g: GroupDiffs) -> Seq<(GroupId, Tick, ReplicationDataView)> {
    Seq::new(g.1.len(), |i: int| (g.0, g.1[i].0, g.1[i].1))
}

/// The diffs of all groups in the order in which they are applied: group after
/// group, and within a group oldest first.
pub open spec fn flatten_diffs(groups: Seq<GroupDiffs>) -> Seq<(GroupId, Tick, ReplicationDataView)>
    decreases groups.len(),
{
    if groups.len() == 0 {
        Seq::empty()
    } else {
        flatten_diffs(groups.drop_last()) + tagged(groups.last())
    }
}

/// The pongs `pongs`, each stamped as sent at `time`.
pub open spec fn stamped(pongs: Seq<Pong>, time: Time) -> Seq<Pong> {
    Seq::new(pongs.len(), |i: int| Pong { ping_id: pongs[i].ping_id, pong_sent_time: time })
}

/// The transport `t` after the pongs `pongs` were handed over on the ping channel.
pub open spec fn buffer_pongs(t: TransportView, pongs: Seq<Pong>) -> TransportView
    decreases pongs.len(),
{
    if pongs.len() == 0 {
        t
    } else {
        buffer_pongs(t, pongs.drop_last()).buffer_send(
            EnvelopeView::Sync(SyncMessage::Pong(pongs.last())),
            PING_CHANNEL,
        )
    }
}

/// The value of a `Connection`.
pub struct ConnectionView {
    pub transport: TransportView,
    pub sender: SenderView,
    /// The diffs that arrived and wait to be applied, group by group.
    pub waiting: Seq<GroupDiffs>,
    /// From the other end's entity references to the local ones.
    pub to_local: Map<Entity, Entity>,
    /// From local entity references to the other end's.
    pub to_remote: Map<Entity, Entity>,
    pub events: EventsView,
    pub ping: PingState,
    /// The inputs received, by the tick each was produced for.
    pub inputs: Map<Tick, Input>,
    /// The messages that arrived and are to be passed on to other peers.
    pub rebroadcast: Seq<Rebroadcast>,
}

impl ConnectionView {
    /// Whether each group that has diffs waiting has them in one list.
    pub open spec fn wf(self) -> bool {
        distinct_keys(self.waiting)
    }

    /// A connection over the channels `channels` that has sent and received nothing.
    pub open spec fn initial(
        channels: Seq<ChannelSettings>,
        send_interval: Time,
        ping_interval: Time,
    ) -> ConnectionView {
        ConnectionView {
            transport: TransportView {
                channels,
                inbox: Seq::empty(),
                next_message_id: 0,
                outbound: Seq::empty(),
                acks_to_send: Seq::empty(),
                received_acks: Seq::empty(),
                clock: 0,
                tick: 0,
                next_send_time: 0,
                send_interval,
            },
            sender: SenderView {
                pending: Seq::empty(),
                in_flight: Map::empty(),
                acked: Map::empty(),
                last_tick: None,
            },
            waiting: Seq::empty(),
            to_local: Map::empty(),
            to_remote: Map::empty(),
            events: EventsView::empty(),
            ping: PingState {
                interval: ping_interval,
                due: true,
                last_ping_time: None,
                next_ping_id: 0,
                in_flight: Seq::empty(),
                pending_pongs: Seq::empty(),
                rtt: None,
                offset: None,
            },
            inputs: Map::empty(),
            rebroadcast: Seq::empty(),
        }
    }

    /// The state after the timers advanced to `time`, in the tick `tick`.
    pub open spec fn update(self, time: Time, tick: Tick) -> ConnectionView {
        ConnectionView {
            transport: self.transport.update(time, tick),
            ping: self.ping.update(time),
            ..self
        }
    }

    /// The envelope in which an application message leaves: it is to be passed on to nobody.
    pub open spec fn envelope_of(message: MessageView) -> EnvelopeView {
        EnvelopeView::Message { message, target: NetworkTarget::Nobody }
    }

    /// The state after `message` was handed over for `channel`.
    pub open spec fn buffer_message(self, message: MessageView, channel: ChannelKind) -> ConnectionView {
        ConnectionView {
            transport: self.transport.buffer_send(Self::envelope_of(message), channel),
            ..self
        }
    }

    /// What sending one diff on `channel` returns: an error where the channel is not
    /// registered, and where it hands out no message identifier.
    pub open spec fn send_diff_result(self, channel: ChannelKind) -> Result<(), Error> {
        match self.transport.send_result(channel) {
            Err(e) => Err(e),
            Ok(None) => Err(Error::InvariantViolation(channel)),
            Ok(Some(_)) => Ok(()),
        }
    }

    /// The state after one diff was handed over: where the transport gave the message
    /// an identifier and the diff carries values, the identifier is recorded for the group.
    pub open spec fn send_diff(self, d: PendingDiff) -> ConnectionView {
        let transport = self.transport.buffer_send(
            EnvelopeView::Replication { group_id: d.1, data: d.2 },
            d.0,
        );
        match self.transport.send_result(d.0) {
            Ok(Some(id)) if d.2 is Updates => ConnectionView {
                transport,
                sender: self.sender.track(id, d.1),
                ..self
            },
            _ => ConnectionView { transport, ..self },
        }
    }

    /// What sending the diffs `diffs` in order returns: the first failure, if any.
    pub open spec fn send_diffs_result(self, diffs: Seq<PendingDiff>) -> Result<(), Error>
        decreases diffs.len(),
    {
        if diffs.len() == 0 {
            Ok(())
        } else {
            match self.send_diff_result(diffs[0].0) {
                Err(e) => Err(e),
                Ok(_) => self.send_diff(diffs[0]).send_diffs_result(diffs.skip(1)),
            }
        }
    }

    /// The state after the diffs `diffs` were handed over in order, up to and with the
    /// first that failed.
    pub open spec fn send_diffs(self, diffs: Seq<PendingDiff>) -> ConnectionView
        decreases diffs.len(),
    {
        if diffs.len() == 0 {
            self
        } else {
            match self.send_diff_result(diffs[0].0) {
                Err(_) => self.send_diff(diffs[0]),
                Ok(_) => self.send_diff(diffs[0]).send_diffs(diffs.skip(1)),
            }
        }
    }

    /// What `buffer_replication_messages` returns: the first failure, if any.
    pub open spec fn buffer_replication_result(self, tick: Tick) -> Result<(), Error> {
        ConnectionView { sender: self.sender.finalize(tick), ..self }.send_diffs_result(
            self.sender.pending,
        )
    }

    /// The state after the waiting diffs were handed over for `tick`.
    pub open spec fn buffer_replication_messages(self, tick: Tick) -> ConnectionView {
        ConnectionView { sender: self.sender.finalize(tick), ..self }.send_diffs(
            self.sender.pending,
        )
    }

    /// Whether the ping channel is registered.
    pub open spec fn ping_channel_known(self) -> bool {
        find_channel(self.transport.channels, PING_CHANNEL) is Some
    }

    /// Whether a round of packets at `time` fails: a ping or a pong is to leave, and
    /// the ping channel is not registered.
    pub open spec fn sync_fails(self) -> bool {
        &&& self.transport.is_ready_to_send()
        &&& !self.ping_channel_known()
        &&& (self.ping.due || self.ping.pending_pongs.len() > 0)
    }

    /// The state after the ping that is due and the pongs that wait were handed over
    /// at `time`, each stamped with that time. Nothing is handed over unless the
    /// transport is ready to send.
    pub open spec fn flush_sync(self, time: Time) -> ConnectionView {
        if !self.transport.is_ready_to_send() {
            self
        } else if self.ping.due && !self.ping_channel_known() {
            ConnectionView { ping: self.ping.after_ping(time), ..self }
        } else {
            let with_ping = match self.ping.ping_at(time) {
                Some(p) => self.transport.buffer_send(
                    EnvelopeView::Sync(SyncMessage::Ping(p)),
                    PING_CHANNEL,
                ),
                None => self.transport,
            };
            ConnectionView {
                ping: self.ping.after_ping(time).without_pongs(),
                transport: buffer_pongs(with_ping, stamped(self.ping.pending_pongs, time)),
                ..self
            }
        }
    }

    /// What `send_packets` returns.
    pub open spec fn send_packets_result(self, time: Time, tick: Tick) -> Result<
        Seq<PayloadView>,
        Error,
    > {
        if self.sync_fails() {
            Err(Error::TransportFailure(PING_CHANNEL))
        } else {
            Ok(self.flush_sync(time).transport.payloads(tick))
        }
    }

    /// The state after `send_packets`.
    pub open spec fn send_packets(self, time: Time) -> ConnectionView {
        let flushed = self.flush_sync(time);
        if self.sync_fails() {
            flushed
        } else {
            ConnectionView { transport: flushed.transport.after_send(), ..flushed }
        }
    }

    /// The state after one application message arrived on `channel`. Its entity
    /// references are translated first. A message with a target is kept to be passed
    /// on; one without is taken in by its kind.
    pub open spec fn take_message(
        self,
        channel: ChannelKind,
        message: MessageView,
        target: NetworkTarget,
    ) -> ConnectionView {
        let m = message.map_entities(self.to_local);
        if target != NetworkTarget::Nobody {
            ConnectionView { rebroadcast: self.rebroadcast.push((m, target, channel)), ..self }
        } else {
            match m {
                MessageView::Input(inputs) => ConnectionView {
                    inputs: merge_inputs(self.inputs, inputs),
                    ..self
                },
                MessageView::ActionInput(_) => ConnectionView {
                    events: self.events.push_input_message(m),
                    ..self
                },
                MessageView::User(_) => ConnectionView {
                    events: self.events.push_message(channel, m),
                    ..self
                },
            }
        }
    }

    /// The state after one envelope, which left the other end at `tick`, was read
    /// from `channel` at `time`.
    pub open spec fn dispatch(
        self,
        channel: ChannelKind,
        tick: Tick,
        envelope: EnvelopeView,
        time: Time,
    ) -> ConnectionView {
        match envelope {
            EnvelopeView::Message { message, target } => self.take_message(channel, message, target),
            EnvelopeView::Replication { group_id, data } => ConnectionView {
                waiting: receive_diff(self.waiting, group_id, tick, data),
                ..self
            },
            EnvelopeView::Sync(SyncMessage::Ping(ping)) => ConnectionView {
                ping: self.ping.buffer_pending_pong(ping, time),
                ..self
            },
            EnvelopeView::Sync(SyncMessage::Pong(pong)) => ConnectionView {
                ping: self.ping.process_pong(pong, time),
                ..self
            },
        }
    }

    /// The state after the envelopes `msgs` were read from `channel` in order.
    pub open spec fn dispatch_all(
        self,
        channel: ChannelKind,
        msgs: Seq<(Tick, EnvelopeView)>,
        time: Time,
    ) -> ConnectionView
        decreases msgs.len(),
    {
        if msgs.len() == 0 {
            self
        } else {
            self.dispatch_all(channel, msgs.drop_last(), time).dispatch(
                channel,
                msgs.last().0,
                msgs.last().1,
                time,
            )
        }
    }

    /// The state after the diffs that wait were reported for application.
    pub open spec fn apply_ready(self) -> ConnectionView {
        ConnectionView {
            waiting: Seq::empty(),
            events: EventsView {
                replication: self.events.replication + flatten_diffs(self.waiting),
                ..self.events
            },
            ..self
        }
    }

    /// The state after one batch was read: its envelopes are dispatched, then the diffs
    /// that wait are reported. An empty batch changes nothing.
    pub open spec fn receive_batch(self, batch: Batch, time: Time) -> ConnectionView {
        if batch.1.len() == 0 {
            self
        } else {
            self.dispatch_all(batch.0, batch.1, time).apply_ready()
        }
    }

    /// The state after the batches `batches` were read in order.
    pub open spec fn receive_batches(self, batches: Seq<Batch>, time: Time) -> ConnectionView
        decreases batches.len(),
    {
        if batches.len() == 0 {
            self
        } else {
            self.receive_batches(batches.drop_last(), time).receive_batch(batches.last(), time)
        }
    }

    /// The state in which `receive` ends but for the events, which it hands out.
    pub open spec fn received(self, time: Time) -> ConnectionView {
        ConnectionView { transport: self.transport.after_read(), ..self }.receive_batches(
            self.transport.inbox,
            time,
        )
    }

    /// The state after `receive`.
    pub open spec fn receive(self, time: Time) -> ConnectionView {
        ConnectionView { events: EventsView::empty(), ..self.received(time) }
    }

    /// The state after `payload` arrived while the world's clock stood at `clock`: the
    /// acknowledgments that the transport had noted before are taken in first.
    pub open spec fn recv_packet(self, payload: PayloadView, clock: ChangeTick) -> ConnectionView {
        ConnectionView {
            sender: self.sender.ack_all(self.transport.received_acks, clock),
            transport: self.transport.after_acks().recv_packet(payload),
            ..self
        }
    }
}

/// The server's side of the connection to one peer.
pub struct Connection {
    pub message_manager: MessageManager,
    pub replication_sender: ReplicationSender,
    pub replication_receiver: ReplicationReceiver,
    pub events: ConnectionEvents,
    pub ping_manager: PingManager,
    /// The inputs received from the peer.
    pub input_buffer: InputBuffer,
    /// Messages that arrived and are to be passed on to other peers.
    pub messages_to_rebroadcast: Vec<(Message, NetworkTarget, ChannelKind)>,
}

impl DeepView for Connection {
    type V = ConnectionView;

    open spec fn deep_view(&self) -> ConnectionView {
        ConnectionView {
            transport: self.message_manager.deep_view(),
            sender: self.replication_sender.deep_view(),
            waiting: self.replication_receiver.waiting(),
            to_local: self.replication_receiver.entity_map().to_local(),
            to_remote: self.replication_receiver.entity_map().to_remote(),
            events: self.events.deep_view(),
            ping: self.ping_manager@,
            inputs: self.input_buffer@,
            rebroadcast: self.messages_to_rebroadcast.deep_view(),
        }
    }
}

impl Connection {
    /// Whether the parts of the connection are valid.
    pub open spec fn wf(&self) -> bool {
        &&& self.input_buffer.wf()
        &&& self.replication_receiver.wf()
    }

    /// The value of a connection that has sent and received nothing.
    pub open spec fn initial(channel_registry: &ChannelRegistry, ping_config: &PingConfig) -> ConnectionView {
        ConnectionView::initial(
            channel_registry@,
            channel_registry.spec_send_interval(),
            ping_config.ping_interval,
        )
    }

    /// A connection over the channels of `channel_registry` that has sent and received nothing.
    pub fn new(channel_registry: &ChannelRegistry, ping_config: &PingConfig) -> (r: Self)
        ensures
            r.wf(),
            r.deep_view() == Self::initial(channel_registry, ping_config),
    {
        let r = Connection {
            message_manager: MessageManager::new(channel_registry),
            replication_sender: ReplicationSender::new(),
            replication_receiver: ReplicationReceiver::new(),
            ping_manager: PingManager::new(ping_config),
            input_buffer: InputBuffer::new(),
            events: ConnectionEvents::new(),
            messages_to_rebroadcast: Vec::new(),
        };
        proof {
            assert(r.messages_to_rebroadcast.deep_view() =~= Seq::<Rebroadcast>::empty());
        }
        r
    }

    /// Advances the timers of the transport and of the ping synchronizer to `time`.
    pub fn update(&mut self, time: Time, tick: Tick)
        requires
            old(self).wf(),
        ensures
            final(self).wf(),
            final(self).deep_view() == old(self).deep_view().update(time, tick),
    {
        self.message_manager.update(time, tick);
        self.ping_manager.update(time);
    }

    /// The name of `channel` for diagnostics, `"unknown"` where it is not registered.
    pub fn channel_name(&self, channel: ChannelKind) -> (r: &'static str)
        ensures
            r == match find_channel(self.deep_view().transport.channels, channel) {
                Some(i) => self.deep_view().transport.channels[i].name,
                None => UNKNOWN_CHANNEL_NAME,
            },
    {
        self.message_manager.channel_name(channel)
    }

    /// Hands `message` to the transport for sending on `channel`. Returns the
    /// identifier that the transport gave it, where the channel tracks delivery.
    pub fn buffer_message(&mut self, message: Message, channel: ChannelKind) -> (r: Result<
        Option<MessageId>,
        Error,
    >)
        requires
            old(self).wf(),
        ensures
            final(self).wf(),
            r == old(self).deep_view().transport.send_result(channel),
            final(self).deep_view() == old(self).deep_view().buffer_message(
                message.deep_view(),
                channel,
            ),
    {
        let envelope = Envelope::Message { message, target: NetworkTarget::Nobody };
        self.message_manager.buffer_send(envelope, channel)
    }

    /// Hands the diffs that wait in the replication sender to the transport, in
    /// order, for `tick`. For each diff that carries values, the identifier of its
    /// message is recorded for its group. Stops at the first diff that fails.
    pub fn buffer_replication_messages(&mut self, tick: Tick) -> (r: Result<(), Error>)
        requires
            old(self).wf(),
        ensures
            final(self).wf(),
            r == old(self).deep_view().buffer_replication_result(tick),
            final(self).deep_view() == old(self).deep_view().buffer_replication_messages(tick),
    {
        let ghost before = self.deep_view();
        let diffs = self.replication_sender.finalize(tick);
        let ghost all = diffs.deep_view();
        let ghost start = self.deep_view();
        proof {
            assert(all.skip(0) =~= all);
        }
        for d in it: diffs.into_iter()
            invariant
                self.wf(),
                it.seq().len() == all.len(),
                forall|j: int|
                    0 <= j < it.seq().len() ==> (#[trigger] it.seq()[j]).deep_view() == all[j],
                all == old(self).deep_view().sender.pending,
                start == (ConnectionView {
                    sender: old(self).deep_view().sender.finalize(tick),
                    ..old(self).deep_view()
                }),
                start.send_diffs(all) == self.deep_view().send_diffs(all.skip(it.index())),
                start.send_diffs_result(all) == self.deep_view().send_diffs_result(
                    all.skip(it.index()),
                ),
        {
            let ghost k = it.index();
            proof {
                assert(all.skip(k)[0] == all[k]);
                assert(all.skip(k).skip(1) =~= all.skip(k + 1));
            }
            let (channel, group_id, data) = d;
            let should_track_ack = data.is_updates();
            let envelope = Envelope::Replication { group_id, data };
            match self.message_manager.buffer_send(envelope, channel) {
                Err(e) => {
                    return Err(e);
                },
                Ok(None) => {
                    return Err(Error::InvariantViolation(channel));
                },
                Ok(Some(message_id)) => {
                    if should_track_ack {
                        self.replication_sender.track(message_id, group_id);
                    }
                },
            }
        }
        proof {
            assert(all.skip(all.len() as int) =~= Seq::<PendingDiff>::empty());
        }
        Ok(())
    }

    /// Forms the payloads that leave at `tick`. Where the transport is ready to send,
    /// the ping that is due and the pongs that wait go first, each stamped with
    /// `time`, the time at which it leaves.
    pub fn send_packets(&mut self, time: Time, tick: Tick) -> (r: Result<Vec<Payload>, Error>)
        requires
            old(self).wf(),
        ensures
            final(self).wf(),
            match r {
                Ok(payloads) => old(self).deep_view().send_packets_result(time, tick) == Ok::<
                    Seq<PayloadView>,
                    Error,
                >(payloads.deep_view()),
                Err(e) => old(self).deep_view().send_packets_result(time, tick) == Err::<
                    Seq<PayloadView>,
                    Error,
                >(e),
            },
            final(self).deep_view() == old(self).deep_view().send_packets(time),
    {
        let ghost before = self.deep_view();
        if self.message_manager.is_ready_to_send() {
            if let Some(ping) = self.ping_manager.maybe_prepare_ping(time) {
                let envelope = Envelope::Sync(SyncMessage::Ping(ping));
                match self.message_manager.buffer_send(envelope, PING_CHANNEL) {
                    Err(e) => {
                        return Err(e);
                    },
                    Ok(_) => {},
                }
            }
            let pongs = self.ping_manager.take_pending_pongs();
            let ghost with_ping = self.message_manager.deep_view();
            let n = pongs.len();
            let mut i: usize = 0;
            while i < n
                invariant
                    i <= n,
                    n == pongs@.len(),
                    self.wf(),
                    with_ping.channels == before.transport.channels,
                    self.deep_view() == (ConnectionView {
                        transport: self.message_manager.deep_view(),
                        ..old(self).deep_view().flush_sync(time)
                    }),
                    before == old(self).deep_view(),
                    before.ping_channel_known() ==> self.message_manager.deep_view()
                        == buffer_pongs(with_ping, stamped(pongs@, time).take(i as int)),
                    !before.ping_channel_known() ==> self.message_manager.deep_view() == with_ping,
                    !before.ping_channel_known() ==> !before.ping.due,
                    !before.ping_channel_known() ==> i == 0,
                    before.transport.is_ready_to_send(),
                    pongs@ == before.ping.pending_pongs,
                    with_ping == match before.ping.ping_at(time) {
                        Some(p) => before.transport.buffer_send(
                            EnvelopeView::Sync(SyncMessage::Ping(p)),
                            PING_CHANNEL,
                        ),
                        None => before.transport,
                    },
                decreases n - i,
            {
                let mut pong = pongs[i];
                pong.pong_sent_time = time;
                proof {
                    assert(stamped(pongs@, time).take(i + 1).drop_last() =~= stamped(
                        pongs@,
                        time,
                    ).take(i as int));
                    assert(stamped(pongs@, time).take(i + 1).last() == pong);
                    lemma_buffer_pongs_keeps_channels(
                        with_ping,
                        stamped(pongs@, time).take(i as int),
                    );
                    if !before.ping_channel_known() {
                        lemma_buffer_pongs_unknown(with_ping, stamped(pongs@, time));
                    }
                }
                let envelope = Envelope::Sync(SyncMessage::Pong(pong));
                match self.message_manager.buffer_send(envelope, PING_CHANNEL) {
                    Err(e) => {
                        return Err(e);
                    },
                    Ok(_) => {},
                }
                i += 1;
            }
            proof {
                assert(stamped(pongs@, time).take(n as int) =~= stamped(pongs@, time));
                if !before.ping_channel_known() {
                    assert(stamped(pongs@, time) =~= Seq::<Pong>::empty());
                }
            }
        }
        let payloads = self.message_manager.send_packets(tick);
        Ok(payloads)
    }

    /// Takes in one envelope that left the other end at `tick` and was read from
    /// `channel` at `time`.
    pub fn dispatch(&mut self, channel: ChannelKind, tick: Tick, envelope: Envelope, time: Time)
        requires
            old(self).wf(),
        ensures
            final(self).wf(),
            final(self).deep_view() == old(self).deep_view().dispatch(
                channel,
                tick,
                envelope.deep_view(),
                time,
            ),
    {
        match envelope {
            Envelope::Message { message, target } => {
                let message = message.map_entities(self.replication_receiver.remote_entity_map());
                if !target.is_nobody() {
                    let ghost list = self.messages_to_rebroadcast.deep_view();
                    let ghost mv = message.deep_view();
                    self.messages_to_rebroadcast.push((message, target, channel));
                    proof {
                        assert(self.messages_to_rebroadcast.deep_view() =~= list.push(
                            (mv, target, channel),
                        ));
                    }
                } else {
                    match message {
                        Message::Input(inputs) => {
                            self.input_buffer.update_from_message(&inputs);
                        },
                        Message::ActionInput(c) => {
                            self.events.push_input_message(Message::ActionInput(c));
                        },
                        Message::User(c) => {
                            self.events.push_message(channel, Message::User(c));
                        },
                    }
                }
            },
            Envelope::Replication { group_id, data } => {
                self.replication_receiver.recv_message(group_id, tick, data);
            },
            Envelope::Sync(SyncMessage::Ping(ping)) => {
                self.ping_manager.buffer_pending_pong(&ping, time);
            },
            Envelope::Sync(SyncMessage::Pong(pong)) => {
                self.ping_manager.process_pong(&pong, time);
            },
        }
    }

    /// Reports the diffs that wait in the replication receiver for application: group
    /// after group, and within a group oldest first.
    pub fn apply_ready(&mut self)
        requires
            old(self).wf(),
        ensures
            final(self).wf(),
            final(self).deep_view() == old(self).deep_view().apply_ready(),
    {
        let ghost before = self.deep_view();
        let groups = self.replication_receiver.read_messages();
        let ghost all = groups.deep_view();
        for g in it: groups.into_iter()
            invariant
                self.wf(),
                it.seq().len() == all.len(),
                forall|j: int|
                    0 <= j < it.seq().len() ==> (#[trigger] it.seq()[j]).deep_view() == all[j],
                all == before.waiting,
                self.deep_view() == (ConnectionView {
                    waiting: Seq::empty(),
                    events: EventsView {
                        replication: before.events.replication + flatten_diffs(
                            all.take(it.index()),
                        ),
                        ..before.events
                    },
                    ..before
                }),
        {
            let ghost k = it.index();
            let ghost outer = self.deep_view();
            let (group, diffs) = g;
            let ghost gv: GroupDiffs = (group, diffs.deep_view());
            proof {
                assert(all.take(k + 1).drop_last() =~= all.take(k));
                assert(all.take(k + 1).last() == gv);
            }
            for d in it2: diffs.into_iter()
                invariant
                    self.wf(),
                    it2.seq().len() == gv.1.len(),
                    gv.0 == group,
                    forall|j: int|
                        0 <= j < it2.seq().len() ==> (#[trigger] it2.seq()[j]).deep_view()
                            == gv.1[j],
                    self.deep_view() == (ConnectionView {
                        events: EventsView {
                            replication: outer.events.replication + tagged(gv).take(it2.index()),
                            ..outer.events
                        },
                        ..outer
                    }),
            {
                let ghost j = it2.index();
                let (tick, data) = d;
                proof {
                    assert((outer.events.replication + tagged(gv).take(j)).push(
                        (group, tick, data.deep_view()),
                    ) =~= outer.events.replication + tagged(gv).take(j + 1));
                }
                self.events.push_replication(group, tick, data);
            }
            proof {
                assert(tagged(gv).take(gv.1.len() as int) =~= tagged(gv));
                assert(before.events.replication + flatten_diffs(all.take(k)) + tagged(gv)
                    =~= before.events.replication + flatten_diffs(all.take(k + 1)));
            }
        }
        proof {
            assert(all.take(all.len() as int) =~= all);
        }
    }

    /// Takes in one batch read from the transport at `time`.
    pub fn receive_batch(
        &mut self,
        channel: ChannelKind,
        messages: Vec<(Tick, Envelope)>,
        time: Time,
    )
        requires
            old(self).wf(),
        ensures
            final(self).wf(),
            final(self).deep_view() == old(self).deep_view().receive_batch(
                (channel, messages.deep_view()),
                time,
            ),
    {
        if messages.len() == 0 {
            return ;
        }
        let ghost before = self.deep_view();
        let ghost all = messages.deep_view();
        for m in it: messages.into_iter()
            invariant
                self.wf(),
                it.seq().len() == all.len(),
                forall|j: int|
                    0 <= j < it.seq().len() ==> (#[trigger] it.seq()[j]).deep_view() == all[j],
                self.deep_view() == before.dispatch_all(channel, all.take(it.index()), time),
        {
            let ghost k = it.index();
            proof {
                assert(all.take(k + 1).drop_last() =~= all.take(k));
            }
            let (tick, envelope) = m;
            self.dispatch(channel, tick, envelope, time);
        }
        proof {
            assert(all.take(all.len() as int) =~= all);
        }
        self.apply_ready();
    }

    /// Reads all that arrived, at `time`: application messages go to the list of
    /// those to pass on, to the input buffer or to the events; replication diffs are
    /// reported for application; pings and pongs go to the ping synchronizer. Returns
    /// the events gathered since the last call, and leaves none behind.
    pub fn receive(&mut self, time: Time) -> (r: ConnectionEvents)
        requires
            old(self).wf(),
        ensures
            final(self).wf(),
            r.deep_view() == old(self).deep_view().received(time).events,
            final(self).deep_view() == old(self).deep_view().receive(time),
    {
        let ghost before = self.deep_view();
        let batches = self.message_manager.read_messages();
        let ghost all = batches.deep_view();
        let ghost start = self.deep_view();
        for b in it: batches.into_iter()
            invariant
                self.wf(),
                it.seq().len() == all.len(),
                forall|j: int|
                    0 <= j < it.seq().len() ==> (#[trigger] it.seq()[j]).deep_view() == all[j],
                self.deep_view() == start.receive_batches(all.take(it.index()), time),
        {
            let ghost k = it.index();
            proof {
                assert(all.take(k + 1).drop_last() =~= all.take(k));
            }
            let (channel, messages) = b;
            self.receive_batch(channel, messages, time);
        }
        proof {
            assert(all.take(all.len() as int) =~= all);
        }
        let mut events = ConnectionEvents::new();
        std::mem::swap(&mut self.events, &mut events);
        events
    }

    /// Takes in one payload from the peer while the world's clock stands at `clock`.
    /// The acknowledgments that earlier payloads brought are handed to the
    /// replication sender first. Returns the tick at which the payload left.
    pub fn recv_packet(&mut self, payload: Payload, clock: ChangeTick) -> (r: Result<Tick, Error>)
        requires
            old(self).wf(),
        ensures
            final(self).wf(),
            r == old(self).deep_view().transport.recv_result(payload.deep_view()),
            final(self).deep_view() == old(self).deep_view().recv_packet(
                payload.deep_view(),
                clock,
            ),
    {
        let acks = self.message_manager.take_acks();
        self.replication_sender.recv_update_acks(&acks, clock);
        self.message_manager.recv_packet(payload)
    }
}

proof fn lemma_buffer_pongs_unknown(t: TransportView, pongs: Seq<Pong>)
    requires
        find_channel(t.channels, PING_CHANNEL) is None,
    ensures
        buffer_pongs(t, pongs) == t,
    decreases pongs.len(),
{
    if pongs.len() > 0 {
        lemma_buffer_pongs_unknown(t, pongs.drop_last());
    }
}

proof fn lemma_buffer_pongs_keeps_channels(t: TransportView, pongs: Seq<Pong>)
    ensures
        buffer_pongs(t, pongs).channels == t.channels,
    decreases pongs.len(),
{
    if pongs.len() > 0 {
        lemma_buffer_pongs_keeps_channels(t, pongs.drop_last());
    }
}

proof fn lemma_send_diffs_keeps_channels(c: ConnectionView, diffs: Seq<PendingDiff>)
    ensures
        c.send_diffs(diffs).transport.channels == c.transport.channels,
    decreases diffs.len(),
{
    if diffs.len() > 0 {
        lemma_send_diffs_keeps_channels(c.send_diff(diffs[0]), diffs.skip(1));
    }
}

/// Handing over replication diffs leaves the channels of a connection as they are.
pub proof fn lemma_replication_keeps_channels(c: ConnectionView, tick: Tick)
    ensures
        c.buffer_replication_messages(tick).transport.channels == c.transport.channels,
{
    lemma_send_diffs_keeps_channels(
        ConnectionView { sender: c.sender.finalize(tick), ..c },
        c.sender.pending,
    );
}

proof fn lemma_dispatch_all_keeps_channels(
    c: ConnectionView,
    channel: ChannelKind,
    msgs: Seq<(Tick, EnvelopeView)>,
    time: Time,
)
    ensures
        c.dispatch_all(channel, msgs, time).transport == c.transport,
        c.dispatch_all(channel, msgs, time).sender == c.sender,
    decreases msgs.len(),
{
    if msgs.len() > 0 {
        lemma_dispatch_all_keeps_channels(c, channel, msgs.drop_last(), time);
    }
}

/// Reading batches leaves the transport and the replication sender of a connection as they are.
pub proof fn lemma_receive_batches_keeps_transport(
    c: ConnectionView,
    batches: Seq<Batch>,
    time: Time,
)
    ensures
        c.receive_batches(batches, time).transport == c.transport,
        c.receive_batches(batches, time).sender == c.sender,
    decreases batches.len(),
{
    if batches.len() > 0 {
        lemma_receive_batches_keeps_transport(c, batches.drop_last(), time);
        lemma_dispatch_all_keeps_channels(
            c.receive_batches(batches.drop_last(), time),
            batches.last().0,
            batches.last().1,
            time,
        );
    }
}

/// Reading what arrived leaves the channels of a connection as they are.
pub proof fn lemma_received_keeps_channels(c: ConnectionView, time: Time)
    ensures
        c.received(time).transport.channels == c.transport.channels,
{
    lemma_receive_batches_keeps_transport(
        ConnectionView { transport: c.transport.after_read(), ..c },
        c.transport.inbox,
        time,
    );
}

} // verus!
