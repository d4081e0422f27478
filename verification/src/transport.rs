//! The channel transport as the connection sees it: messages are buffered per
//! channel, leave in payloads, and arrive in payloads.

use vstd::prelude::*;
use crate::error::Error;
use crate::keyed::{find, lemma_find_none, lemma_find_some, Keyed};
use crate::message::{Envelope, EnvelopeView};
use crate::ping::next_id;
use crate::types::{
    ChannelKind, MessageId, Tick, Time, DEFAULT_CHANNEL, ENTITY_ACTIONS_CHANNEL,
    ENTITY_UPDATES_CHANNEL, INPUT_CHANNEL, PING_CHANNEL,
};

verus! {

broadcast use vstd::std_specs::vec::axiom_spec_into_iter;

/// The name given for a channel that is not registered.
pub const UNKNOWN_CHANNEL_NAME: &'static str = "unknown";

/// How one channel behaves.
#[derive(Clone, Copy, Debug)]
pub struct ChannelSettings {
    pub kind: ChannelKind,
    /// A name for diagnostics.
    pub name: &'static str,
    /// Whether each message sent gets an identifier that the other end acknowledges.
    pub tracks_delivery: bool,
}

impl Keyed for ChannelSettings {
    open spec fn key(&self) -> u64 {
        self.kind
    }
}

/// The place of the first settings of `s` for the channel `kind`, if it is registered.
pub open spec fn find_channel(s: Seq<ChannelSettings>, kind: ChannelKind) -> Option<int> {
    find(s, kind)
}

/// The channels that every protocol has: two for replication, which track
/// delivery, and one each for pings, for inputs and for other messages, which do not.
pub open spec fn built_in_channels() -> Seq<ChannelSettings> {
    seq![
        ChannelSettings { kind: ENTITY_UPDATES_CHANNEL, name: "entity_updates", tracks_delivery: true },
        ChannelSettings { kind: ENTITY_ACTIONS_CHANNEL, name: "entity_actions", tracks_delivery: true },
        ChannelSettings { kind: PING_CHANNEL, name: "ping", tracks_delivery: false },
        ChannelSettings { kind: INPUT_CHANNEL, name: "input", tracks_delivery: false },
        ChannelSettings { kind: DEFAULT_CHANNEL, name: "default", tracks_delivery: false },
    ]
}

/// The channels of a protocol, and how often packets leave.
#[derive(Debug)]
pub struct ChannelRegistry {
    channels: Vec<ChannelSettings>,
    send_interval: Time,
}

impl View for ChannelRegistry {
    type V = Seq<ChannelSettings>;

    closed spec fn view(&self) -> Seq<ChannelSettings> {
        self.channels@
    }
}

impl ChannelRegistry {
    /// Milliseconds between two rounds of packets.
    pub closed spec fn spec_send_interval(&self) -> Time {
        self.send_interval
    }

    /// A registry without channels.
    pub fn empty(send_interval: Time) -> (r: Self)
        ensures
            r.spec_send_interval() == send_interval,
            r@ == Seq::<ChannelSettings>::empty(),
    {
        ChannelRegistry { channels: Vec::new(), send_interval }
    }

    /// The registry of the built-in channels.
    pub fn new(send_interval: Time) -> (r: Self)
        ensures
            r.spec_send_interval() == send_interval,
            r@ == built_in_channels(),
    {
        let mut channels: Vec<ChannelSettings> = Vec::new();
        channels.push(
            ChannelSettings {
                kind: ENTITY_UPDATES_CHANNEL,
                name: "entity_updates",
                tracks_delivery: true,
            },
        );
        channels.push(
            ChannelSettings {
                kind: ENTITY_ACTIONS_CHANNEL,
                name: "entity_actions",
                tracks_delivery: true,
            },
        );
        channels.push(ChannelSettings { kind: PING_CHANNEL, name: "ping", tracks_delivery: false });
        channels.push(
            ChannelSettings { kind: INPUT_CHANNEL, name: "input", tracks_delivery: false },
        );
        channels.push(
            ChannelSettings { kind: DEFAULT_CHANNEL, name: "default", tracks_delivery: false },
        );
        assert(channels@ =~= built_in_channels());
        ChannelRegistry { channels, send_interval }
    }

    /// The settings of the channel `kind`, if it is registered.
    pub fn get(&self, kind: ChannelKind) -> (r: Option<ChannelSettings>)
        ensures
            r == match find_channel(self@, kind) {
                Some(i) => Some(self@[i]),
                None => None,
            },
    {
        match find_in(&self.channels, kind) {
            Some(i) => Some(self.channels[i]),
            None => None,
        }
    }

    /// Registers a channel. A kind that is registered already keeps its settings, and
    /// the result is `false`.
    pub fn add(&mut self, settings: ChannelSettings) -> (r: bool)
        ensures
            r == (find_channel(old(self)@, settings.kind) is None),
            final(self).spec_send_interval() == old(self).spec_send_interval(),
            final(self)@ == if r {
                old(self)@.push(settings)
            } else {
                old(self)@
            },
    {
        match find_in(&self.channels, settings.kind) {
            Some(_) => false,
            None => {
                self.channels.push(settings);
                true
            },
        }
    }

    /// The name of the channel `kind`, if it is registered.
    pub fn name(&self, kind: ChannelKind) -> (r: Option<&'static str>)
        ensures
            r == match find_channel(self@, kind) {
                Some(i) => Some(self@[i].name),
                None => None,
            },
    {
        match find_in(&self.channels, kind) {
            Some(i) => Some(self.channels[i].name),
            None => None,
        }
    }

    /// Milliseconds between two rounds of packets.
    pub fn send_interval(&self) -> (r: Time)
        ensures
            r == self.spec_send_interval(),
    {
        self.send_interval
    }

    /// How many channels are registered.
    pub fn len(&self) -> (r: usize)
        ensures
            r == self@.len(),
    {
        self.channels.len()
    }

    /// The settings at place `i`.
    pub(crate) fn at(&self, i: usize) -> (r: ChannelSettings)
        requires
            i < self@.len(),
        ensures
            r == self@[i as int],
    {
        self.channels[i]
    }
}

fn find_in(channels: &Vec<ChannelSettings>, kind: ChannelKind) -> (r: Option<usize>)
    ensures
        match r {
            Some(i) => find_channel(channels@, kind) == Some(i as int) && i < channels@.len(),
            None => find_channel(channels@, kind) is None,
        },
{
    let n = channels.len();
    let mut i: usize = 0;
    while i < n
        invariant
            i <= n,
            n == channels@.len(),
            forall|j: int| 0 <= j < i ==> (#[trigger] channels@[j]).key() != kind,
        decreases n - i,
    {
        if channels[i].kind == kind {
            proof {
                lemma_find_some(channels@, kind, i as int);
            }
            return Some(i);
        }
        i += 1;
    }
    proof {
        lemma_find_none(channels@, kind);
    }
    None
}

/// One message inside a payload.
#[derive(PartialEq, Eq, Debug)]
pub struct PacketMessage {
    pub channel: ChannelKind,
    /// The identifier to acknowledge, where the channel tracks delivery.
    pub id: Option<MessageId>,
    pub envelope: Envelope,
}

/// The value of a `PacketMessage`.
pub struct PacketMessageView {
    pub channel: ChannelKind,
    pub id: Option<MessageId>,
    pub envelope: EnvelopeView,
}

impl DeepView for PacketMessage {
    type V = PacketMessageView;

    open spec fn deep_view(&self) -> PacketMessageView {
        PacketMessageView {
            channel: self.channel,
            id: self.id,
            envelope: self.envelope.deep_view(),
        }
    }
}

/// What leaves for the other end in one piece.
#[derive(PartialEq, Eq, Debug)]
pub struct Payload {
    /// The tick at which the payload left.
    pub tick: Tick,
    pub messages: Vec<PacketMessage>,
    /// Identifiers of messages from the other end that arrived here.
    pub acks: Vec<MessageId>,
}

/// The value of a `Payload`.
pub struct PayloadView {
    pub tick: Tick,
    pub messages: Seq<PacketMessageView>,
    pub acks: Seq<MessageId>,
}

impl DeepView for Payload {
    type V = PayloadView;

    open spec fn deep_view(&self) -> PayloadView {
        PayloadView { tick: self.tick, messages: self.messages.deep_view(), acks: self.acks@ }
    }
}

/// Messages that arrived one after the other on one channel, oldest first, each with
/// the tick at which it left the other end.
pub type Batch = (ChannelKind, Seq<(Tick, EnvelopeView)>);

/// The value of a `MessageManager`.
pub struct TransportView {
    /// The channels, as registered.
    pub channels: Seq<ChannelSettings>,
    /// What arrived and was not read yet, in the order of arrival. Messages that
    /// followed each other on one channel stand in one batch.
    pub inbox: Seq<Batch>,
    /// The identifier that the next tracked message gets.
    pub next_message_id: MessageId,
    /// What waits to leave, oldest first.
    pub outbound: Seq<PacketMessageView>,
    /// Identifiers that arrived and wait to be acknowledged.
    pub acks_to_send: Seq<MessageId>,
    /// Acknowledgments that arrived and were not taken yet.
    pub received_acks: Seq<MessageId>,
    /// The time of the last update.
    pub clock: Time,
    /// The tick of the last update.
    pub tick: Tick,
    /// From when on the next round of packets may leave.
    pub next_send_time: Time,
    /// Milliseconds between two rounds of packets.
    pub send_interval: Time,
}

/// `a + b`, or the greatest time where that is too large.
pub open spec fn time_after(a: Time, b: Time) -> Time {
    if a + b > u64::MAX {
        u64::MAX
    } else {
        (a + b) as Time
    }
}

/// The channel of the first message of `msgs` whose channel is not in `channels`.
pub open spec fn first_unknown_channel(
    channels: Seq<ChannelSettings>,
    msgs: Seq<PacketMessageView>,
) -> Option<ChannelKind>
    decreases msgs.len(),
{
    if msgs.len() == 0 {
        None
    } else {
        match first_unknown_channel(channels, msgs.drop_last()) {
            Some(c) => Some(c),
            None => if find_channel(channels, msgs.last().channel) is None {
                Some(msgs.last().channel)
            } else {
                None
            },
        }
    }
}

proof fn lemma_first_unknown_extends(
    channels: Seq<ChannelSettings>,
    msgs: Seq<PacketMessageView>,
    k: int,
)
    requires
        0 <= k <= msgs.len(),
        first_unknown_channel(channels, msgs.take(k)) is Some,
    ensures
        first_unknown_channel(channels, msgs) == first_unknown_channel(channels, msgs.take(k)),
    decreases msgs.len() - k,
{
    if k == msgs.len() {
        assert(msgs.take(k) =~= msgs);
    } else {
        assert(msgs.take(k + 1).drop_last() =~= msgs.take(k));
        lemma_first_unknown_extends(channels, msgs, k + 1);
    }
}

/// The inbox `inbox` after a message arrived on `channel`: it joins the last batch
/// where that is of its channel, and opens a batch otherwise.
pub open spec fn arrive(
    inbox: Seq<Batch>,
    channel: ChannelKind,
    tick: Tick,
    envelope: EnvelopeView,
) -> Seq<Batch> {
    if inbox.len() > 0 && inbox.last().0 == channel {
        inbox.update(inbox.len() - 1, (channel, inbox.last().1.push((tick, envelope))))
    } else {
        inbox.push((channel, seq![(tick, envelope)]))
    }
}

/// The messages of an inbox in the order of arrival, each with its channel.
pub open spec fn arrivals(inbox: Seq<Batch>) -> Seq<(ChannelKind, Tick, EnvelopeView)>
    decreases inbox.len(),
{
    if inbox.len() == 0 {
        Seq::empty()
    } else {
        arrivals(inbox.drop_last()) + Seq::new(
            inbox.last().1.len(),
            |i: int| (inbox.last().0, inbox.last().1[i].0, inbox.last().1[i].1),
        )
    }
}

/// Batching keeps the order of arrival: a message that arrives is the last arrival.
pub proof fn lemma_arrive_appends(
    inbox: Seq<Batch>,
    channel: ChannelKind,
    tick: Tick,
    envelope: EnvelopeView,
)
    ensures
        arrivals(arrive(inbox, channel, tick, envelope)) == arrivals(inbox).push(
            (channel, tick, envelope),
        ),
{
    let after = arrive(inbox, channel, tick, envelope);
    if inbox.len() > 0 && inbox.last().0 == channel {
        assert(after.drop_last() =~= inbox.drop_last());
        assert(arrivals(after) =~= arrivals(inbox).push((channel, tick, envelope)));
    } else {
        assert(after.drop_last() =~= inbox);
        assert(arrivals(after) =~= arrivals(inbox).push((channel, tick, envelope)));
    }
}

impl TransportView {
    /// What sending on `channel` returns: the identifier given to the message where the
    /// channel tracks delivery, none where it does not, an error where it is not registered.
    pub open spec fn send_result(self, channel: ChannelKind) -> Result<Option<MessageId>, Error> {
        match find_channel(self.channels, channel) {
            None => Err(Error::TransportFailure(channel)),
            Some(i) => if self.channels[i].tracks_delivery {
                Ok(Some(self.next_message_id))
            } else {
                Ok(None)
            },
        }
    }

    /// The state after `envelope` was handed over for `channel`.
    pub open spec fn buffer_send(self, envelope: EnvelopeView, channel: ChannelKind) -> TransportView {
        match self.send_result(channel) {
            Err(_) => self,
            Ok(id) => TransportView {
                outbound: self.outbound.push(PacketMessageView { channel, id, envelope }),
                next_message_id: if id is Some {
                    next_id(self.next_message_id)
                } else {
                    self.next_message_id
                },
                ..self
            },
        }
    }

    /// The state after the clock advanced to `time`, in the tick `tick`.
    pub open spec fn update(self, time: Time, tick: Tick) -> TransportView {
        TransportView { clock: time, tick, ..self }
    }

    /// Whether a round of packets may leave.
    pub open spec fn is_ready_to_send(self) -> bool {
        self.clock >= self.next_send_time
    }

    /// The payloads that leave at `tick`: one with all that waits, or none where nothing waits.
    pub open spec fn payloads(self, tick: Tick) -> Seq<PayloadView> {
        if self.outbound.len() == 0 && self.acks_to_send.len() == 0 {
            Seq::empty()
        } else {
            seq![PayloadView { tick, messages: self.outbound, acks: self.acks_to_send }]
        }
    }

    /// The state after the payloads left.
    pub open spec fn after_send(self) -> TransportView {
        TransportView {
            outbound: Seq::empty(),
            acks_to_send: Seq::empty(),
            next_send_time: if self.is_ready_to_send() {
                time_after(self.clock, self.send_interval)
            } else {
                self.next_send_time
            },
            ..self
        }
    }

    /// The state after one message that left at `tick` arrived.
    pub open spec fn deliver(self, m: PacketMessageView, tick: Tick) -> TransportView {
        TransportView {
            inbox: arrive(self.inbox, m.channel, tick, m.envelope),
            acks_to_send: match m.id {
                Some(id) => self.acks_to_send.push(id),
                None => self.acks_to_send,
            },
            ..self
        }
    }

    /// The state after the messages `msgs`, which left at `tick`, arrived in order.
    pub open spec fn deliver_all(self, msgs: Seq<PacketMessageView>, tick: Tick) -> TransportView
        decreases msgs.len(),
    {
        if msgs.len() == 0 {
            self
        } else {
            self.deliver_all(msgs.drop_last(), tick).deliver(msgs.last(), tick)
        }
    }

    /// What receiving `payload` returns: the tick at which it left, or an error where
    /// one of its messages names a channel that is not registered.
    pub open spec fn recv_result(self, payload: PayloadView) -> Result<Tick, Error> {
        match first_unknown_channel(self.channels, payload.messages) {
            Some(c) => Err(Error::TransportFailure(c)),
            None => Ok(payload.tick),
        }
    }

    /// The state after `payload` arrived. A payload that is refused changes nothing.
    pub open spec fn recv_packet(self, payload: PayloadView) -> TransportView {
        match self.recv_result(payload) {
            Err(_) => self,
            Ok(_) => TransportView {
                received_acks: self.received_acks + payload.acks,
                ..self
            }.deliver_all(payload.messages, payload.tick),
        }
    }

    /// The state after the inbox was read.
    pub open spec fn after_read(self) -> TransportView {
        TransportView { inbox: Seq::empty(), ..self }
    }

    /// The state after the acknowledgments that arrived were taken.
    pub open spec fn after_acks(self) -> TransportView {
        TransportView { received_acks: Seq::empty(), ..self }
    }
}

/// Holds the messages that wait to leave, forms the payloads that leave, and takes
/// apart those that arrive.
#[derive(Debug)]
pub struct MessageManager {
    channels: Vec<ChannelSettings>,
    inbox: Vec<(ChannelKind, Vec<(Tick, Envelope)>)>,
    next_message_id: MessageId,
    outbound: Vec<PacketMessage>,
    acks_to_send: Vec<MessageId>,
    received_acks: Vec<MessageId>,
    clock: Time,
    tick: Tick,
    next_send_time: Time,
    send_interval: Time,
}

impl DeepView for MessageManager {
    type V = TransportView;

    closed spec fn deep_view(&self) -> TransportView {
        TransportView {
            channels: self.channels@,
            inbox: self.inbox.deep_view(),
            next_message_id: self.next_message_id,
            outbound: self.outbound.deep_view(),
            acks_to_send: self.acks_to_send@,
            received_acks: self.received_acks@,
            clock: self.clock,
            tick: self.tick,
            next_send_time: self.next_send_time,
            send_interval: self.send_interval,
        }
    }
}

impl MessageManager {
    /// A transport with the channels of `registry` that holds no message yet.
    pub fn new(registry: &ChannelRegistry) -> (r: Self)
        ensures
            r.deep_view() == (TransportView {
                channels: registry@,
                inbox: Seq::empty(),
                next_message_id: 0,
                outbound: Seq::empty(),
                acks_to_send: Seq::empty(),
                received_acks: Seq::empty(),
                clock: 0,
                tick: 0,
                next_send_time: 0,
                send_interval: registry.spec_send_interval(),
            }),
    {
        let n = registry.len();
        let mut channels: Vec<ChannelSettings> = Vec::new();
        let mut i: usize = 0;
        while i < n
            invariant
                i <= n,
                n == registry@.len(),
                channels@ == registry@.take(i as int),
            decreases n - i,
        {
            channels.push(registry.at(i));
            proof {
                assert(registry@.take(i + 1) =~= registry@.take(i as int).push(registry@[i as int]));
            }
            i += 1;
        }
        let r = MessageManager {
            channels,
            inbox: Vec::new(),
            next_message_id: 0,
            outbound: Vec::new(),
            acks_to_send: Vec::new(),
            received_acks: Vec::new(),
            clock: 0,
            tick: 0,
            next_send_time: 0,
            send_interval: registry.send_interval(),
        };
        proof {
            assert(registry@.take(n as int) =~= registry@);
            assert(r.inbox.deep_view() =~= Seq::<Batch>::empty());
            assert(r.outbound.deep_view() =~= Seq::<PacketMessageView>::empty());
        }
        r
    }

    /// The name of the channel `kind`, or `"unknown"` where it is not registered.
    pub fn channel_name(&self, kind: ChannelKind) -> (r: &'static str)
        ensures
            r == match find_channel(self.deep_view().channels, kind) {
                Some(i) => self.deep_view().channels[i].name,
                None => UNKNOWN_CHANNEL_NAME,
            },
    {
        match find_in(&self.channels, kind) {
            Some(i) => self.channels[i].name,
            None => UNKNOWN_CHANNEL_NAME,
        }
    }

    /// Advances the transport's clock to `time`, in the tick `tick`.
    pub fn update(&mut self, time: Time, tick: Tick)
        ensures
            final(self).deep_view() == old(self).deep_view().update(time, tick),
    {
        self.clock = time;
        self.tick = tick;
    }

    /// Whether a round of packets may leave.
    pub fn is_ready_to_send(&self) -> (r: bool)
        ensures
            r == self.deep_view().is_ready_to_send(),
    {
        self.clock >= self.next_send_time
    }

    /// Hands `envelope` over for sending on `channel`. Returns the identifier given to
    /// the message where the channel tracks delivery.
    pub fn buffer_send(&mut self, envelope: Envelope, channel: ChannelKind) -> (r: Result<
        Option<MessageId>,
        Error,
    >)
        ensures
            r == old(self).deep_view().send_result(channel),
            final(self).deep_view() == old(self).deep_view().buffer_send(
                envelope.deep_view(),
                channel,
            ),
    {
        match find_in(&self.channels, channel) {
            None => Err(Error::TransportFailure(channel)),
            Some(i) => {
                let id = if self.channels[i].tracks_delivery {
                    let id = self.next_message_id;
                    self.next_message_id = if id == u64::MAX {
                        0
                    } else {
                        id + 1
                    };
                    Some(id)
                } else {
                    None
                };
                let ghost before = self.outbound.deep_view();
                let m = PacketMessage { channel, id, envelope };
                self.outbound.push(m);
                proof {
                    assert(self.outbound.deep_view() =~= before.push(m.deep_view()));
                }
                Ok(id)
            },
        }
    }

    /// Forms the payloads that leave at `tick` from all that waits.
    pub fn send_packets(&mut self, tick: Tick) -> (r: Vec<Payload>)
        ensures
            r.deep_view() == old(self).deep_view().payloads(tick),
            final(self).deep_view() == old(self).deep_view().after_send(),
    {
        let ghost before = self.deep_view();
        if self.clock >= self.next_send_time {
            self.next_send_time = self.clock.saturating_add(self.send_interval);
        }
        let mut out: Vec<Payload> = Vec::new();
        if self.outbound.len() == 0 && self.acks_to_send.len() == 0 {
            proof {
                assert(out.deep_view() =~= before.payloads(tick));
                assert(self.outbound.deep_view() =~= Seq::empty());
                assert(self.acks_to_send@ =~= Seq::empty());
            }
            return out;
        }
        let mut messages: Vec<PacketMessage> = Vec::new();
        let mut acks: Vec<MessageId> = Vec::new();
        std::mem::swap(&mut self.outbound, &mut messages);
        std::mem::swap(&mut self.acks_to_send, &mut acks);
        let payload = Payload { tick, messages, acks };
        out.push(payload);
        proof {
            assert(out.deep_view() =~= before.payloads(tick));
            assert(self.outbound.deep_view() =~= Seq::empty());
        }
        out
    }

    /// Takes apart `payload`: its messages join the inbox in order, the identifiers it
    /// carries wait to be acknowledged, and the acknowledgments it carries wait to be
    /// taken. Returns the tick at which the payload left.
    pub fn recv_packet(&mut self, payload: Payload) -> (r: Result<Tick, Error>)
        ensures
            r == old(self).deep_view().recv_result(payload.deep_view()),
            final(self).deep_view() == old(self).deep_view().recv_packet(payload.deep_view()),
    {
        let ghost before = self.deep_view();
        let ghost pv = payload.deep_view();
        let n = payload.messages.len();
        let mut i: usize = 0;
        while i < n
            invariant
                i <= n,
                n == payload.messages@.len(),
                pv == payload.deep_view(),
                *self == *old(self),
                first_unknown_channel(self.channels@, pv.messages.take(i as int)) is None,
            decreases n - i,
        {
            let channel = payload.messages[i].channel;
            proof {
                assert(pv.messages.take(i + 1).drop_last() =~= pv.messages.take(i as int));
                assert(pv.messages.take(i + 1).last().channel == channel);
            }
            if find_in(&self.channels, channel).is_none() {
                proof {
                    lemma_first_unknown_extends(self.channels@, pv.messages, i + 1);
                }
                return Err(Error::TransportFailure(channel));
            }
            i += 1;
        }
        proof {
            assert(pv.messages.take(n as int) =~= pv.messages);
        }
        let Payload { tick, messages, acks } = payload;
        let mut acks = acks;
        self.received_acks.append(&mut acks);
        let ghost start = self.deep_view();
        proof {
            assert(start == TransportView { received_acks: before.received_acks + pv.acks, ..before });
        }
        for m in it: messages.into_iter()
            invariant
                it.seq().len() == pv.messages.len(),
                forall|j: int|
                    0 <= j < it.seq().len() ==> (#[trigger] it.seq()[j]).deep_view()
                        == pv.messages[j],
                self.deep_view() == start.deliver_all(pv.messages.take(it.index()), tick),
        {
            let ghost k = it.index();
            proof {
                assert(pv.messages.take(k + 1).drop_last() =~= pv.messages.take(k));
                assert(pv.messages.take(k + 1).last() == pv.messages[k]);
            }
            let PacketMessage { channel, id, envelope } = m;
            if let Some(id) = id {
                self.acks_to_send.push(id);
            }
            let ghost inbox_before = self.inbox.deep_view();
            let ghost ev = envelope.deep_view();
            let len = self.inbox.len();
            if len > 0 && self.inbox[len - 1].0 == channel {
                let ghost batch_before = self.inbox@[len - 1].1.deep_view();
                self.inbox[len - 1].1.push((tick, envelope));
                proof {
                    assert(self.inbox@[len - 1].1.deep_view() =~= batch_before.push((tick, ev)));
                    assert(self.inbox.deep_view() =~= arrive(inbox_before, channel, tick, ev));
                }
            } else {
                let mut batch: Vec<(Tick, Envelope)> = Vec::new();
                batch.push((tick, envelope));
                proof {
                    assert(batch.deep_view() =~= seq![(tick, ev)]);
                }
                self.inbox.push((channel, batch));
                proof {
                    assert(self.inbox.deep_view() =~= arrive(inbox_before, channel, tick, ev));
                }
            }
        }
        proof {
            assert(pv.messages.take(pv.messages.len() as int) =~= pv.messages);
        }
        Ok(tick)
    }

    /// Reads the inbox: what arrived, batch by batch, in the order of arrival.
    pub fn read_messages(&mut self) -> (r: Vec<(ChannelKind, Vec<(Tick, Envelope)>)>)
        ensures
            r.deep_view() == old(self).deep_view().inbox,
            final(self).deep_view() == old(self).deep_view().after_read(),
    {
        let mut out: Vec<(ChannelKind, Vec<(Tick, Envelope)>)> = Vec::new();
        std::mem::swap(&mut self.inbox, &mut out);
        proof {
            assert(self.inbox.deep_view() =~= Seq::<Batch>::empty());
        }
        out
    }

    /// Takes the acknowledgments that arrived since they were last taken, oldest first.
    pub fn take_acks(&mut self) -> (r: Vec<MessageId>)
        ensures
            r@ == old(self).deep_view().received_acks,
            final(self).deep_view() == old(self).deep_view().after_acks(),
    {
        let mut out: Vec<MessageId> = Vec::new();
        std::mem::swap(&mut self.received_acks, &mut out);
        out
    }
}

} // verus!
