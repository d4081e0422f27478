//! The connections of a server: one for each connected peer.

use vstd::prelude::*;
use crate::connection::{
    lemma_received_keeps_channels, lemma_replication_keeps_channels, Connection, ConnectionView,
    Rebroadcast,
};
use crate::error::Error;
use crate::events::{EventsView, ServerEvents, ServerEventsView};
use crate::input_buffer::input_at_or_before;
use crate::message::{Message, MessageView};
use crate::target::NetworkTarget;
use crate::keyed::{find, lemma_find_found, lemma_find_none, lemma_find_some, Keyed};
use crate::peer_table::{
    connections_of, table_contains, table_get, table_get_mut, table_insert, table_new,
    table_remove, PeerTable,
};
use crate::ping::PingConfig;
use crate::transport::{find_channel, ChannelRegistry, ChannelSettings, UNKNOWN_CHANNEL_NAME};
use crate::types::{ChannelKind, Input, PeerId, Tick, Time};

verus! {

broadcast use vstd::std_specs::vec::axiom_spec_into_iter;

impl Keyed for PeerId {
    open spec fn key(&self) -> u64 {
        *self
    }
}

/// The peers `peers` without `peer`.
pub open spec fn without(peers: Seq<PeerId>, peer: PeerId) -> Seq<PeerId> {
    match find(peers, peer) {
        Some(i) => peers.remove(i),
        None => peers,
    }
}

/// The value of a `ConnectionManager`.
pub struct ManagerView {
    /// The channels that each connection is made over.
    pub channels: Seq<ChannelSettings>,
    /// Milliseconds between two rounds of packets.
    pub send_interval: Time,
    /// The connected peers, in the order in which they connected.
    pub peers: Seq<PeerId>,
    /// The connection of each connected peer.
    pub connections: Map<PeerId, ConnectionView>,
    /// What waits to be reported to the application.
    pub events: ServerEventsView,
    /// The peers that connected since this list was last taken.
    pub new_clients: Seq<PeerId>,
}

impl ManagerView {
    /// Whether each connected peer has its connection, over the manager's channels,
    /// and no one else has one.
    pub open spec fn wf(self) -> bool {
        &&& self.peers.no_duplicates()
        &&& forall|p: PeerId|
            #![trigger self.connections.contains_key(p)]
            #![trigger self.peers.contains(p)]
            self.connections.contains_key(p) <==> self.peers.contains(p)
        &&& forall|p: PeerId| #[trigger]
            self.connections.contains_key(p) ==> self.connections[p].transport.channels
                == self.channels
    }

    /// The peers that are connected.
    pub open spec fn connected(self) -> Set<PeerId> {
        self.connections.dom()
    }

    /// The connection that `add` makes: nothing sent or received, and its making reported.
    pub open spec fn fresh(self, ping_config: PingConfig) -> ConnectionView {
        let c = ConnectionView::initial(self.channels, self.send_interval, ping_config.ping_interval);
        ConnectionView { events: c.events.push_connection(), ..c }
    }

    /// The state after `peer` connected. Where it is connected already, nothing changes.
    pub open spec fn add(self, peer: PeerId, ping_config: PingConfig) -> ManagerView {
        if self.connections.contains_key(peer) {
            self
        } else {
            ManagerView {
                peers: self.peers.push(peer),
                connections: self.connections.insert(peer, self.fresh(ping_config)),
                new_clients: self.new_clients.push(peer),
                ..self
            }
        }
    }

    /// The state after `peer` disconnected: its connection is gone with all it held,
    /// and the disconnect is reported.
    pub open spec fn remove(self, peer: PeerId) -> ManagerView {
        ManagerView {
            peers: without(self.peers, peer),
            connections: self.connections.remove(peer),
            events: self.events.push_disconnects(peer),
            ..self
        }
    }

    /// What `pop_inputs` returns: for each connected peer, in the order connected, the
    /// input to simulate `tick` with, and the peer.
    pub open spec fn pop_inputs(self, tick: Tick) -> Seq<(Option<Input>, PeerId)> {
        Seq::new(
            self.peers.len(),
            |i: int|
                (input_at_or_before(self.connections[self.peers[i]].inputs, tick), self.peers[i]),
        )
    }

    /// Whether `target` names a connected peer.
    pub open spec fn has_target(self, target: NetworkTarget) -> bool {
        exists|p: PeerId| #[trigger] self.connections.contains_key(p) && target.targets(p)
    }

    /// What `buffer_message` returns: an error where the message is for a connected
    /// peer and the channel is not registered.
    pub open spec fn buffer_message_result(self, channel: ChannelKind, target: NetworkTarget) -> Result<
        (),
        Error,
    > {
        if self.has_target(target) && find_channel(self.channels, channel) is None {
            Err(Error::TransportFailure(channel))
        } else {
            Ok(())
        }
    }

    /// The state after `message` was handed to the connection of each peer that
    /// `target` names, for `channel`.
    pub open spec fn buffer_message(
        self,
        message: MessageView,
        channel: ChannelKind,
        target: NetworkTarget,
    ) -> ManagerView {
        ManagerView {
            connections: Map::new(
                |p: PeerId| self.connections.contains_key(p),
                |p: PeerId|
                    if target.targets(p) {
                        self.connections[p].buffer_message(message, channel)
                    } else {
                        self.connections[p]
                    },
            ),
            ..self
        }
    }

    /// What handing over the waiting diffs of the peers `peers`, in order, returns:
    /// the first failure, if any.
    pub open spec fn replicate_result(self, peers: Seq<PeerId>, tick: Tick) -> Result<(), Error>
        decreases peers.len(),
    {
        if peers.len() == 0 {
            Ok(())
        } else {
            match self.connections[peers[0]].buffer_replication_result(tick) {
                Err(e) => Err(e),
                Ok(_) => self.replicate_one(peers[0], tick).replicate_result(peers.skip(1), tick),
            }
        }
    }

    /// The state after the connection of `peer` handed over its waiting diffs.
    pub open spec fn replicate_one(self, peer: PeerId, tick: Tick) -> ManagerView {
        ManagerView {
            connections: self.connections.insert(
                peer,
                self.connections[peer].buffer_replication_messages(tick),
            ),
            ..self
        }
    }

    /// The state after the connections of the peers `peers` handed over their waiting
    /// diffs, in order, up to and with the first that failed.
    pub open spec fn replicate(self, peers: Seq<PeerId>, tick: Tick) -> ManagerView
        decreases peers.len(),
    {
        if peers.len() == 0 {
            self
        } else {
            match self.connections[peers[0]].buffer_replication_result(tick) {
                Err(_) => self.replicate_one(peers[0], tick),
                Ok(_) => self.replicate_one(peers[0], tick).replicate(peers.skip(1), tick),
            }
        }
    }

    /// The state after `buffer_replication_messages`.
    pub open spec fn buffer_replication_messages(self, tick: Tick) -> ManagerView {
        self.replicate(self.peers, tick)
    }

    /// The state after the connection of `peer` read all that arrived: its events are
    /// taken into the manager's, and its messages to pass on are taken away.
    pub open spec fn receive_from(self, peer: PeerId, time: Time) -> ManagerView {
        let c = self.connections[peer].received(time);
        ManagerView {
            connections: self.connections.insert(
                peer,
                ConnectionView { events: EventsView::empty(), rebroadcast: Seq::empty(), ..c },
            ),
            events: self.events.push_events(peer, c.events),
            ..self
        }
    }

    /// The state after the connections of the peers `peers` read all that arrived, in order.
    pub open spec fn receive_from_all(self, peers: Seq<PeerId>, time: Time) -> ManagerView
        decreases peers.len(),
    {
        if peers.len() == 0 {
            self
        } else {
            self.receive_from_all(peers.drop_last(), time).receive_from(peers.last(), time)
        }
    }

    /// The messages to pass on that the connections of the peers `peers` hold after
    /// they read all that arrived: peer after peer, and for each peer oldest first.
    pub open spec fn rebroadcasts(self, peers: Seq<PeerId>, time: Time) -> Seq<Rebroadcast>
        decreases peers.len(),
    {
        if peers.len() == 0 {
            Seq::empty()
        } else {
            self.rebroadcasts(peers.drop_last(), time) + self.receive_from_all(
                peers.drop_last(),
                time,
            ).connections[peers.last()].received(time).rebroadcast
        }
    }

    /// What passing on the messages `list`, in order, returns: the first failure, if any.
    pub open spec fn rebroadcast_result(self, list: Seq<Rebroadcast>) -> Result<(), Error>
        decreases list.len(),
    {
        if list.len() == 0 {
            Ok(())
        } else {
            match self.buffer_message_result(list[0].2, list[0].1) {
                Err(e) => Err(e),
                Ok(_) => self.buffer_message(list[0].0, list[0].2, list[0].1).rebroadcast_result(
                    list.skip(1),
                ),
            }
        }
    }

    /// The state after the messages `list` were passed on, in order, each to the peers
    /// that its target names, up to the first that failed.
    pub open spec fn rebroadcast_all(self, list: Seq<Rebroadcast>) -> ManagerView
        decreases list.len(),
    {
        if list.len() == 0 {
            self
        } else {
            match self.buffer_message_result(list[0].2, list[0].1) {
                Err(_) => self,
                Ok(_) => self.buffer_message(list[0].0, list[0].2, list[0].1).rebroadcast_all(
                    list.skip(1),
                ),
            }
        }
    }

    /// What `receive` returns.
    pub open spec fn receive_result(self, time: Time) -> Result<(), Error> {
        self.receive_from_all(self.peers, time).rebroadcast_result(
            self.rebroadcasts(self.peers, time),
        )
    }

    /// The state after `receive`.
    pub open spec fn receive(self, time: Time) -> ManagerView {
        self.receive_from_all(self.peers, time).rebroadcast_all(
            self.rebroadcasts(self.peers, time),
        )
    }

    /// The state after the events were taken.
    pub open spec fn without_events(self) -> ManagerView {
        ManagerView { events: ServerEventsView::empty(), ..self }
    }

    /// The state after the list of new peers was taken.
    pub open spec fn without_new_clients(self) -> ManagerView {
        ManagerView { new_clients: Seq::empty(), ..self }
    }

    /// The state after the timers of every connection advanced to `time`.
    pub open spec fn update(self, time: Time, tick: Tick) -> ManagerView {
        ManagerView {
            connections: Map::new(
                |p: PeerId| self.connections.contains_key(p),
                |p: PeerId| self.connections[p].update(time, tick),
            ),
            ..self
        }
    }
}

/// The connections of a server, one for each connected peer.
pub struct ConnectionManager {
    connections: PeerTable,
    peers: Vec<PeerId>,
    channel_registry: ChannelRegistry,
    events: ServerEvents,
    new_clients: Vec<PeerId>,
}

impl DeepView for ConnectionManager {
    type V = ManagerView;

    closed spec fn deep_view(&self) -> ManagerView {
        ManagerView {
            channels: self.channel_registry@,
            send_interval: self.channel_registry.spec_send_interval(),
            peers: self.peers@,
            connections: Map::new(
                |p: PeerId| connections_of(self.connections).contains_key(p),
                |p: PeerId| connections_of(self.connections)[p].deep_view(),
            ),
            events: self.events.deep_view(),
            new_clients: self.new_clients@,
        }
    }
}

impl ConnectionManager {
    /// Whether the manager is valid: its value is, and so is each connection.
    pub closed spec fn wf(&self) -> bool {
        &&& self.deep_view().wf()
        &&& forall|p: PeerId| #[trigger]
            connections_of(self.connections).contains_key(p) ==> connections_of(
                self.connections,
            )[p].wf()
    }

    /// A manager without connections, for a protocol with the channels `channel_registry`.
    pub fn new(channel_registry: ChannelRegistry) -> (r: Self)
        ensures
            r.wf(),
            r.deep_view() == (ManagerView {
                channels: channel_registry@,
                send_interval: channel_registry.spec_send_interval(),
                peers: Seq::empty(),
                connections: Map::empty(),
                events: ServerEventsView::empty(),
                new_clients: Seq::empty(),
            }),
    {
        let r = ConnectionManager {
            connections: table_new(),
            peers: Vec::new(),
            channel_registry,
            events: ServerEvents::new(),
            new_clients: Vec::new(),
        };
        proof {
            assert(r.deep_view().connections =~= Map::<PeerId, ConnectionView>::empty());
        }
        r
    }

    /// The name of `channel` for diagnostics, `"unknown"` where it is not registered.
    pub fn channel_name(&self, channel: ChannelKind) -> (r: &'static str)
        ensures
            r == match find_channel(self.deep_view().channels, channel) {
                Some(i) => self.deep_view().channels[i].name,
                None => UNKNOWN_CHANNEL_NAME,
            },
    {
        match self.channel_registry.name(channel) {
            Some(name) => name,
            None => UNKNOWN_CHANNEL_NAME,
        }
    }

    /// How many peers are connected.
    pub fn len(&self) -> (r: usize)
        requires
            self.wf(),
        ensures
            self.deep_view().connected().finite(),
            r == self.deep_view().connected().len(),
    {
        proof {
            let v = self.deep_view();
            assert(v.connected() =~= v.peers.to_set());
            v.peers.unique_seq_to_set();
        }
        self.peers.len()
    }

    /// The connection of `peer`.
    pub fn connection(&self, peer: PeerId) -> (r: Result<&Connection, Error>)
        requires
            self.wf(),
        ensures
            match r {
                Ok(c) => self.deep_view().connections.contains_key(peer) && c.wf()
                    && c.deep_view() == self.deep_view().connections[peer],
                Err(e) => !self.deep_view().connections.contains_key(peer) && e
                    == Error::NotFound(peer),
            },
    {
        match table_get(&self.connections, peer) {
            Some(c) => Ok(c),
            None => Err(Error::NotFound(peer)),
        }
    }

    /// Makes a connection for `peer`, reports it, and notes the peer as new. Where the
    /// peer is connected already, nothing changes and the result is `false`.
    pub fn add(&mut self, peer: PeerId, ping_config: &PingConfig) -> (r: bool)
        requires
            old(self).wf(),
        ensures
            final(self).wf(),
            r == !old(self).deep_view().connections.contains_key(peer),
            final(self).deep_view() == old(self).deep_view().add(peer, *ping_config),
    {
        if table_contains(&self.connections, peer) {
            false
        } else {
            let mut connection = Connection::new(&self.channel_registry, ping_config);
            connection.events.push_connection();
            self.new_clients.push(peer);
            self.peers.push(peer);
            table_insert(&mut self.connections, peer, connection);
            proof {
                let before = old(self).deep_view();
                let after = self.deep_view();
                assert(after.connections =~= before.connections.insert(
                    peer,
                    before.fresh(*ping_config),
                ));
                assert forall|p: PeerId| after.connections.contains_key(p) <==> after.peers.contains(
                    p,
                ) by {
                    if before.peers.contains(p) {
                        let i = choose|i: int| 0 <= i < before.peers.len() && before.peers[i] == p;
                        assert(after.peers[i] == p);
                    }
                    if p == peer {
                        assert(after.peers[before.peers.len() as int] == p);
                    }
                }
                assert forall|i: int| 0 <= i < before.peers.len() implies before.peers[i]
                    != peer by {
                    if before.peers[i] == peer {
                        assert(before.peers.contains(peer));
                    }
                }
            }
            true
        }
    }

    /// Drops the connection of `peer` with all that it holds, and reports the disconnect.
    pub fn remove(&mut self, peer: PeerId)
        requires
            old(self).wf(),
        ensures
            final(self).wf(),
            final(self).deep_view() == old(self).deep_view().remove(peer),
    {
        self.events.push_disconnects(peer);
        table_remove(&mut self.connections, peer);
        let n = self.peers.len();
        let mut i: usize = 0;
        let mut found = false;
        while i < n && !found
            invariant
                i <= n,
                n == self.peers@.len(),
                self.peers == old(self).peers,
                found ==> i < n && self.peers@[i as int] == peer,
                forall|j: int| 0 <= j < i ==> (#[trigger] self.peers@[j]).key() != peer,
            decreases n - i + (if found { 0int } else { 1int }),
        {
            if self.peers[i] == peer {
                found = true;
            } else {
                i += 1;
            }
        }
        proof {
            let before = old(self).deep_view();
            if found {
                lemma_find_some(before.peers, peer, i as int);
            } else {
                lemma_find_none(before.peers, peer);
            }
        }
        if found {
            self.peers.remove(i);
        }
        proof {
            let before = old(self).deep_view();
            let after = self.deep_view();
            assert(after.connections =~= before.connections.remove(peer));
            lemma_without(before.peers, peer);
            assert(after.peers == without(before.peers, peer));
            assert forall|p: PeerId| after.connections.contains_key(p) <==> after.peers.contains(
                p,
            ) by {
                assert(after.connections.contains_key(p) <==> (before.connections.contains_key(p)
                    && p != peer));
                assert(before.connections.contains_key(p) <==> before.peers.contains(p));
            }
        }
    }

    /// Advances the timers of every connection to `time`.
    pub fn update(&mut self, time: Time, tick: Tick)
        requires
            old(self).wf(),
        ensures
            final(self).wf(),
            final(self).deep_view() == old(self).deep_view().update(time, tick),
    {
        let ghost before = self.deep_view();
        let n = self.peers.len();
        let mut i: usize = 0;
        while i < n
            invariant
                i <= n,
                n == self.peers@.len(),
                self.wf(),
                before == old(self).deep_view(),
                self.deep_view() == (ManagerView {
                    connections: self.deep_view().connections,
                    ..before
                }),
                forall|j: int|
                    0 <= j < i ==> self.deep_view().connections[#[trigger] before.peers[j]]
                        == before.connections[before.peers[j]].update(time, tick),
                forall|j: int|
                    i <= j < n ==> self.deep_view().connections[#[trigger] before.peers[j]]
                        == before.connections[before.peers[j]],
            decreases n - i,
        {
            let peer = self.peers[i];
            let ghost table = connections_of(self.connections);
            let ghost cur = self.deep_view();
            proof {
                assert(self.peers@.contains(peer));
            }
            match table_get_mut(&mut self.connections, peer) {
                Some(c) => {
                    c.update(time, tick);
                },
                None => {},
            }
            proof {
                let after = self.deep_view();
                assert(after.connections =~= cur.connections.insert(
                    peer,
                    cur.connections[peer].update(time, tick),
                ));
                assert forall|j: int| 0 <= j < n && j != i implies before.peers[j] != peer by {}
            }
            i += 1;
        }
        proof {
            let after = self.deep_view();
            assert forall|p: PeerId| after.connections.contains_key(p) implies after.connections[p]
                == before.connections[p].update(time, tick) by {
                let j = choose|j: int| 0 <= j < before.peers.len() && before.peers[j] == p;
                assert(after.connections[before.peers[j]] == before.connections[before.peers[j]].update(
                    time,
                    tick,
                ));
            }
            assert(after.connections =~= before.update(time, tick).connections);
        }
    }

    /// The connection of `peer`, to change it. The manager stays valid where the
    /// connection does and keeps its channels.
    pub fn connection_mut(&mut self, peer: PeerId) -> (r: Result<&mut Connection, Error>)
        requires
            old(self).wf(),
        ensures
            match r {
                Ok(c) => {
                    &&& old(self).deep_view().connections.contains_key(peer)
                    &&& c.wf()
                    &&& c.deep_view() == old(self).deep_view().connections[peer]
                    &&& final(self).deep_view() == (ManagerView {
                        connections: old(self).deep_view().connections.insert(
                            peer,
                            final(c).deep_view(),
                        ),
                        ..old(self).deep_view()
                    })
                    &&& final(c).wf() && final(c).deep_view().transport.channels == old(
                        self,
                    ).deep_view().channels ==> final(self).wf()
                },
                Err(e) => {
                    &&& !old(self).deep_view().connections.contains_key(peer)
                    &&& e == Error::NotFound(peer)
                    &&& final(self).wf()
                    &&& final(self).deep_view() == old(self).deep_view()
                },
            },
    {
        let ghost before = self.deep_view();
        let ghost table = connections_of(self.connections);
        match table_get_mut(&mut self.connections, peer) {
            Some(c) => {
                proof {
                    let after_table = table.insert(peer, *final(c));
                    let after = ManagerView {
                        connections: before.connections.insert(peer, final(c).deep_view()),
                        ..before
                    };
                    assert(Map::new(
                        |p: PeerId| after_table.contains_key(p),
                        |p: PeerId| after_table[p].deep_view(),
                    ) =~= after.connections);
                    assert forall|p: PeerId| after.connections.contains_key(p) <==> after.peers.contains(
                        p,
                    ) by {
                        assert(before.connections.contains_key(p) <==> before.peers.contains(p));
                    }
                }
                Ok(c)
            },
            None => Err(Error::NotFound(peer)),
        }
    }

    /// For each connected peer, the input to simulate `tick` with: the one recorded
    /// for `tick`, else the one recorded for the nearest earlier tick, else none.
    /// There is one entry for each connected peer.
    pub fn pop_inputs(&mut self, tick: Tick) -> (r: Vec<(Option<Input>, PeerId)>)
        requires
            old(self).wf(),
        ensures
            final(self).wf(),
            final(self).deep_view() == old(self).deep_view(),
            r@ == old(self).deep_view().pop_inputs(tick),
    {
        let mut out: Vec<(Option<Input>, PeerId)> = Vec::new();
        let n = self.peers.len();
        let mut i: usize = 0;
        while i < n
            invariant
                i <= n,
                n == self.peers@.len(),
                self.wf(),
                *self == *old(self),
                out@ == self.deep_view().pop_inputs(tick).take(i as int),
            decreases n - i,
        {
            let peer = self.peers[i];
            proof {
                assert(self.peers@.contains(peer));
                assert(self.deep_view().connections.contains_key(peer));
            }
            match table_get(&self.connections, peer) {
                Some(c) => {
                    let input = c.input_buffer.get_or_last(tick);
                    out.push((input, peer));
                },
                None => {},
            }
            proof {
                let all = self.deep_view().pop_inputs(tick);
                assert(all.take(i + 1) =~= all.take(i as int).push(all[i as int]));
            }
            i += 1;
        }
        proof {
            let all = self.deep_view().pop_inputs(tick);
            assert(all.take(n as int) =~= all);
        }
        out
    }

    /// Hands a copy of `message` to the connection of each peer that `target` names,
    /// for sending on `channel`.
    pub fn buffer_message(&mut self, message: Message, channel: ChannelKind, target: NetworkTarget) -> (r:
        Result<(), Error>)
        requires
            old(self).wf(),
        ensures
            final(self).wf(),
            r == old(self).deep_view().buffer_message_result(channel, target),
            final(self).deep_view() == old(self).deep_view().buffer_message(
                message.deep_view(),
                channel,
                target,
            ),
    {
        let ghost before = self.deep_view();
        let ghost mv = message.deep_view();
        let n = self.peers.len();
        let mut i: usize = 0;
        while i < n
            invariant
                i <= n,
                n == self.peers@.len(),
                self.wf(),
                before == old(self).deep_view(),
                before.wf(),
                mv == message.deep_view(),
                self.deep_view() == (ManagerView {
                    connections: self.deep_view().connections,
                    ..before
                }),
                forall|j: int|
                    0 <= j < i && target.targets(#[trigger] before.peers[j]) ==> find_channel(
                        before.channels,
                        channel,
                    ) is Some,
                forall|j: int|
                    0 <= j < i ==> self.deep_view().connections[#[trigger] before.peers[j]] == (
                    if target.targets(before.peers[j]) {
                        before.connections[before.peers[j]].buffer_message(mv, channel)
                    } else {
                        before.connections[before.peers[j]]
                    }),
                forall|j: int|
                    i <= j < n ==> self.deep_view().connections[#[trigger] before.peers[j]]
                        == before.connections[before.peers[j]],
            decreases n - i,
        {
            let peer = self.peers[i];
            let ghost cur = self.deep_view();
            proof {
                assert(self.peers@.contains(peer));
                assert(before.connections.contains_key(peer));
                assert forall|j: int| 0 <= j < n && j != i implies before.peers[j] != peer by {}
            }
            if target.should_send_to(&peer) {
                let copy = message.clone();
                let mut failure: Option<Error> = None;
                match table_get_mut(&mut self.connections, peer) {
                    Some(c) => {
                        match c.buffer_message(copy, channel) {
                            Err(e) => {
                                failure = Some(e);
                            },
                            Ok(_) => {},
                        }
                    },
                    None => {},
                }
                proof {
                    assert(self.deep_view().connections =~= cur.connections.insert(
                        peer,
                        cur.connections[peer].buffer_message(mv, channel),
                    ));
                    assert(cur.connections[peer].transport.channels == before.channels);
                }
                if let Some(e) = failure {
                    proof {
                        lemma_buffer_message_unknown(before, mv, channel, target);
                        assert(self.deep_view().connections =~= before.connections) by {
                            assert forall|p: PeerId|
                                before.connections.contains_key(p) implies self.deep_view().connections[p]
                                == before.connections[p] by {
                                let j = choose|j: int|
                                    0 <= j < before.peers.len() && before.peers[j] == p;
                                assert(self.deep_view().connections[before.peers[j]]
                                    == before.connections[before.peers[j]]);
                            }
                        }
                    }
                    return Err(e);
                }
            }
            i += 1;
        }
        proof {
            let after = self.deep_view();
            let goal = before.buffer_message(mv, channel, target);
            assert forall|p: PeerId| after.connections.contains_key(p) implies after.connections[p]
                == goal.connections[p] by {
                let j = choose|j: int| 0 <= j < before.peers.len() && before.peers[j] == p;
                assert(after.connections[before.peers[j]] == goal.connections[before.peers[j]]);
            }
            assert(after.connections =~= goal.connections);
            if before.has_target(target) {
                let p = choose|p: PeerId| #[trigger]
                    before.connections.contains_key(p) && target.targets(p);
                let j = choose|j: int| 0 <= j < before.peers.len() && before.peers[j] == p;
                assert(target.targets(before.peers[j]));
            }
        }
        Ok(())
    }

    /// Has every connection hand its waiting replication diffs to its transport, for
    /// `tick`, in the order in which the peers connected. Stops at the first
    /// connection that fails.
    pub fn buffer_replication_messages(&mut self, tick: Tick) -> (r: Result<(), Error>)
        requires
            old(self).wf(),
        ensures
            final(self).wf(),
            r == old(self).deep_view().replicate_result(old(self).deep_view().peers, tick),
            final(self).deep_view() == old(self).deep_view().buffer_replication_messages(tick),
    {
        let ghost before = self.deep_view();
        let n = self.peers.len();
        let mut i: usize = 0;
        proof {
            assert(before.peers.skip(0) =~= before.peers);
        }
        while i < n
            invariant
                i <= n,
                n == self.peers@.len(),
                self.wf(),
                before == old(self).deep_view(),
                self.deep_view().peers == before.peers,
                before.replicate(before.peers, tick) == self.deep_view().replicate(
                    before.peers.skip(i as int),
                    tick,
                ),
                before.replicate_result(before.peers, tick) == self.deep_view().replicate_result(
                    before.peers.skip(i as int),
                    tick,
                ),
            decreases n - i,
        {
            let peer = self.peers[i];
            let ghost cur = self.deep_view();
            proof {
                assert(self.peers@.contains(peer));
                assert(cur.connections.contains_key(peer));
                assert(before.peers.skip(i as int)[0] == peer);
                assert(before.peers.skip(i as int).skip(1) =~= before.peers.skip(i + 1));
            }
            let mut failure: Option<Error> = None;
            match table_get_mut(&mut self.connections, peer) {
                Some(c) => {
                    match c.buffer_replication_messages(tick) {
                        Err(e) => {
                            failure = Some(e);
                        },
                        Ok(_) => {},
                    }
                },
                None => {},
            }
            proof {
                lemma_replication_keeps_channels(cur.connections[peer], tick);
                assert(self.deep_view().connections =~= cur.replicate_one(peer, tick).connections);
                assert forall|p: PeerId|
                    self.deep_view().connections.contains_key(p) <==> self.deep_view().peers.contains(
                        p,
                    ) by {
                    assert(cur.connections.contains_key(p) <==> cur.peers.contains(p));
                }
            }
            if let Some(e) = failure {
                return Err(e);
            }
            i += 1;
        }
        proof {
            assert(before.peers.skip(n as int) =~= Seq::<PeerId>::empty());
        }
        Ok(())
    }

    /// Has every connection read all that arrived, at `time`, in the order in which
    /// the peers connected: the events of each are taken into the manager's, and the
    /// messages that each holds to pass on are handed, in that order, to the
    /// connections of the peers that their targets name. Stops at the first message
    /// that cannot be passed on.
    pub fn receive(&mut self, time: Time) -> (r: Result<(), Error>)
        requires
            old(self).wf(),
        ensures
            final(self).wf(),
            r == old(self).deep_view().receive_result(time),
            final(self).deep_view() == old(self).deep_view().receive(time),
    {
        let ghost before = self.deep_view();
        let mut messages_to_rebroadcast: Vec<(Message, NetworkTarget, ChannelKind)> = Vec::new();
        let n = self.peers.len();
        let mut i: usize = 0;
        proof {
            assert(messages_to_rebroadcast.deep_view() =~= Seq::<Rebroadcast>::empty());
        }
        while i < n
            invariant
                i <= n,
                n == self.peers@.len(),
                self.wf(),
                before == old(self).deep_view(),
                before.peers == self.deep_view().peers,
                self.deep_view() == before.receive_from_all(before.peers.take(i as int), time),
                messages_to_rebroadcast.deep_view() == before.rebroadcasts(
                    before.peers.take(i as int),
                    time,
                ),
            decreases n - i,
        {
            let peer = self.peers[i];
            let ghost cur = self.deep_view();
            let ghost list = messages_to_rebroadcast.deep_view();
            proof {
                assert(self.peers@.contains(peer));
                assert(cur.connections.contains_key(peer));
                assert(before.peers.take(i + 1).drop_last() =~= before.peers.take(i as int));
                assert(before.peers.take(i + 1).last() == peer);
            }
            let mut taken: Vec<(Message, NetworkTarget, ChannelKind)> = Vec::new();
            proof {
                assert(taken.deep_view() =~= Seq::<Rebroadcast>::empty());
            }
            match table_get_mut(&mut self.connections, peer) {
                Some(c) => {
                    let events = c.receive(time);
                    std::mem::swap(&mut c.messages_to_rebroadcast, &mut taken);
                    self.events.push_events(peer, events);
                },
                None => {},
            }
            let ghost taken_view = taken.deep_view();
            messages_to_rebroadcast.append(&mut taken);
            proof {
                lemma_received_keeps_channels(cur.connections[peer], time);
                assert(messages_to_rebroadcast.deep_view() =~= list + taken_view);
                assert(self.deep_view().connections =~= cur.receive_from(peer, time).connections);
                assert forall|p: PeerId|
                    self.deep_view().connections.contains_key(p) <==> self.deep_view().peers.contains(
                        p,
                    ) by {
                    assert(cur.connections.contains_key(p) <==> cur.peers.contains(p));
                }
            }
            i += 1;
        }
        let ghost all = messages_to_rebroadcast.deep_view();
        let ghost start = self.deep_view();
        proof {
            assert(before.peers.take(n as int) =~= before.peers);
            assert(all.skip(0) =~= all);
        }
        for m in it: messages_to_rebroadcast.into_iter()
            invariant
                self.wf(),
                it.seq().len() == all.len(),
                forall|j: int|
                    0 <= j < it.seq().len() ==> (#[trigger] it.seq()[j]).deep_view() == all[j],
                start == old(self).deep_view().receive_from_all(old(self).deep_view().peers, time),
                all == old(self).deep_view().rebroadcasts(old(self).deep_view().peers, time),
                start.rebroadcast_all(all) == self.deep_view().rebroadcast_all(
                    all.skip(it.index()),
                ),
                start.rebroadcast_result(all) == self.deep_view().rebroadcast_result(
                    all.skip(it.index()),
                ),
        {
            let ghost k = it.index();
            proof {
                assert(all.skip(k)[0] == all[k]);
                assert(all.skip(k).skip(1) =~= all.skip(k + 1));
            }
            let (message, target, channel) = m;
            let ghost cur = self.deep_view();
            match self.buffer_message(message, channel, target) {
                Err(e) => {
                    proof {
                        lemma_buffer_message_unknown(cur, all[k].0, channel, target);
                    }
                    return Err(e);
                },
                Ok(_) => {},
            }
        }
        proof {
            assert(all.skip(all.len() as int) =~= Seq::<Rebroadcast>::empty());
        }
        Ok(())
    }

    /// Takes what waits to be reported to the application.
    pub fn take_events(&mut self) -> (r: ServerEvents)
        requires
            old(self).wf(),
        ensures
            final(self).wf(),
            r.deep_view() == old(self).deep_view().events,
            final(self).deep_view() == old(self).deep_view().without_events(),
    {
        let mut out = ServerEvents::new();
        std::mem::swap(&mut self.events, &mut out);
        out
    }

    /// Takes the list of the peers that connected since it was last taken, oldest first.
    pub fn take_new_clients(&mut self) -> (r: Vec<PeerId>)
        requires
            old(self).wf(),
        ensures
            final(self).wf(),
            r@ == old(self).deep_view().new_clients,
            final(self).deep_view() == old(self).deep_view().without_new_clients(),
    {
        let mut out: Vec<PeerId> = Vec::new();
        std::mem::swap(&mut self.new_clients, &mut out);
        out
    }
}

/// Taking a peer out of a list without duplicates leaves the others, in their order.
pub proof fn lemma_without(peers: Seq<PeerId>, peer: PeerId)
    requires
        peers.no_duplicates(),
    ensures
        without(peers, peer).no_duplicates(),
        forall|p: PeerId| without(peers, peer).contains(p) <==> (peers.contains(p) && p != peer),
{
    lemma_find_found(peers, peer);
    let w = without(peers, peer);
    match find(peers, peer) {
        Some(i) => {
            assert forall|p: PeerId| w.contains(p) <==> (peers.contains(p) && p != peer) by {
                if w.contains(p) {
                    let j = choose|j: int| 0 <= j < w.len() && w[j] == p;
                    if j < i {
                        assert(peers[j] == p);
                    } else {
                        assert(peers[j + 1] == p);
                    }
                }
                if peers.contains(p) && p != peer {
                    let j = choose|j: int| 0 <= j < peers.len() && peers[j] == p;
                    if j < i {
                        assert(w[j] == p);
                    } else {
                        assert(w[j - 1] == p);
                    }
                }
            }
        },
        None => {
            assert forall|p: PeerId| peers.contains(p) implies p != peer by {
                let j = choose|j: int| 0 <= j < peers.len() && peers[j] == p;
                assert(peers[j].key() != peer);
            }
        },
    }
}

/// Where the channel is not registered, handing a message over changes nothing.
pub proof fn lemma_buffer_message_unknown(
    m: ManagerView,
    message: MessageView,
    channel: ChannelKind,
    target: NetworkTarget,
)
    requires
        m.wf(),
        find_channel(m.channels, channel) is None,
    ensures
        m.buffer_message(message, channel, target) == m,
{
    assert(m.buffer_message(message, channel, target).connections =~= m.connections);
}

} // verus!
