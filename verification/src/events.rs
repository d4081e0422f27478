//! What a connection reports to the application after it has received.

use vstd::prelude::*;
use crate::message::{Message, MessageView, ReplicationDataView, ReplicationMessageData};
use crate::types::{ChannelKind, GroupId, PeerId, Tick};

verus! {

/// What one connection has to report.
#[derive(PartialEq, Eq, Debug)]
pub struct ConnectionEvents {
    /// Whether the connection was made since the last report.
    pub connected: bool,
    /// Application messages that arrived, each with its channel, oldest first.
    pub messages: Vec<(ChannelKind, Message)>,
    /// Action-state inputs that arrived, oldest first.
    pub input_messages: Vec<Message>,
    /// Replication diffs to apply to the world, in this order, each with its group and
    /// the tick at which it left the other end.
    pub replication: Vec<(GroupId, Tick, ReplicationMessageData)>,
}

/// The value of a `ConnectionEvents`.
pub struct EventsView {
    pub connected: bool,
    pub messages: Seq<(ChannelKind, MessageView)>,
    pub input_messages: Seq<MessageView>,
    pub replication: Seq<(GroupId, Tick, ReplicationDataView)>,
}

impl EventsView {
    /// Nothing to report.
    pub open spec fn empty() -> EventsView {
        EventsView {
            connected: false,
            messages: Seq::empty(),
            input_messages: Seq::empty(),
            replication: Seq::empty(),
        }
    }

    /// Whether there is nothing to report.
    pub open spec fn is_empty(self) -> bool {
        &&& !self.connected
        &&& self.messages.len() == 0
        &&& self.input_messages.len() == 0
        &&& self.replication.len() == 0
    }

    /// With the connection reported as made.
    pub open spec fn push_connection(self) -> EventsView {
        EventsView { connected: true, ..self }
    }

    /// With one more application message.
    pub open spec fn push_message(self, channel: ChannelKind, message: MessageView) -> EventsView {
        EventsView { messages: self.messages.push((channel, message)), ..self }
    }

    /// With one more action-state input.
    pub open spec fn push_input_message(self, message: MessageView) -> EventsView {
        EventsView { input_messages: self.input_messages.push(message), ..self }
    }

    /// With one more diff to apply.
    pub open spec fn push_replication(
        self,
        group: GroupId,
        tick: Tick,
        data: ReplicationDataView,
    ) -> EventsView {
        EventsView { replication: self.replication.push((group, tick, data)), ..self }
    }
}

impl DeepView for ConnectionEvents {
    type V = EventsView;

    open spec fn deep_view(&self) -> EventsView {
        EventsView {
            connected: self.connected,
            messages: self.messages.deep_view(),
            input_messages: self.input_messages.deep_view(),
            replication: self.replication.deep_view(),
        }
    }
}

impl ConnectionEvents {
    /// Nothing to report.
    pub fn new() -> (r: Self)
        ensures
            r.deep_view() == EventsView::empty(),
    {
        let r = ConnectionEvents {
            connected: false,
            messages: Vec::new(),
            input_messages: Vec::new(),
            replication: Vec::new(),
        };
        proof {
            assert(r.messages.deep_view() =~= Seq::empty());
            assert(r.input_messages.deep_view() =~= Seq::empty());
            assert(r.replication.deep_view() =~= Seq::empty());
        }
        r
    }

    /// Whether there is nothing to report.
    pub fn is_empty(&self) -> (r: bool)
        ensures
            r == self.deep_view().is_empty(),
    {
        !self.connected && self.messages.len() == 0 && self.input_messages.len() == 0
            && self.replication.len() == 0
    }

    /// Reports that the connection was made.
    pub fn push_connection(&mut self)
        ensures
            final(self).deep_view() == old(self).deep_view().push_connection(),
    {
        self.connected = true;
    }

    /// Reports an application message that arrived on `channel`.
    pub fn push_message(&mut self, channel: ChannelKind, message: Message)
        ensures
            final(self).deep_view() == old(self).deep_view().push_message(
                channel,
                message.deep_view(),
            ),
    {
        let ghost before = self.messages.deep_view();
        let ghost mv = message.deep_view();
        self.messages.push((channel, message));
        proof {
            assert(self.messages.deep_view() =~= before.push((channel, mv)));
        }
    }

    /// Reports an action-state input that arrived.
    pub fn push_input_message(&mut self, message: Message)
        ensures
            final(self).deep_view() == old(self).deep_view().push_input_message(
                message.deep_view(),
            ),
    {
        let ghost before = self.input_messages.deep_view();
        let ghost mv = message.deep_view();
        self.input_messages.push(message);
        proof {
            assert(self.input_messages.deep_view() =~= before.push(mv));
        }
    }

    /// Reports a diff of `group` to apply, which left the other end at `tick`.
    pub fn push_replication(&mut self, group: GroupId, tick: Tick, data: ReplicationMessageData)
        ensures
            final(self).deep_view() == old(self).deep_view().push_replication(
                group,
                tick,
                data.deep_view(),
            ),
    {
        let ghost before = self.replication.deep_view();
        let ghost dv = data.deep_view();
        self.replication.push((group, tick, data));
        proof {
            assert(self.replication.deep_view() =~= before.push((group, tick, dv)));
        }
    }
}

/// What the connections of a server have to report.
#[derive(PartialEq, Eq, Debug)]
pub struct ServerEvents {
    /// What each connection reported, by peer, in the order reported.
    pub events: Vec<(PeerId, ConnectionEvents)>,
    /// The peers that disconnected, in that order.
    pub disconnects: Vec<PeerId>,
}

/// The value of a `ServerEvents`.
pub struct ServerEventsView {
    pub events: Seq<(PeerId, EventsView)>,
    pub disconnects: Seq<PeerId>,
}

impl ServerEventsView {
    /// Nothing to report.
    pub open spec fn empty() -> ServerEventsView {
        ServerEventsView { events: Seq::empty(), disconnects: Seq::empty() }
    }

    /// With what `peer`'s connection reported. An empty report is left out.
    pub open spec fn push_events(self, peer: PeerId, events: EventsView) -> ServerEventsView {
        if events.is_empty() {
            self
        } else {
            ServerEventsView { events: self.events.push((peer, events)), ..self }
        }
    }

    /// With `peer` reported as disconnected.
    pub open spec fn push_disconnects(self, peer: PeerId) -> ServerEventsView {
        ServerEventsView { disconnects: self.disconnects.push(peer), ..self }
    }
}

impl DeepView for ServerEvents {
    type V = ServerEventsView;

    open spec fn deep_view(&self) -> ServerEventsView {
        ServerEventsView { events: self.events.deep_view(), disconnects: self.disconnects@ }
    }
}

impl ServerEvents {
    /// Nothing to report.
    pub fn new() -> (r: Self)
        ensures
            r.deep_view() == ServerEventsView::empty(),
    {
        let r = ServerEvents { events: Vec::new(), disconnects: Vec::new() };
        proof {
            assert(r.events.deep_view() =~= Seq::empty());
        }
        r
    }

    /// Takes in what `peer`'s connection reported. An empty report is left out.
    pub fn push_events(&mut self, peer: PeerId, events: ConnectionEvents)
        ensures
            final(self).deep_view() == old(self).deep_view().push_events(peer, events.deep_view()),
    {
        if !events.is_empty() {
            let ghost before = self.events.deep_view();
            let ghost ev = events.deep_view();
            self.events.push((peer, events));
            proof {
                assert(self.events.deep_view() =~= before.push((peer, ev)));
            }
        }
    }

    /// Reports that `peer` disconnected.
    pub fn push_disconnects(&mut self, peer: PeerId)
        ensures
            final(self).deep_view() == old(self).deep_view().push_disconnects(peer),
    {
        self.disconnects.push(peer);
    }
}

} // verus!
