//! What travels over a connection: application messages and the envelopes around them.

use vstd::prelude::*;
use crate::entity_map::{remap_all, EntityMap};
use crate::target::NetworkTarget;
use crate::types::{Entity, GroupId, Input, PingId, Tick, Time};

verus! {

/// The input of one tick.
#[derive(Clone, Copy, PartialEq, Eq, Structural, Debug)]
pub struct TickInput {
    pub tick: Tick,
    pub input: Input,
}

/// An application payload: the entity references it embeds, and its encoded body.
#[derive(PartialEq, Eq, Debug)]
pub struct Content {
    pub entities: Vec<Entity>,
    pub bytes: Vec<u8>,
}

/// The value of a `Content`.
pub struct ContentView {
    pub entities: Seq<Entity>,
    pub bytes: Seq<u8>,
}

impl DeepView for Content {
    type V = ContentView;

    open spec fn deep_view(&self) -> ContentView {
        ContentView { entities: self.entities@, bytes: self.bytes@ }
    }
}

impl Clone for Content {
    fn clone(&self) -> (r: Self)
        ensures
            r.deep_view() == self.deep_view(),
    {
        let entities = self.entities.clone();
        let bytes = self.bytes.clone();
        assert(entities@ =~= self.entities@);
        assert(bytes@ =~= self.bytes@);
        Content { entities, bytes }
    }
}

/// How a message relates to player input.
#[derive(Clone, Copy, PartialEq, Eq, Structural, Debug)]
pub enum InputMessageKind {
    /// Inputs of the built-in kind, kept in the input buffer.
    Native,
    /// Inputs of an action-state framework, handed on as they are.
    ActionState,
    /// Not an input.
    NotInput,
}

/// An application message.
#[derive(PartialEq, Eq, Debug)]
pub enum Message {
    /// Built-in inputs, each with the tick it was produced for.
    Input(Vec<TickInput>),
    /// Inputs of an action-state framework.
    ActionInput(Content),
    /// Anything else the application sends.
    User(Content),
}

/// The value of a `Message`.
pub enum MessageView {
    Input(Seq<TickInput>),
    ActionInput(ContentView),
    User(ContentView),
}

impl MessageView {
    /// How the message relates to player input.
    pub open spec fn kind(self) -> InputMessageKind {
        match self {
            MessageView::Input(_) => InputMessageKind::Native,
            MessageView::ActionInput(_) => InputMessageKind::ActionState,
            MessageView::User(_) => InputMessageKind::NotInput,
        }
    }

    /// The message with each embedded entity reference translated by `m`.
    pub open spec fn map_entities(self, m: Map<Entity, Entity>) -> MessageView {
        match self {
            MessageView::Input(inputs) => MessageView::Input(inputs),
            MessageView::ActionInput(c) => MessageView::ActionInput(
                ContentView { entities: remap_all(m, c.entities), bytes: c.bytes },
            ),
            MessageView::User(c) => MessageView::User(
                ContentView { entities: remap_all(m, c.entities), bytes: c.bytes },
            ),
        }
    }
}

impl DeepView for Message {
    type V = MessageView;

    open spec fn deep_view(&self) -> MessageView {
        match self {
            Message::Input(inputs) => MessageView::Input(inputs@),
            Message::ActionInput(c) => MessageView::ActionInput(c.deep_view()),
            Message::User(c) => MessageView::User(c.deep_view()),
        }
    }
}

impl Clone for Message {
    fn clone(&self) -> (r: Self)
        ensures
            r.deep_view() == self.deep_view(),
    {
        match self {
            Message::Input(inputs) => {
                let copy = inputs.clone();
                assert(copy@ =~= inputs@);
                Message::Input(copy)
            },
            Message::ActionInput(c) => Message::ActionInput(c.clone()),
            Message::User(c) => Message::User(c.clone()),
        }
    }
}

impl Message {
    /// How the message relates to player input.
    pub fn input_message_kind(&self) -> (r: InputMessageKind)
        ensures
            r == self.deep_view().kind(),
    {
        match self {
            Message::Input(_) => InputMessageKind::Native,
            Message::ActionInput(_) => InputMessageKind::ActionState,
            Message::User(_) => InputMessageKind::NotInput,
        }
    }

    /// Translates each embedded remote entity reference that `map` knows into the local one.
    pub fn map_entities(self, map: &EntityMap) -> (r: Self)
        ensures
            r.deep_view() == self.deep_view().map_entities(map.to_local()),
    {
        match self {
            Message::Input(inputs) => Message::Input(inputs),
            Message::ActionInput(c) => {
                let Content { mut entities, bytes } = c;
                map.map_entities(&mut entities);
                Message::ActionInput(Content { entities, bytes })
            },
            Message::User(c) => {
                let Content { mut entities, bytes } = c;
                map.map_entities(&mut entities);
                Message::User(Content { entities, bytes })
            },
        }
    }
}

/// A request to be answered at once, stamped with the time it left.
#[derive(Clone, Copy, PartialEq, Eq, Structural, Debug)]
pub struct Ping {
    pub id: PingId,
    pub send_time: Time,
}

/// The answer to a ping, stamped with the time it left.
#[derive(Clone, Copy, PartialEq, Eq, Structural, Debug)]
pub struct Pong {
    pub ping_id: PingId,
    pub pong_sent_time: Time,
}

/// A message of the time-synchronisation exchange.
#[derive(Clone, Copy, PartialEq, Eq, Structural, Debug)]
pub enum SyncMessage {
    Ping(Ping),
    Pong(Pong),
}

/// An encoded diff of replicated state.
#[derive(PartialEq, Eq, Debug)]
pub enum ReplicationMessageData {
    /// Structural changes: spawns, despawns, components added or removed.
    Actions(Vec<u8>),
    /// New values for state that exists.
    Updates(Vec<u8>),
}

/// The value of a `ReplicationMessageData`.
pub enum ReplicationDataView {
    Actions(Seq<u8>),
    Updates(Seq<u8>),
}

impl DeepView for ReplicationMessageData {
    type V = ReplicationDataView;

    open spec fn deep_view(&self) -> ReplicationDataView {
        match self {
            ReplicationMessageData::Actions(d) => ReplicationDataView::Actions(d@),
            ReplicationMessageData::Updates(d) => ReplicationDataView::Updates(d@),
        }
    }
}

impl ReplicationMessageData {
    /// Whether the diff carries new values rather than structural changes.
    pub fn is_updates(&self) -> (r: bool)
        ensures
            r == (self.deep_view() is Updates),
    {
        match self {
            ReplicationMessageData::Actions(_) => false,
            ReplicationMessageData::Updates(_) => true,
        }
    }
}

/// What one message on the wire holds.
#[derive(PartialEq, Eq, Debug)]
pub enum Envelope {
    /// An application message, and the peers it should be passed on to.
    Message { message: Message, target: NetworkTarget },
    /// A diff of one replication group.
    Replication { group_id: GroupId, data: ReplicationMessageData },
    /// A ping or a pong.
    Sync(SyncMessage),
}

/// The value of an `Envelope`.
pub enum EnvelopeView {
    Message { message: MessageView, target: NetworkTarget },
    Replication { group_id: GroupId, data: ReplicationDataView },
    Sync(SyncMessage),
}

impl DeepView for Envelope {
    type V = EnvelopeView;

    open spec fn deep_view(&self) -> EnvelopeView {
        match self {
            Envelope::Message { message, target } => EnvelopeView::Message {
                message: message.deep_view(),
                target: *target,
            },
            Envelope::Replication { group_id, data } => EnvelopeView::Replication {
                group_id: *group_id,
                data: data.deep_view(),
            },
            Envelope::Sync(s) => EnvelopeView::Sync(*s),
        }
    }
}

} // verus!
