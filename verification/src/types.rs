//! Identifiers and clocks shared by every component.

use vstd::prelude::*;

verus! {

/// Identifies a connected peer. Unique among live connections.
pub type PeerId = u64;

/// Simulation step counter, the reference frame that both ends share.
pub type Tick = u64;

/// Identifies a logical channel of the transport.
pub type ChannelKind = u64;

/// Identifier that the transport assigns to a message whose delivery it tracks.
pub type MessageId = u64;

/// Identifies a replication group: state whose diffs apply in the order sent.
pub type GroupId = u64;

/// Reference to an entity of the replicated world.
pub type Entity = u64;

/// Wall-clock time in milliseconds.
pub type Time = u64;

/// Change-detection clock of the world that produces replication diffs.
pub type ChangeTick = u32;

/// One encoded player input.
pub type Input = u64;

/// Identifies a ping, so that the pong answering it can be matched.
pub type PingId = u64;

/// Channel that carries value diffs of replicated state. It tracks delivery.
pub const ENTITY_UPDATES_CHANNEL: ChannelKind = 0;

/// Channel that carries structural changes of replicated state. It tracks delivery.
pub const ENTITY_ACTIONS_CHANNEL: ChannelKind = 1;

/// Channel that carries pings and pongs.
pub const PING_CHANNEL: ChannelKind = 2;

/// Channel that carries player inputs.
pub const INPUT_CHANNEL: ChannelKind = 3;

/// Channel for application messages that need neither order nor delivery tracking.
pub const DEFAULT_CHANNEL: ChannelKind = 4;

} // verus!
