//! Per-connection core of a client/server netcode layer: message channels,
//! replication bookkeeping, per-tick input buffering and ping/pong timing,
//! multiplexed over any number of connected peers.
//!
//! Every component has a value, given by `view` or `deep_view`, and every
//! operation states how it changes that value. `laws` and `order` hold what
//! follows for the library as a whole.

pub mod types;
pub mod keyed;
pub mod error;
pub mod target;
pub mod entity_map;
pub mod message;
pub mod input_buffer;
pub mod ping;
pub mod transport;
pub mod events;
pub mod replication;
pub mod connection;
pub mod peer_table;
pub mod manager;
pub mod laws;
pub mod order;

pub use connection::Connection;
pub use manager::ConnectionManager;
