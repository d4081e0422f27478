//! What can go wrong.

use vstd::prelude::*;
use crate::types::{ChannelKind, PeerId};

verus! {

/// Why an operation failed.
#[derive(Clone, Copy, PartialEq, Eq, Structural, Debug)]
pub enum Error {
    /// No connection exists for the peer.
    NotFound(PeerId),
    /// The transport could not take a message: the channel is not registered.
    TransportFailure(ChannelKind),
    /// A replication diff went out on a channel that hands out no message identifier,
    /// so its acknowledgment could never be told apart. This is a fault of the
    /// protocol setup, not a condition to recover from.
    InvariantViolation(ChannelKind),
}

impl Error {
    /// A short description of the failure.
    pub fn description(&self) -> (r: &'static str)
        ensures
            r == match *self {
                Error::NotFound(_) => "client id not found",
                Error::TransportFailure(_) => "channel not found",
                Error::InvariantViolation(_) => "the channel returned no message id",
            },
    {
        match self {
            Error::NotFound(_) => "client id not found",
            Error::TransportFailure(_) => "channel not found",
            Error::InvariantViolation(_) => "the channel returned no message id",
        }
    }

    /// Whether the failure shows a fault in the program rather than in its input.
    pub fn is_fatal(&self) -> (r: bool)
        ensures
            r == (*self is InvariantViolation),
    {
        match self {
            Error::InvariantViolation(_) => true,
            _ => false,
        }
    }
}

} // verus!
