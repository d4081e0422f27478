//! Which peers a message is meant for.

use vstd::prelude::*;
use crate::types::PeerId;

verus! {

/// A predicate over peers, carried next to a message.
#[derive(Clone, Copy, PartialEq, Eq, Structural, Debug)]
pub enum NetworkTarget {
    /// No peer.
    Nobody,
    /// Every peer.
    All,
    /// Every peer but the one named.
    AllExceptSingle(PeerId),
    /// The one peer named.
    Single(PeerId),
}

impl DeepView for NetworkTarget {
    type V = NetworkTarget;

    open spec fn deep_view(&self) -> NetworkTarget {
        *self
    }
}

impl NetworkTarget {
    /// Whether `peer` satisfies the predicate.
    pub open spec fn targets(self, peer: PeerId) -> bool {
        match self {
            NetworkTarget::Nobody => false,
            NetworkTarget::All => true,
            NetworkTarget::AllExceptSingle(p) => peer != p,
            NetworkTarget::Single(p) => peer == p,
        }
    }

    /// Whether a message with this target should go to `peer`.
    pub fn should_send_to(&self, peer: &PeerId) -> (r: bool)
        ensures
            r == self.targets(*peer),
    {
        match self {
            NetworkTarget::Nobody => false,
            NetworkTarget::All => true,
            NetworkTarget::AllExceptSingle(p) => *peer != *p,
            NetworkTarget::Single(p) => *peer == *p,
        }
    }

    /// Whether this is the empty target.
    pub fn is_nobody(&self) -> (r: bool)
        ensures
            r == (*self == NetworkTarget::Nobody),
    {
        match self {
            NetworkTarget::Nobody => true,
            _ => false,
        }
    }
}

/// The empty target matches no peer at all.
pub proof fn none_targets_nobody(peer: PeerId)
    ensures
        !NetworkTarget::Nobody.targets(peer),
{
}

} // verus!
