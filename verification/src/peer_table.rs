//! The connections of a server, found by peer. They are kept in the hash map that
//! `bevy::utils` provides; what is stated of it here is taken on trust.

use vstd::prelude::*;
use crate::connection::Connection;
use crate::types::PeerId;

verus! {

/// The connections of a server, by peer.
#[verifier::external_body]
pub struct PeerTable {
    inner: bevy::utils::HashMap<PeerId, Connection>,
}

/// The connections that a table holds, by peer.
pub uninterp spec fn connections_of(table: PeerTable) -> Map<PeerId, Connection>;

/// Calls `Default::default` of `bevy::utils::HashMap` (hashbrown's `HashMap`): the map
/// that it makes holds nothing.
#[verifier::external_body]
pub(crate) fn table_new() -> (table: PeerTable)
    ensures
        connections_of(table).dom() == Set::<PeerId>::empty(),
{
    PeerTable { inner: bevy::utils::HashMap::default() }
}

/// Calls `HashMap::contains_key`: whether the map holds a value for the key.
#[verifier::external_body]
pub(crate) fn table_contains(table: &PeerTable, peer: PeerId) -> (found: bool)
    ensures
        found == connections_of(*table).contains_key(peer),
{
    table.inner.contains_key(&peer)
}

/// Calls `HashMap::get`: a reference to the value of the key, where the map holds one.
#[verifier::external_body]
pub(crate) fn table_get(table: &PeerTable, peer: PeerId) -> (found: Option<&Connection>)
    ensures
        match found {
            Some(c) => connections_of(*table).contains_key(peer) && *c == connections_of(
                *table,
            )[peer],
            None => !connections_of(*table).contains_key(peer),
        },
{
    table.inner.get(&peer)
}

/// Calls `HashMap::get_mut`: a mutable reference to the value of the key, where the map
/// holds one. What is written through it becomes the value of the key; nothing else
/// in the map changes.
#[verifier::external_body]
pub(crate) fn table_get_mut(table: &mut PeerTable, peer: PeerId) -> (found: Option<&mut Connection>)
    ensures
        match found {
            Some(c) => {
                &&& connections_of(*old(table)).contains_key(peer)
                &&& *c == connections_of(*old(table))[peer]
                &&& connections_of(*final(table)) == connections_of(*old(table)).insert(
                    peer,
                    *final(c),
                )
            },
            None => {
                &&& !connections_of(*old(table)).contains_key(peer)
                &&& connections_of(*final(table)) == connections_of(*old(table))
            },
        },
{
    table.inner.get_mut(&peer)
}

/// Calls `HashMap::insert`: afterwards the key has the value given, and the other keys
/// are as before. Returns the value that the key had, if it had one.
#[verifier::external_body]
pub(crate) fn table_insert(table: &mut PeerTable, peer: PeerId, connection: Connection) -> (previous:
    Option<Connection>)
    ensures
        connections_of(*final(table)) == connections_of(*old(table)).insert(peer, connection),
        previous == (if connections_of(*old(table)).contains_key(peer) {
            Some(connections_of(*old(table))[peer])
        } else {
            None
        }),
{
    table.inner.insert(peer, connection)
}

/// Calls `HashMap::remove`: afterwards the key has no value, and the other keys are as
/// before. Returns the value that the key had, if it had one.
#[verifier::external_body]
pub(crate) fn table_remove(table: &mut PeerTable, peer: PeerId) -> (removed: Option<Connection>)
    ensures
        connections_of(*final(table)) == connections_of(*old(table)).remove(peer),
        removed == (if connections_of(*old(table)).contains_key(peer) {
            Some(connections_of(*old(table))[peer])
        } else {
            None
        }),
{
    table.inner.remove(&peer)
}

} // verus!
