//! Translation between the entity references of the two ends of a connection.

use vstd::prelude::*;
use std::collections::HashMap;
use crate::types::Entity;

verus! {

broadcast use vstd::std_specs::hash::group_hash_axioms;

/// What a reference becomes under `m`: its image where `m` knows it, itself otherwise.
pub open spec fn remap(m: Map<Entity, Entity>, e: Entity) -> Entity {
    if m.contains_key(e) {
        m[e]
    } else {
        e
    }
}

/// `remap` applied to each reference of a list.
pub open spec fn remap_all(m: Map<Entity, Entity>, s: Seq<Entity>) -> Seq<Entity> {
    Seq::new(s.len(), |i: int| remap(m, s[i]))
}

/// Pairs of references to one entity: the name the remote end uses, and the local one.
pub struct EntityMap {
    remote_to_local: HashMap<Entity, Entity>,
    local_to_remote: HashMap<Entity, Entity>,
}

impl EntityMap {
    /// From remote references to local ones.
    pub closed spec fn to_local(&self) -> Map<Entity, Entity> {
        self.remote_to_local@
    }

    /// From local references to remote ones.
    pub closed spec fn to_remote(&self) -> Map<Entity, Entity> {
        self.local_to_remote@
    }

    /// A map that knows no entity.
    pub fn new() -> (r: Self)
        ensures
            r.to_local() == Map::<Entity, Entity>::empty(),
            r.to_remote() == Map::<Entity, Entity>::empty(),
    {
        EntityMap { remote_to_local: HashMap::new(), local_to_remote: HashMap::new() }
    }

    /// Records that the remote end's `remote` is `local` here.
    pub fn insert(&mut self, remote: Entity, local: Entity)
        ensures
            final(self).to_local() == old(self).to_local().insert(remote, local),
            final(self).to_remote() == old(self).to_remote().insert(local, remote),
    {
        self.remote_to_local.insert(remote, local);
        self.local_to_remote.insert(local, remote);
    }

    /// The local reference for the remote end's `remote`, if known.
    pub fn get_local(&self, remote: Entity) -> (r: Option<Entity>)
        ensures
            r == (if self.to_local().contains_key(remote) {
                Some(self.to_local()[remote])
            } else {
                None
            }),
    {
        match self.remote_to_local.get(&remote) {
            Some(e) => Some(*e),
            None => None,
        }
    }

    /// The remote end's reference for the local `local`, if known.
    pub fn get_remote(&self, local: Entity) -> (r: Option<Entity>)
        ensures
            r == (if self.to_remote().contains_key(local) {
                Some(self.to_remote()[local])
            } else {
                None
            }),
    {
        match self.local_to_remote.get(&local) {
            Some(e) => Some(*e),
            None => None,
        }
    }

    /// Rewrites each remote reference of `entities` that is known into its local one.
    pub fn map_entities(&self, entities: &mut Vec<Entity>)
        ensures
            final(entities)@ == remap_all(self.to_local(), old(entities)@),
    {
        let n = entities.len();
        let mut i: usize = 0;
        while i < n
            invariant
                i <= n,
                entities@.len() == n,
                old(entities)@.len() == n,
                forall|j: int| 0 <= j < i ==> entities@[j] == remap(self.to_local(), old(entities)@[j]),
                forall|j: int| i <= j < n ==> entities@[j] == old(entities)@[j],
            decreases n - i,
        {
            let e = entities[i];
            if let Some(local) = self.get_local(e) {
                entities[i] = local;
            }
            i += 1;
        }
        assert(entities@ =~= remap_all(self.to_local(), old(entities)@));
    }
}

} // verus!
