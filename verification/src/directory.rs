//! Which player owns which session.
use vstd::prelude::*;
use std::collections::HashMap;

verus! {

broadcast use vstd::std_specs::hash::group_hash_axioms;

/// A player entity, by the bits of its entity handle.
pub type Entity = u64;

/// Keeps track of player-session-player mappings.
#[derive(Debug)]
pub struct DoomSessionDirectory {
    pub owner_by_id: HashMap<i32, Entity>,
    pub id_by_owner: HashMap<Entity, i32>,
}

impl Default for DoomSessionDirectory {
    fn default() -> (res: Self)
        ensures
            res.owner_by_id@ == Map::<i32, Entity>::empty(),
            res.id_by_owner@ == Map::<Entity, i32>::empty(),
    {
        DoomSessionDirectory { owner_by_id: HashMap::new(), id_by_owner: HashMap::new() }
    }
}

impl DoomSessionDirectory {
    /// Records that `owner` owns session `id`.
    pub fn insert(&mut self, owner: Entity, id: i32)
        ensures
            final(self).owner_by_id@ == old(self).owner_by_id@.insert(id, owner),
            final(self).id_by_owner@ == old(self).id_by_owner@.insert(owner, id),
    {
        self.owner_by_id.insert(id, owner);
        self.id_by_owner.insert(owner, id);
    }

    /// Forgets the session of `owner`, and returns its id.
    pub fn remove_by_owner(&mut self, owner: Entity) -> (res: Option<i32>)
        ensures
            match res {
                Some(id) => old(self).id_by_owner@.contains_key(owner)
                    && old(self).id_by_owner@[owner] == id
                    && final(self).id_by_owner@ == old(self).id_by_owner@.remove(owner)
                    && final(self).owner_by_id@ == old(self).owner_by_id@.remove(id),
                None => !old(self).id_by_owner@.contains_key(owner)
                    && final(self).id_by_owner@ == old(self).id_by_owner@
                    && final(self).owner_by_id@ == old(self).owner_by_id@,
            },
    {
        let id: i32 = match self.id_by_owner.remove(&owner) {
            Some(id) => id,
            None => {
                assert(self.id_by_owner@ =~= old(self).id_by_owner@);
                return None;
            },
        };
        self.owner_by_id.remove(&id);
        Some(id)
    }

    /// The owner of session `id`.
    pub fn owner_of(&self, id: i32) -> (res: Option<Entity>)
        ensures
            res == if self.owner_by_id@.contains_key(id) {
                Some(self.owner_by_id@[id])
            } else {
                None::<Entity>
            },
    {
        match self.owner_by_id.get(&id) {
            Some(e) => Some(*e),
            None => None,
        }
    }

    /// The session of `owner`.
    pub fn id_of(&self, owner: Entity) -> (res: Option<i32>)
        ensures
            res == if self.id_by_owner@.contains_key(owner) {
                Some(self.id_by_owner@[owner])
            } else {
                None::<i32>
            },
    {
        match self.id_by_owner.get(&owner) {
            Some(i) => Some(*i),
            None => None,
        }
    }
}

/// After `owner` is recorded as owning session `id`, each is found from the other.
pub proof fn law_insert_then_lookup(
    owner_by_id: Map<i32, Entity>,
    id_by_owner: Map<Entity, i32>,
    owner: Entity,
    id: i32,
)
    ensures
        owner_by_id.insert(id, owner).contains_key(id),
        owner_by_id.insert(id, owner)[id] == owner,
        id_by_owner.insert(owner, id).contains_key(owner),
        id_by_owner.insert(owner, id)[owner] == id,
{
}

/// After the session of `owner` is forgotten, `owner` has no session, and the forgotten
/// id has no owner.
pub proof fn law_remove_then_lookup(
    owner_by_id: Map<i32, Entity>,
    id_by_owner: Map<Entity, i32>,
    owner: Entity,
)
    requires
        id_by_owner.contains_key(owner),
    ensures
        !id_by_owner.remove(owner).contains_key(owner),
        !owner_by_id.remove(id_by_owner[owner]).contains_key(id_by_owner[owner]),
{
}

} // verus!
