//! What the server does when players join, wait and leave.
use vstd::prelude::*;
use crate::directory::{DoomSessionDirectory, Entity};
use crate::inventory::Inventory;
use crate::protocol::ServerCommand;
use crate::registry::{DoomSessionRegistry, allocation};
use crate::session::{DoomSession, map_view_spec};

verus! {

/// The inventory slot (the off hand) that holds a player's map item.
pub const MAP_SLOT: u16 = 40;

/// The player slot of the game that session `id` plays as: ids count down from -1,
/// slots count up from 0.
pub open spec fn player_index_spec(id: i32) -> int {
    (if id < 0 {
        -id
    } else {
        id as int
    }) - 1
}

/// The player slot of the game that session `id` plays as.
pub fn player_index(id: i32) -> (res: i32)
    requires
        id > i32::MIN,
    ensures
        res == player_index_spec(id),
{
    (if id < 0 {
        -id
    } else {
        id
    }) - 1
}

/// A joining player gets a session of their own: a fresh id, recorded as theirs, a
/// map item showing it in the map slot, and the session's own player added to its game.
/// Returns the session and the command that adds its player, which also goes to every
/// other session.
pub fn init_client_session(
    registry: &mut DoomSessionRegistry,
    directory: &mut DoomSessionDirectory,
    inventory: &mut Inventory,
    player: Entity,
) -> (res: (DoomSession, ServerCommand))
    requires
        old(registry).wf(),
        old(registry).free_set() != Set::<i32>::empty() || old(registry).next_id_spec() > i32::MIN,
        old(inventory)@.len() > MAP_SLOT,
    ensures
        final(registry).wf(),
        res.0.wf(),
        res.0.id_spec() == allocation(old(registry).free_set(), old(registry).next_id_spec()),
        !res.0.active_spec(),
        final(registry).in_use_set() == old(registry).in_use_set().insert(res.0.id_spec()),
        final(directory).id_by_owner@ == old(directory).id_by_owner@.insert(player, res.0.id_spec()),
        final(directory).owner_by_id@ == old(directory).owner_by_id@.insert(res.0.id_spec(), player),
        final(inventory)@ == old(inventory)@.update(MAP_SLOT as int, map_view_spec(res.0.id_spec())),
        res.1 == (ServerCommand::NetJoin { id: player_index_spec(res.0.id_spec()) as i32 }),
{
    let (session, map) = registry.create_session();
    let id: i32 = session.id();
    let join = session.add_player(player_index(id));
    directory.insert(player, id);
    inventory.set_slot(MAP_SLOT, map);
    (session, join)
}

/// A player who starts waiting gets a map showing some running session in the map
/// slot. Returns whether there was a session to show.
pub fn give_spectator_map(registry: &mut DoomSessionRegistry, inventory: &mut Inventory) -> (res:
    bool)
    requires
        old(inventory)@.len() > MAP_SLOT,
    ensures
        *final(registry) == *old(registry),
        res == (old(registry).in_use_set() != Set::<i32>::empty()),
        !res ==> final(inventory)@ == old(inventory)@,
        res ==> exists|id: i32|
            old(registry).in_use_set().contains(id) && final(inventory)@ == old(inventory)@.update(
                MAP_SLOT as int,
                map_view_spec(id),
            ),
{
    match registry.create_random_map_view() {
        Some(map) => {
            inventory.set_slot(MAP_SLOT, map);
            true
        },
        None => false,
    }
}

/// An admitted player gets a session of their own and a map item showing it in the
/// map slot.
pub fn start_admitted_session(registry: &mut DoomSessionRegistry, inventory: &mut Inventory) -> (res:
    DoomSession)
    requires
        old(registry).wf(),
        old(registry).free_set() != Set::<i32>::empty() || old(registry).next_id_spec() > i32::MIN,
        old(inventory)@.len() > MAP_SLOT,
    ensures
        final(registry).wf(),
        res.wf(),
        res.id_spec() == allocation(old(registry).free_set(), old(registry).next_id_spec()),
        !res.active_spec(),
        final(registry).in_use_set() == old(registry).in_use_set().insert(res.id_spec()),
        final(inventory)@ == old(inventory)@.update(MAP_SLOT as int, map_view_spec(res.id_spec())),
{
    let (session, map) = registry.create_session();
    inventory.set_slot(MAP_SLOT, map);
    session
}

/// Takes back the ids of the sessions of players who left.
pub fn cleanup_disconnected_clients(registry: &mut DoomSessionRegistry, ids: &Vec<i32>)
    requires
        old(registry).wf(),
    ensures
        final(registry).wf(),
        final(registry).next_id_spec() == old(registry).next_id_spec(),
        final(registry).in_use_set() == old(registry).in_use_set().difference(ids@.to_set()),
        final(registry).free_set() == old(registry).free_set().union(
            old(registry).in_use_set().intersect(ids@.to_set()),
        ),
{
    let mut i: usize = 0;
    while i < ids.len()
        invariant
            i <= ids.len(),
            registry.wf(),
            registry.next_id_spec() == old(registry).next_id_spec(),
            registry.in_use_set() == old(registry).in_use_set().difference(ids@.take(i as int).to_set()),
            registry.free_set() == old(registry).free_set().union(
                old(registry).in_use_set().intersect(ids@.take(i as int).to_set()),
            ),
        decreases ids.len() - i,
    {
        let ghost prefix = ids@.take(i as int).to_set();
        let ghost next = ids@.take(i + 1).to_set();
        proof {
            assert(ids@.take(i + 1) =~= ids@.take(i as int).push(ids@[i as int]));
            assert forall|x: i32| next.contains(x) <==> prefix.contains(x) || x == ids@[i as int] by {
                let a = ids@.take(i + 1);
                let b = ids@.take(i as int);
                if a.contains(x) {
                    let j = choose|j: int| 0 <= j < a.len() && a[j] == x;
                    if j < i {
                        assert(b[j] == x);
                    }
                }
                if b.contains(x) {
                    let j = choose|j: int| 0 <= j < b.len() && b[j] == x;
                    assert(a[j] == x);
                }
                if x == ids@[i as int] {
                    assert(a[i as int] == x);
                }
            }
        }
        registry.free_id(ids[i]);
        proof {
            assert(registry.in_use_set() =~= old(registry).in_use_set().difference(next));
            assert(registry.free_set() =~= old(registry).free_set().union(
                old(registry).in_use_set().intersect(next),
            ));
        }
        i = i + 1;
    }
    assert(ids@.take(ids.len() as int) =~= ids@);
}

} // verus!
