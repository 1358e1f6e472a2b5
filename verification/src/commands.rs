//! The watch and unwatch commands: looking at another player's session, or back at one's own.
use vstd::prelude::*;
use crate::directory::{DoomSessionDirectory, Entity};
use crate::inventory::{Inventory, InventoryExt, first_of_kind};
use crate::item::{ItemKind, ItemStack};
use crate::registry::DoomSessionRegistry;
use crate::session::map_view_spec;

verus! {

/// What a watch command did.
#[derive(Debug, Clone, Copy, PartialEq, Eq, Structural)]
pub enum WatchOutcome {
    /// The target owns no session.
    NoSession,
    /// The first map item now shows the target's session, which has this id.
    Viewing(i32),
    /// No map item could be made for the target's session.
    Failed,
}

/// The inventory after the first map item in `before` is swapped for a map showing
/// session `id`; unchanged when there is no map item.
pub open spec fn rebound(
    before: Seq<crate::item::ItemStackModel>,
    after: Seq<crate::item::ItemStackModel>,
    id: i32,
) -> bool {
    if exists|j: int| 0 <= j < before.len() && before[j].item == ItemKind::FilledMap {
        exists|idx: int|
            first_of_kind(before, ItemKind::FilledMap, idx) && after == before.update(
                idx,
                map_view_spec(id),
            )
    } else {
        after == before
    }
}

/// Swaps the first map item for one showing session `id`.
fn show_session(inventory: &mut Inventory, map: ItemStack, id: i32)
    requires
        map@ == map_view_spec(id),
    ensures
        rebound(old(inventory)@, final(inventory)@, id),
{
    let filled = |stack: &ItemStack| -> (r: bool)
        ensures
            r == (stack.item == ItemKind::FilledMap),
        { stack.item == ItemKind::FilledMap };
    let ghost before = inventory@;
    let ghost stacks = inventory.stacks();
    match inventory.swap_first(filled, map) {
        Ok(_) => {
            proof {
                let idx = choose|idx: int|
                    crate::inventory::first_match(filled, stacks, idx) && inventory@ == before.update(
                        idx,
                        map_view_spec(id),
                    );
                assert(first_of_kind(before, ItemKind::FilledMap, idx));
            }
        },
        Err(_) => {
            proof {
                assert forall|j: int| 0 <= j < before.len() implies before[j].item != ItemKind::FilledMap by {
                    assert(filled.ensures((&stacks[j],), false));
                }
            }
        },
    }
}

/// Makes the first map item of the sender show the session of `target`.
pub fn watch_session(
    directory: &DoomSessionDirectory,
    registry: &mut DoomSessionRegistry,
    inventory: &mut Inventory,
    target: Entity,
) -> (res: WatchOutcome)
    ensures
        *final(registry) == *old(registry),
        !directory.id_by_owner@.contains_key(target) ==> res == WatchOutcome::NoSession
            && final(inventory)@ == old(inventory)@,
        directory.id_by_owner@.contains_key(target) ==> res == WatchOutcome::Viewing(
            directory.id_by_owner@[target],
        ) && rebound(old(inventory)@, final(inventory)@, directory.id_by_owner@[target]),
{
    let session_id: i32 = match directory.id_of(target) {
        Some(id) => id,
        None => {
            return WatchOutcome::NoSession;
        },
    };
    match registry.create_map_view(session_id) {
        Some(map) => {
            show_session(inventory, map, session_id);
            WatchOutcome::Viewing(session_id)
        },
        None => WatchOutcome::Failed,
    }
}

/// Makes the first map item of `executor` show the executor's own session again.
/// Returns whether the executor owns a session.
pub fn unwatch_session(
    directory: &DoomSessionDirectory,
    registry: &mut DoomSessionRegistry,
    inventory: &mut Inventory,
    executor: Entity,
) -> (res: bool)
    ensures
        *final(registry) == *old(registry),
        res == directory.id_by_owner@.contains_key(executor),
        !res ==> final(inventory)@ == old(inventory)@,
        res ==> rebound(old(inventory)@, final(inventory)@, directory.id_by_owner@[executor]),
{
    let session_id: i32 = match directory.id_of(executor) {
        Some(id) => id,
        None => {
            return false;
        },
    };
    if let Some(map) = registry.create_map_view(session_id) {
        show_session(inventory, map, session_id);
    }
    true
}

} // verus!
