//! Whether a player is looking at a session.
use vstd::prelude::*;
use crate::inventory::{HOTBAR_SIZE, Inventory, InventoryExt, hotbar_index};
use crate::item::{ItemKind, ItemStackExt, ItemStackModel, has_tag_with_spec};
use crate::nbt::{NbtValue, ValueModel};
use crate::session::map_key;

verus! {

/// The stack `stack` is a map item showing session `session_id`.
pub open spec fn shows_session(stack: ItemStackModel, session_id: i32) -> bool {
    stack.item == ItemKind::FilledMap && has_tag_with_spec(stack, map_key(), ValueModel::Int(session_id))
}

/// Whether the player holds, at hotbar position `selected`, a map item showing
/// session `session_id`.
pub fn should_be_active(session_id: i32, inventory: &Inventory, selected: u8) -> (res: bool)
    requires
        inventory@.len() >= HOTBAR_SIZE + 1,
        hotbar_index(inventory@.len() as int, selected as int) < inventory@.len(),
    ensures
        res == shows_session(
            inventory@[hotbar_index(inventory@.len() as int, selected as int)],
            session_id,
        ),
{
    let stack = inventory.hotbar_slot(selected);
    let tag = "map";
    proof {
        reveal_strlit("map");
    }
    assert(tag@ == map_key());
    let value = NbtValue::from(session_id);
    assert(value.0@ == ValueModel::Int(session_id));
    stack.is_kind(ItemKind::FilledMap) && stack.has_tag_with(tag, &value.0)
}

/// A map item made for session `id` shows session `id`, and no other session.
pub proof fn law_map_view_shows_its_session(id: i32, other: i32)
    ensures
        shows_session(crate::session::map_view_spec(id), id),
        other != id ==> !shows_session(crate::session::map_view_spec(id), other),
{
    let tag = crate::session::map_tag_spec(id);
    assert(crate::nbt::lookup(tag, map_key()) == Some(ValueModel::Int(id)));
}

/// A map item bound to session `id` shows session `id`, whatever it showed before.
pub proof fn law_bound_map_shows_session(stack: ItemStackModel, id: i32)
    requires
        stack.item == ItemKind::FilledMap,
    ensures
        shows_session(ItemStackModel { nbt: Some(crate::session::map_tag_spec(id)), ..stack }, id),
{
    let tag = crate::session::map_tag_spec(id);
    assert(crate::nbt::lookup(tag, map_key()) == Some(ValueModel::Int(id)));
}

} // verus!
