//! Which players see a session's frames, and which item a player holds.
use vstd::prelude::*;
use crate::inventory::{HOTBAR_SIZE, Inventory, InventoryExt, hotbar_index};
use crate::item::ItemStack;
use crate::session::DoomSession;
use crate::util::{should_be_active, shows_session};

verus! {

/// The hotbar position a player has selected.
#[derive(Debug, Clone, Copy, PartialEq, Eq, Structural)]
pub struct SelectedHotbarSlot(pub u8);

impl Default for SelectedHotbarSlot {
    fn default() -> (res: Self)
        ensures
            res.0 == 0,
    {
        SelectedHotbarSlot(0)
    }
}

/// The player's hotbar selection is one the inventory has a slot for.
pub open spec fn selection_ok(inventory: &Inventory, selected: u8) -> bool {
    &&& inventory@.len() >= HOTBAR_SIZE + 1
    &&& hotbar_index(inventory@.len() as int, selected as int) < inventory@.len()
}

/// The player with this inventory and selection holds a map showing session `id`.
pub open spec fn views(inventory: &Inventory, selected: u8, id: i32) -> bool {
    shows_session(inventory@[hotbar_index(inventory@.len() as int, selected as int)], id)
}

/// The players among the first `n` of `clients` who view session `id`, by index.
pub open spec fn viewers_spec(clients: Seq<(&Inventory, u8)>, id: i32, n: int) -> Seq<usize>
    decreases n,
{
    if n <= 0 {
        Seq::empty()
    } else if views(clients[n - 1].0, clients[n - 1].1, id) {
        viewers_spec(clients, id, n - 1).push((n - 1) as usize)
    } else {
        viewers_spec(clients, id, n - 1)
    }
}

proof fn lemma_viewers(clients: Seq<(&Inventory, u8)>, id: i32, n: int, k: usize)
    requires
        0 <= n <= clients.len(),
        clients.len() <= usize::MAX + 1,
    ensures
        viewers_spec(clients, id, n).contains(k) <==> (k < n && views(
            clients[k as int].0,
            clients[k as int].1,
            id,
        )),
    decreases n,
{
    broadcast use vstd::seq_lib::lemma_seq_contains_after_push;

    if n > 0 {
        lemma_viewers(clients, id, n - 1, k);
    } else {
        assert(!Seq::<usize>::empty().contains(k));
    }
}

proof fn lemma_viewers_increasing(clients: Seq<(&Inventory, u8)>, id: i32, n: int)
    requires
        0 <= n <= clients.len(),
        clients.len() <= usize::MAX + 1,
    ensures
        forall|a: int| 0 <= a < viewers_spec(clients, id, n).len() ==> #[trigger] viewers_spec(clients, id, n)[a] < n,
        forall|a: int, b: int|
            0 <= a < b < viewers_spec(clients, id, n).len() ==> #[trigger] viewers_spec(clients, id, n)[a]
                < #[trigger] viewers_spec(clients, id, n)[b],
    decreases n,
{
    if n > 0 {
        lemma_viewers_increasing(clients, id, n - 1);
        let prev = viewers_spec(clients, id, n - 1);
        let cur = viewers_spec(clients, id, n);
        if views(clients[n - 1].0, clients[n - 1].1, id) {
            assert(cur == prev.push((n - 1) as usize));
            assert(cur[prev.len() as int] == n - 1);
            assert forall|a: int| 0 <= a < prev.len() implies cur[a] == prev[a] by {}
        }
    }
}

/// A frame goes to every player who holds, at the selected hotbar position, a map
/// showing the session, and to no one else: index `k` is among the viewers exactly
/// when client `k` holds such a map. The viewers come in client order, each once.
pub proof fn law_viewers_exact(clients: Seq<(&Inventory, u8)>, id: i32, k: usize)
    requires
        clients.len() <= usize::MAX + 1,
    ensures
        viewers_spec(clients, id, clients.len() as int).contains(k) <==> (k < clients.len()
            && views(clients[k as int].0, clients[k as int].1, id)),
        forall|a: int, b: int|
            0 <= a < b < viewers_spec(clients, id, clients.len() as int).len() ==> #[trigger] viewers_spec(
                clients,
                id,
                clients.len() as int,
            )[a] < #[trigger] viewers_spec(clients, id, clients.len() as int)[b],
{
    lemma_viewers(clients, id, clients.len() as int, k);
    lemma_viewers_increasing(clients, id, clients.len() as int);
}

/// The players a new frame of `session` goes to: none while the session is paused,
/// else those who hold a map showing it, by index in `clients`.
pub fn frame_recipients(session: &DoomSession, clients: &Vec<(&Inventory, u8)>) -> (res: Vec<usize>)
    requires
        session.active_spec() ==> forall|i: int|
            0 <= i < clients@.len() ==> selection_ok(#[trigger] clients@[i].0, clients@[i].1),
    ensures
        !session.active_spec() ==> res@.len() == 0,
        session.active_spec() ==> res@ == viewers_spec(clients@, session.id_spec(), clients@.len() as int),
        session.active_spec() ==> forall|k: usize|
            #[trigger] res@.contains(k) <==> (k < clients@.len() && views(
                clients@[k as int].0,
                clients@[k as int].1,
                session.id_spec(),
            )),
{
    let mut out: Vec<usize> = Vec::new();
    if !session.is_active() {
        return out;
    }
    let id: i32 = session.id();
    let mut i: usize = 0;
    while i < clients.len()
        invariant
            i <= clients.len(),
            id == session.id_spec(),
            forall|j: int| 0 <= j < clients@.len() ==> selection_ok(#[trigger] clients@[j].0, clients@[j].1),
            out@ == viewers_spec(clients@, id, i as int),
        decreases clients.len() - i,
    {
        let (inventory, selected): (&Inventory, u8) = clients[i];
        assert(selection_ok(clients@[i as int].0, clients@[i as int].1));
        if should_be_active(id, inventory, selected) {
            out.push(i);
        }
        i = i + 1;
    }
    assert forall|k: usize|
        #[trigger] out@.contains(k) <==> (k < clients@.len() && views(
            clients@[k as int].0,
            clients@[k as int].1,
            id,
        )) by {
        lemma_viewers(clients@, id, clients@.len() as int, k);
    }
    out
}

/// Selects hotbar position `slot`, and returns a copy of the stack there, which the
/// player then holds in the main hand.
pub fn sync_held_item(inventory: &Inventory, selected: &mut SelectedHotbarSlot, slot: u8) -> (res:
    ItemStack)
    requires
        selection_ok(inventory, slot),
    ensures
        final(selected).0 == slot,
        res@ == inventory@[hotbar_index(inventory@.len() as int, slot as int)],
{
    selected.0 = slot;
    inventory.hotbar_slot(slot).duplicate()
}

} // verus!
