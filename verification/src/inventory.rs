//! A player's inventory and the operations the game performs on it.
use vstd::prelude::*;
use crate::item::{ItemKind, ItemStack, ItemStackExt, ItemStackModel};

verus! {

/// Number of slots in the hotbar.
pub const HOTBAR_SIZE: u16 = 9;

/// Why an inventory operation found nothing to act on.
#[derive(Debug, Clone, Copy, PartialEq, Eq, Structural)]
pub enum SwapError {
    NotFound,
}

/// The slots of an inventory, in order.
#[derive(Debug)]
pub struct Inventory {
    slots: Vec<ItemStack>,
}

/// The stacks of `slots` that hold items of `kind`, in slot order.
pub open spec fn stacks_of(slots: Seq<ItemStackModel>, kind: ItemKind) -> Seq<ItemStackModel> {
    slots.filter(|s: ItemStackModel| s.item == kind)
}

/// The slot index of hotbar position `idx` in an inventory of `slot_count` slots.
pub open spec fn hotbar_index(slot_count: int, idx: int) -> int {
    idx + (slot_count - HOTBAR_SIZE - 1)
}

impl View for Inventory {
    type V = Seq<ItemStackModel>;

    open spec fn view(&self) -> Seq<ItemStackModel> {
        self.stacks().map_values(|s: ItemStack| s@)
    }
}

impl Inventory {
    /// The stacks in the slots, in order.
    pub closed spec fn stacks(&self) -> Seq<ItemStack> {
        self.slots@
    }

    #[verifier::type_invariant]
    spec fn slot_count_fits(&self) -> bool {
        self.slots.len() <= u16::MAX
    }

    /// An inventory holding `slots`.
    pub fn new(slots: Vec<ItemStack>) -> (res: Inventory)
        requires
            slots.len() <= u16::MAX,
        ensures
            res@ == slots@.map_values(|s: ItemStack| s@),
    {
        Inventory { slots }
    }

    /// The number of slots.
    pub fn slot_count(&self) -> (res: u16)
        ensures
            res == self@.len(),
    {
        proof {
            use_type_invariant(self);
        }
        self.slots.len() as u16
    }

    /// The stack in slot `idx`.
    pub fn slot(&self, idx: u16) -> (res: &ItemStack)
        requires
            idx < self@.len(),
        ensures
            res@ == self@[idx as int],
            *res == self.stacks()[idx as int],
    {
        &self.slots[idx as usize]
    }

    /// Puts `stack` into slot `idx`.
    pub fn set_slot(&mut self, idx: u16, stack: ItemStack)
        requires
            idx < old(self)@.len(),
        ensures
            final(self)@ == old(self)@.update(idx as int, stack@),
            final(self).stacks() == old(self).stacks().update(idx as int, stack),
    {
        proof {
            use_type_invariant(&*self);
        }
        let ghost before = self.slots@;
        let mut taken = Inventory { slots: Vec::new() };
        std::mem::swap(self, &mut taken);
        let Inventory { mut slots } = taken;
        slots.set(idx as usize, stack);
        assert(slots@.map_values(|s: ItemStack| s@) =~= before.map_values(
            |s: ItemStack| s@,
        ).update(idx as int, stack@));
        *self = Inventory { slots };
    }
}

/// Operations the game performs on an inventory.
pub trait InventoryExt: View<V = Seq<ItemStackModel>> {
    fn clear(&mut self);

    fn fill(&mut self, stack: ItemStack);

    /// Swaps the first item stack matching the predicate with a new item.
    ///
    /// # Errors
    ///
    /// Returns `SwapError::NotFound` if no item stack matches the predicate.
    fn swap_first<F>(&mut self, find: F, new_item: ItemStack) -> Result<ItemStack, SwapError> where
        F: Fn(&ItemStack) -> bool,
        requires
            forall|s: &ItemStack| #[trigger] find.requires((s,)),
    ;

    fn replace_first(&mut self, new_item: ItemStack) -> bool;

    fn find_stacks_of(&self, kind: ItemKind) -> Vec<&ItemStack>;

    fn hotbar_slot(&self, idx: u8) -> &ItemStack
        requires
            self@.len() >= HOTBAR_SIZE + 1,
            hotbar_index(self@.len() as int, idx as int) < self@.len(),
    ;
}

/// `idx` is the first slot of `stacks` on which `find` answered `true`.
pub open spec fn first_match<F: Fn(&ItemStack) -> bool>(
    find: F,
    stacks: Seq<ItemStack>,
    idx: int,
) -> bool {
    &&& 0 <= idx < stacks.len()
    &&& find.ensures((&stacks[idx],), true)
    &&& forall|j: int| 0 <= j < idx ==> find.ensures((&stacks[j],), false)
}

/// `idx` is the first slot of `slots` that holds items of `kind`.
pub open spec fn first_of_kind(slots: Seq<ItemStackModel>, kind: ItemKind, idx: int) -> bool {
    &&& 0 <= idx < slots.len()
    &&& slots[idx].item == kind
    &&& forall|j: int| 0 <= j < idx ==> slots[j].item != kind
}

impl InventoryExt for Inventory {
    /// Puts a copy of `stack` into every slot.
    fn fill(&mut self, stack: ItemStack)
        ensures
            final(self)@.len() == old(self)@.len(),
            forall|i: int| 0 <= i < final(self)@.len() ==> #[trigger] final(self)@[i] == stack@,
    {
        let n: u16 = self.slot_count();
        let mut i: u16 = 0;
        while i < n
            invariant
                i <= n,
                n == self@.len(),
                self@.len() == old(self)@.len(),
                forall|j: int| 0 <= j < i ==> #[trigger] self@[j] == stack@,
            decreases n - i,
        {
            self.set_slot(i, stack.duplicate());
            i = i + 1;
        }
    }

    /// Empties every slot.
    fn clear(&mut self)
        ensures
            final(self)@.len() == old(self)@.len(),
            forall|i: int|
                0 <= i < final(self)@.len() ==> #[trigger] final(self)@[i] == (ItemStackModel {
                    item: ItemKind::Air,
                    count: 0,
                    nbt: None,
                }),
    {
        self.fill(ItemStack::new(ItemKind::Air, 0, None));
    }

    /// Puts `new_item` into the first slot whose stack `find` accepts, and returns
    /// the stack that was there.
    fn swap_first<F>(&mut self, find: F, new_item: ItemStack) -> (res: Result<ItemStack, SwapError>) where
        F: Fn(&ItemStack) -> bool,
        ensures
            match res {
                Ok(s) => exists|idx: int|
                    first_match(find, old(self).stacks(), idx) && s@ == old(self)@[idx]
                        && final(self)@ == old(self)@.update(idx, new_item@),
                Err(e) => e == SwapError::NotFound && final(self)@ == old(self)@ && forall|j: int|
                    0 <= j < old(self)@.len() ==> find.ensures((&old(self).stacks()[j],), false),
            },
    {
        let n: u16 = self.slot_count();
        let mut idx: u16 = 0;
        while idx < n
            invariant
                idx <= n,
                n == self@.len(),
                self.stacks() == old(self).stacks(),
                forall|s: &ItemStack| #[trigger] find.requires((s,)),
                forall|j: int| 0 <= j < idx ==> find.ensures((&old(self).stacks()[j],), false),
            decreases n - idx,
        {
            let found = find(self.slot(idx));
            if found {
                let previous = self.slot(idx).duplicate();
                let ghost before = self@;
                assert(before == old(self)@);
                self.set_slot(idx, new_item);
                assert(first_match(find, old(self).stacks(), idx as int));
                assert(previous@ == old(self)@[idx as int]);
                assert(self@ == old(self)@.update(idx as int, new_item@));
                return Ok(previous);
            }
            idx = idx + 1;
        }
        Err(SwapError::NotFound)
    }

    /// Puts `new_item` into the first slot holding items of its kind. Returns whether
    /// there was such a slot.
    fn replace_first(&mut self, new_item: ItemStack) -> (res: bool)
        ensures
            res == exists|j: int| 0 <= j < old(self)@.len() && old(self)@[j].item == new_item.item,
            res ==> exists|idx: int|
                first_of_kind(old(self)@, new_item.item, idx) && final(self)@ == old(self)@.update(
                    idx,
                    new_item@,
                ),
            !res ==> final(self)@ == old(self)@,
    {
        let kind = new_item.item;
        let matches = |stack: &ItemStack| -> (r: bool)
            ensures
                r == (stack.item == kind),
            { stack.item == kind };
        let copy = new_item.duplicate();
        let outcome = self.swap_first(matches, copy);
        match outcome {
            Ok(_) => {
                assert(exists|idx: int| first_of_kind(old(self)@, new_item.item, idx) && final(self)@ == old(self)@.update(idx, new_item@)) by {
                    let idx = choose|idx: int|
                        first_match(matches, old(self).stacks(), idx) && final(self)@ == old(self)@.update(idx, copy@);
                    assert(first_of_kind(old(self)@, new_item.item, idx));
                }
                true
            },
            Err(_) => {
                assert forall|j: int| 0 <= j < old(self)@.len() implies old(self)@[j].item != new_item.item by {
                    assert(matches.ensures((&old(self).stacks()[j],), false));
                }
                false
            },
        }
    }

    /// The stacks that hold items of `kind`, in slot order.
    fn find_stacks_of(&self, kind: ItemKind) -> (res: Vec<&ItemStack>)
        ensures
            res@.map_values(|r: &ItemStack| r@) == stacks_of(self@, kind),
    {
        let mut stacks: Vec<&ItemStack> = Vec::new();
        let n: u16 = self.slot_count();
        let mut idx: u16 = 0;
        while idx < n
            invariant
                idx <= n,
                n == self@.len(),
                stacks@.map_values(|r: &ItemStack| r@) == stacks_of(self@.take(idx as int), kind),
            decreases n - idx,
        {
            let stack = self.slot(idx);
            assert(self@.take(idx + 1).drop_last() =~= self@.take(idx as int));
            proof {
                reveal(Seq::filter);
            }
            if stack.item == kind {
                stacks.push(stack);
            }
            assert(stacks@.map_values(|r: &ItemStack| r@) =~= stacks_of(self@.take(idx + 1), kind));
            idx = idx + 1;
        }
        assert(self@.take(n as int) =~= self@);
        stacks
    }

    /// The stack at hotbar position `idx`.
    fn hotbar_slot(&self, idx: u8) -> (res: &ItemStack)
        ensures
            res@ == self@[hotbar_index(self@.len() as int, idx as int)],
    {
        self.slot(idx as u16 + (self.slot_count() - HOTBAR_SIZE - 1))
    }
}

} // verus!
