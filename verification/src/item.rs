//! Item stacks, and the questions the game asks of them.
use vstd::prelude::*;
use crate::nbt::{Compound, Value, ValueModel, compound_eq, lookup, nbt_equal_spec, nbt_equals};

verus! {

/// The kind of an item.
#[derive(Debug, Clone, Copy, PartialEq, Eq, Structural)]
pub enum ItemKind {
    Air,
    FilledMap,
    /// Any other kind, by its registry number.
    Other(u16),
}

/// A stack of items, possibly carrying tagged data.
#[derive(Debug)]
pub struct ItemStack {
    pub item: ItemKind,
    pub count: i8,
    pub nbt: Option<Compound>,
}

/// The content of an [`ItemStack`].
pub struct ItemStackModel {
    pub item: ItemKind,
    pub count: i8,
    pub nbt: Option<Seq<(Seq<char>, ValueModel)>>,
}

impl View for ItemStack {
    type V = ItemStackModel;

    open spec fn view(&self) -> ItemStackModel {
        ItemStackModel {
            item: self.item,
            count: self.count,
            nbt: match self.nbt {
                Some(c) => Some(c@),
                None => None,
            },
        }
    }
}

/// The tagged data of `stack` holds under `tag` a value equal to `val`.
pub open spec fn has_tag_with_spec(stack: ItemStackModel, tag: Seq<char>, val: ValueModel) -> bool {
    match stack.nbt {
        Some(c) => match lookup(c, tag) {
            Some(v) => nbt_equal_spec(v, val),
            None => false,
        },
        None => false,
    }
}

/// Two stacks are of the same kind and carry the same tagged data.
pub open spec fn compare_spec(a: ItemStackModel, b: ItemStackModel) -> bool {
    a.item == b.item && match (a.nbt, b.nbt) {
        (None, None) => true,
        (Some(l), Some(r)) => compound_eq(l, r),
        _ => false,
    }
}

impl ItemStack {
    /// A stack of `count` items of `item` carrying `nbt`.
    pub fn new(item: ItemKind, count: i8, nbt: Option<Compound>) -> (res: ItemStack)
        ensures
            res.item == item,
            res.count == count,
            res.nbt == nbt,
    {
        ItemStack { item, count, nbt }
    }

    /// A deep copy of this stack.
    pub fn duplicate(&self) -> (res: ItemStack)
        ensures
            res@ == self@,
    {
        let nbt = match &self.nbt {
            Some(c) => Some(c.duplicate()),
            None => None,
        };
        ItemStack { item: self.item, count: self.count, nbt }
    }
}

/// Questions asked of an item stack.
pub trait ItemStackExt {
    fn has_tag_with(&self, tag: &str, val: &Value) -> bool;

    fn is_kind(&self, kind: ItemKind) -> bool;

    fn compare(&self, other: ItemStack) -> bool;
}

impl ItemStackExt for ItemStack {
    /// Whether the stack's tagged data holds under `tag` a value equal to `val`.
    fn has_tag_with(&self, tag: &str, val: &Value) -> (res: bool)
        ensures
            res == has_tag_with_spec(self@, tag@, val@),
    {
        match &self.nbt {
            Some(data) => match data.get(tag) {
                Some(v) => nbt_equals(v, val),
                None => false,
            },
            None => false,
        }
    }

    /// Whether the stack holds items of `kind`.
    fn is_kind(&self, kind: ItemKind) -> (res: bool)
        ensures
            res == (self.item == kind),
    {
        self.item == kind
    }

    /// Whether both stacks are of the same kind and carry the same tagged data.
    fn compare(&self, other: ItemStack) -> (res: bool)
        ensures
            res == compare_spec(self@, other@),
    {
        if self.item != other.item {
            return false;
        }
        match (&self.nbt, &other.nbt) {
            (None, None) => true,
            (Some(l), Some(r)) => crate::nbt::same_compound_entries(l, r),
            _ => false,
        }
    }
}

} // verus!
