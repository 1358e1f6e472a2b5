use doom_server::inventory::{Inventory, InventoryExt, SwapError};
use doom_server::item::{ItemKind, ItemStack, ItemStackExt};
use doom_server::nbt::{Compound, Value};

fn stack(kind: ItemKind, count: i8) -> ItemStack {
    ItemStack::new(kind, count, None)
}

fn tagged_map(id: i32) -> ItemStack {
    let mut tag = Compound::new();
    tag.insert("map".to_string(), Value::Int(id));
    ItemStack::new(ItemKind::FilledMap, 1, Some(tag))
}

fn player_inventory() -> Inventory {
    let mut slots = Vec::new();
    for _ in 0..46 {
        slots.push(stack(ItemKind::Air, 0));
    }
    Inventory::new(slots)
}

#[test]
fn has_tag_with_finds_equal_value() {
    let map = tagged_map(-1);
    assert!(map.has_tag_with("map", &Value::Int(-1)));
    assert!(!map.has_tag_with("map", &Value::Int(-2)));
    assert!(!map.has_tag_with("other", &Value::Int(-1)));
    assert!(!stack(ItemKind::FilledMap, 1).has_tag_with("map", &Value::Int(-1)));
}

#[test]
fn is_kind_compares_item() {
    assert!(stack(ItemKind::FilledMap, 1).is_kind(ItemKind::FilledMap));
    assert!(!stack(ItemKind::Other(5), 1).is_kind(ItemKind::FilledMap));
}

#[test]
fn compare_checks_kind_and_tags() {
    assert!(tagged_map(-1).compare(tagged_map(-1)));
    assert!(!tagged_map(-1).compare(tagged_map(-2)));
    assert!(!tagged_map(-1).compare(stack(ItemKind::FilledMap, 1)));
    assert!(stack(ItemKind::Air, 3).compare(stack(ItemKind::Air, 0)));
    assert!(!stack(ItemKind::Air, 3).compare(stack(ItemKind::Other(1), 3)));
}

#[test]
fn compare_reads_tags_as_maps_with_numeric_floats() {
    let mut a = Compound::new();
    a.insert("x".to_string(), Value::Int(1));
    a.insert("z".to_string(), Value::Float(0.0f32.to_bits()));
    let mut b = Compound::new();
    b.insert("z".to_string(), Value::Float((-0.0f32).to_bits()));
    b.insert("x".to_string(), Value::Int(1));
    let sa = ItemStack::new(ItemKind::FilledMap, 1, Some(a));
    let sb = ItemStack::new(ItemKind::FilledMap, 1, Some(b));
    assert!(sa.compare(sb));
    let mut n = Compound::new();
    n.insert("f".to_string(), Value::Float(f32::NAN.to_bits()));
    let sn = ItemStack::new(ItemKind::FilledMap, 1, Some(n.duplicate()));
    assert!(!sn.compare(ItemStack::new(ItemKind::FilledMap, 1, Some(n))));
}

#[test]
fn fill_sets_every_slot() {
    let mut inv = player_inventory();
    inv.fill(stack(ItemKind::Other(7), 2));
    for i in 0..inv.slot_count() {
        assert_eq!(inv.slot(i).item, ItemKind::Other(7));
        assert_eq!(inv.slot(i).count, 2);
    }
}

#[test]
fn clear_empties_every_slot() {
    let mut inv = player_inventory();
    inv.set_slot(3, stack(ItemKind::Other(2), 5));
    inv.clear();
    assert_eq!(inv.slot_count(), 46);
    for i in 0..inv.slot_count() {
        assert_eq!(inv.slot(i).item, ItemKind::Air);
        assert_eq!(inv.slot(i).count, 0);
    }
}

#[test]
fn swap_first_replaces_first_match() {
    let mut inv = player_inventory();
    inv.set_slot(5, tagged_map(-1));
    inv.set_slot(9, tagged_map(-2));
    let old = inv.swap_first(|s| s.item == ItemKind::FilledMap, tagged_map(-7)).unwrap();
    assert!(old.has_tag_with("map", &Value::Int(-1)));
    assert!(inv.slot(5).has_tag_with("map", &Value::Int(-7)));
    assert!(inv.slot(9).has_tag_with("map", &Value::Int(-2)));
}

#[test]
fn swap_first_reports_not_found() {
    let mut inv = player_inventory();
    let res = inv.swap_first(|s| s.item == ItemKind::FilledMap, tagged_map(-7));
    assert!(matches!(res, Err(SwapError::NotFound)));
    for i in 0..inv.slot_count() {
        assert_eq!(inv.slot(i).item, ItemKind::Air);
    }
}

#[test]
fn replace_first_uses_kind_of_new_item() {
    let mut inv = player_inventory();
    inv.set_slot(2, stack(ItemKind::Other(4), 1));
    inv.set_slot(8, stack(ItemKind::Other(4), 2));
    assert!(inv.replace_first(stack(ItemKind::Other(4), 9)));
    assert_eq!(inv.slot(2).count, 9);
    assert_eq!(inv.slot(8).count, 2);
    assert!(!inv.replace_first(stack(ItemKind::Other(5), 1)));
}

#[test]
fn find_stacks_of_lists_matches_in_order() {
    let mut inv = player_inventory();
    inv.set_slot(1, stack(ItemKind::Other(4), 1));
    inv.set_slot(30, stack(ItemKind::Other(4), 3));
    inv.set_slot(31, stack(ItemKind::Other(6), 3));
    let found = inv.find_stacks_of(ItemKind::Other(4));
    assert_eq!(found.len(), 2);
    assert_eq!(found[0].count, 1);
    assert_eq!(found[1].count, 3);
    assert_eq!(inv.find_stacks_of(ItemKind::Air).len(), 43);
}

#[test]
fn hotbar_slot_maps_to_last_rows() {
    let mut inv = player_inventory();
    inv.set_slot(36, stack(ItemKind::Other(1), 1));
    inv.set_slot(44, stack(ItemKind::Other(9), 1));
    assert_eq!(inv.hotbar_slot(0).item, ItemKind::Other(1));
    assert_eq!(inv.hotbar_slot(8).item, ItemKind::Other(9));
}
