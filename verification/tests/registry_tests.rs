use doom_server::directory::DoomSessionDirectory;
use doom_server::inventory::Inventory;
use doom_server::item::{ItemKind, ItemStack, ItemStackExt};
use doom_server::lobby::{cleanup_disconnected_clients, give_spectator_map, init_client_session, player_index, start_admitted_session, MAP_SLOT};
use doom_server::nbt::Value;
use doom_server::protocol::ServerCommand;
use doom_server::registry::DoomSessionRegistry;

fn player_inventory() -> Inventory {
    let mut slots = Vec::new();
    for _ in 0..46 {
        slots.push(ItemStack::new(ItemKind::Air, 0, None));
    }
    Inventory::new(slots)
}

#[test]
fn ids_count_down_from_minus_one() {
    let mut r = DoomSessionRegistry::default();
    assert_eq!(r.create_id(), -1);
    assert_eq!(r.create_id(), -2);
    assert_eq!(r.create_id(), -3);
}

#[test]
fn freed_id_is_reused() {
    let mut r = DoomSessionRegistry::default();
    let a = r.create_id();
    let b = r.create_id();
    let c = r.create_id();
    assert_eq!((a, b, c), (-1, -2, -3));
    r.free_id(-2);
    assert_eq!(r.create_id(), -2);
    assert_eq!(r.create_id(), -4);
}

#[test]
fn freed_ids_reused_greatest_first() {
    let mut r = DoomSessionRegistry::default();
    for _ in 0..4 {
        r.create_id();
    }
    r.free_id(-3);
    r.free_id(-1);
    r.free_id(-4);
    assert_eq!(r.create_id(), -1);
    assert_eq!(r.create_id(), -3);
    assert_eq!(r.create_id(), -4);
    assert_eq!(r.create_id(), -5);
}

#[test]
fn freeing_unknown_id_is_ignored() {
    let mut r = DoomSessionRegistry::default();
    r.free_id(-1);
    r.free_id(7);
    assert_eq!(r.create_id(), -1);
    r.free_id(-1);
    r.free_id(-1);
    assert_eq!(r.create_id(), -1);
    assert_eq!(r.create_id(), -2);
}

#[test]
fn create_session_binds_map() {
    let mut r = DoomSessionRegistry::default();
    let (session, map) = r.create_session();
    assert_eq!(session.id(), -1);
    assert!(!session.is_active());
    assert_eq!(map.item, ItemKind::FilledMap);
    assert_eq!(map.count, 1);
    assert!(map.has_tag_with("map", &Value::Int(-1)));
}

#[test]
fn create_session_with_map_rebinds() {
    let mut r = DoomSessionRegistry::default();
    let mut map = ItemStack::new(ItemKind::FilledMap, 1, None);
    let s = r.create_session_with_map(&mut map);
    assert_eq!(s.id(), -1);
    assert!(map.has_tag_with("map", &Value::Int(-1)));
}

#[test]
fn destroy_session_frees_id() {
    let mut r = DoomSessionRegistry::default();
    let (s1, _) = r.create_session();
    let (_s2, _) = r.create_session();
    r.destroy_session(s1);
    assert_eq!(r.create_id(), -1);
}

#[test]
fn replace_session_keeps_id() {
    let mut r = DoomSessionRegistry::default();
    let s = r.replace_session(-6);
    assert_eq!(s.id(), -6);
    assert_eq!(r.create_id(), -1);
}

#[test]
fn create_map_view_always_some() {
    let mut r = DoomSessionRegistry::default();
    let m = r.create_map_view(-42).unwrap();
    assert!(m.has_tag_with("map", &Value::Int(-42)));
}

#[test]
fn random_map_view_none_without_sessions() {
    let mut r = DoomSessionRegistry::default();
    assert!(r.create_random_map_view().is_none());
}

#[test]
fn random_map_view_picks_the_only_session() {
    let mut r = DoomSessionRegistry::default();
    r.create_id();
    r.create_id();
    r.free_id(-1);
    for _ in 0..20 {
        let m = r.create_random_map_view().unwrap();
        assert!(m.has_tag_with("map", &Value::Int(-2)));
    }
}

#[test]
fn random_map_view_picks_a_session_in_use() {
    let mut r = DoomSessionRegistry::default();
    for _ in 0..5 {
        r.create_id();
    }
    r.free_id(-3);
    for _ in 0..50 {
        let m = r.create_random_map_view().unwrap();
        let shown: Vec<i32> = [-1, -2, -3, -4, -5].into_iter().filter(|id| m.has_tag_with("map", &Value::Int(*id))).collect();
        assert_eq!(shown.len(), 1);
        assert_ne!(shown[0], -3);
    }
}

#[test]
fn in_use_ids_lists_each_session_once() {
    let mut r = DoomSessionRegistry::default();
    for _ in 0..4 {
        r.create_id();
    }
    r.free_id(-2);
    let mut ids = r.in_use_ids();
    ids.sort();
    assert_eq!(ids, vec![-4, -3, -1]);
    assert!(DoomSessionRegistry::default().in_use_ids().is_empty());
}

#[test]
fn map_view_for_draw_shows_the_drawn_id() {
    let ids = vec![-7, -8, -9];
    assert!(DoomSessionRegistry::map_view_for_draw(&ids, None).is_none());
    let m = DoomSessionRegistry::map_view_for_draw(&ids, Some(1)).unwrap();
    assert!(m.has_tag_with("map", &Value::Int(-8)));
    assert!(m.is_kind(ItemKind::FilledMap));
}

#[test]
fn random_map_view_reaches_every_session() {
    let mut r = DoomSessionRegistry::default();
    for _ in 0..4 {
        r.create_id();
    }
    let mut seen = [false; 4];
    for _ in 0..400 {
        let m = r.create_random_map_view().unwrap();
        for k in 0..4 {
            if m.has_tag_with("map", &Value::Int(-(k as i32) - 1)) {
                seen[k] = true;
            }
        }
    }
    assert_eq!(seen, [true; 4]);
}

#[test]
fn directory_insert_and_lookup() {
    let mut d = DoomSessionDirectory::default();
    d.insert(10, -1);
    d.insert(11, -2);
    assert_eq!(d.owner_of(-1), Some(10));
    assert_eq!(d.id_of(11), Some(-2));
    assert_eq!(d.id_of(12), None);
    assert_eq!(d.owner_of(-3), None);
}

#[test]
fn directory_remove_by_owner() {
    let mut d = DoomSessionDirectory::default();
    d.insert(10, -1);
    assert_eq!(d.remove_by_owner(10), Some(-1));
    assert_eq!(d.id_of(10), None);
    assert_eq!(d.owner_of(-1), None);
    assert_eq!(d.remove_by_owner(10), None);
}

#[test]
fn player_index_counts_from_zero() {
    assert_eq!(player_index(-1), 0);
    assert_eq!(player_index(-4), 3);
    assert_eq!(player_index(3), 2);
}

#[test]
fn init_client_session_records_everything() {
    let mut r = DoomSessionRegistry::default();
    let mut d = DoomSessionDirectory::default();
    let mut inv = player_inventory();
    let (s, join) = init_client_session(&mut r, &mut d, &mut inv, 77);
    assert_eq!(s.id(), -1);
    assert_eq!(join, ServerCommand::NetJoin { id: 0 });
    assert_eq!(d.id_of(77), Some(-1));
    assert_eq!(d.owner_of(-1), Some(77));
    assert!(inv.slot(MAP_SLOT).has_tag_with("map", &Value::Int(-1)));
    let (s2, join2) = init_client_session(&mut r, &mut d, &mut inv, 78);
    assert_eq!(s2.id(), -2);
    assert_eq!(join2, ServerCommand::NetJoin { id: 1 });
}

#[test]
fn spectator_map_only_with_sessions() {
    let mut r = DoomSessionRegistry::default();
    let mut inv = player_inventory();
    assert!(!give_spectator_map(&mut r, &mut inv));
    assert_eq!(inv.slot(MAP_SLOT).item, ItemKind::Air);
    r.create_id();
    assert!(give_spectator_map(&mut r, &mut inv));
    assert!(inv.slot(MAP_SLOT).has_tag_with("map", &Value::Int(-1)));
}

#[test]
fn admitted_player_gets_session() {
    let mut r = DoomSessionRegistry::default();
    let mut inv = player_inventory();
    let s = start_admitted_session(&mut r, &mut inv);
    assert_eq!(s.id(), -1);
    assert!(inv.slot(MAP_SLOT).has_tag_with("map", &Value::Int(-1)));
}

#[test]
fn cleanup_frees_ids_of_leavers() {
    let mut r = DoomSessionRegistry::default();
    for _ in 0..3 {
        r.create_id();
    }
    cleanup_disconnected_clients(&mut r, &vec![-1, -3, -9]);
    assert_eq!(r.create_id(), -1);
    assert_eq!(r.create_id(), -3);
    assert_eq!(r.create_id(), -4);
}
