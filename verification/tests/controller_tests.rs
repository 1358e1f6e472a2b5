use doom_server::chat::{on_chat_messages, ChatHistory};
use doom_server::commands::{unwatch_session, watch_session, WatchOutcome};
use doom_server::controller::{controller_move, controller_sneak, controller_stop, move_step, strafe_step, update_session_active_from_held_item, AxisReading, ControllerChange, MoveState, StrafeState};
use doom_server::directory::DoomSessionDirectory;
use doom_server::inventory::Inventory;
use doom_server::item::{ItemKind, ItemStack, ItemStackExt};
use doom_server::nbt::Value;
use doom_server::protocol::{Input, ServerCommand};
use doom_server::registry::DoomSessionRegistry;
use doom_server::session::{map_view, DoomSession};
use doom_server::util::should_be_active;
use doom_server::video::{frame_recipients, sync_held_item, SelectedHotbarSlot};

fn reading(v: f64) -> AxisReading {
    if v > 0.03 {
        AxisReading::PositiveStart
    } else if v > 0.015 {
        AxisReading::PositiveKeep
    } else if v < -0.03 {
        AxisReading::NegativeStart
    } else if v < -0.015 {
        AxisReading::NegativeKeep
    } else {
        AxisReading::Within
    }
}

fn player_inventory() -> Inventory {
    let mut slots = Vec::new();
    for _ in 0..46 {
        slots.push(ItemStack::new(ItemKind::Air, 0, None));
    }
    Inventory::new(slots)
}

fn running(id: i32) -> DoomSession {
    let mut s = DoomSession::new(id);
    s.set_active(true);
    s
}

#[test]
fn move_step_has_hysteresis() {
    assert_eq!(move_step(MoveState::Idle, reading(0.02)), (MoveState::Idle, false, false));
    assert_eq!(move_step(MoveState::Idle, reading(0.05)), (MoveState::Forward, true, false));
    assert_eq!(move_step(MoveState::Forward, reading(0.02)), (MoveState::Forward, true, false));
    assert_eq!(move_step(MoveState::Forward, reading(0.01)), (MoveState::Idle, false, false));
    assert_eq!(move_step(MoveState::Back, reading(-0.02)), (MoveState::Back, false, true));
    assert_eq!(move_step(MoveState::Idle, reading(-0.02)), (MoveState::Idle, false, false));
}

#[test]
fn strafe_step_has_hysteresis() {
    assert_eq!(strafe_step(StrafeState::Idle, reading(0.05)), (StrafeState::Right, true, false));
    assert_eq!(strafe_step(StrafeState::Right, reading(0.02)), (StrafeState::Right, true, false));
    assert_eq!(strafe_step(StrafeState::Idle, reading(-0.05)), (StrafeState::Left, false, true));
    assert_eq!(strafe_step(StrafeState::Left, reading(-0.016)), (StrafeState::Left, false, true));
    assert_eq!(strafe_step(StrafeState::Left, reading(0.0)), (StrafeState::Idle, false, false));
}

#[test]
fn controller_move_presses_movement_keys() {
    let mut s = running(-1);
    let (m, st, cmds) = controller_move(&mut s, MoveState::Idle, StrafeState::Idle, reading(0.05), reading(-0.05));
    assert_eq!(m, MoveState::Forward);
    assert_eq!(st, StrafeState::Left);
    assert_eq!(
        cmds,
        vec![ServerCommand::Input { input: Input::Up, pressed: true }, ServerCommand::Input { input: Input::StrafeLeft, pressed: true }]
    );
    let (m2, st2, cmds2) = controller_move(&mut s, m, st, reading(0.0), reading(0.0));
    assert_eq!((m2, st2), (MoveState::Idle, StrafeState::Idle));
    assert_eq!(
        cmds2,
        vec![ServerCommand::Input { input: Input::Up, pressed: false }, ServerCommand::Input { input: Input::StrafeLeft, pressed: false }]
    );
}

#[test]
fn controller_stop_after_ten_idle_ticks() {
    let mut s = running(-1);
    s.set_input(Input::Up, true);
    s.set_input(Input::Left, true);
    assert!(controller_stop(&mut s, 110, 100).is_empty());
    assert_eq!(
        controller_stop(&mut s, 111, 100),
        vec![ServerCommand::Input { input: Input::Up, pressed: false }, ServerCommand::Input { input: Input::Left, pressed: false }]
    );
}

#[test]
fn controller_sneak_shoots_and_enters() {
    let mut s = running(-1);
    assert_eq!(
        controller_sneak(&mut s, true),
        vec![ServerCommand::Input { input: Input::Shoot, pressed: true }, ServerCommand::Input { input: Input::Enter, pressed: true }]
    );
    assert!(controller_sneak(&mut s, true).is_empty());
}

#[test]
fn held_map_activates_session() {
    let mut s = DoomSession::new(-1);
    let mut inv = player_inventory();
    inv.set_slot(36, map_view(-1));
    assert!(should_be_active(-1, &inv, 0));
    assert!(!should_be_active(-2, &inv, 0));
    assert!(!should_be_active(-1, &inv, 1));
    assert_eq!(update_session_active_from_held_item(&mut s, &inv, 0), (ControllerChange::Insert, Some(ServerCommand::State { active: true })));
    assert_eq!(update_session_active_from_held_item(&mut s, &inv, 0), (ControllerChange::Keep, None));
    assert_eq!(update_session_active_from_held_item(&mut s, &inv, 1), (ControllerChange::Remove, Some(ServerCommand::State { active: false })));
}

#[test]
fn watch_rebinds_first_map() {
    let mut d = DoomSessionDirectory::default();
    let mut r = DoomSessionRegistry::default();
    d.insert(20, -4);
    let mut inv = player_inventory();
    inv.set_slot(40, map_view(-1));
    assert_eq!(watch_session(&d, &mut r, &mut inv, 21), WatchOutcome::NoSession);
    assert!(inv.slot(40).has_tag_with("map", &Value::Int(-1)));
    assert_eq!(watch_session(&d, &mut r, &mut inv, 20), WatchOutcome::Viewing(-4));
    assert!(inv.slot(40).has_tag_with("map", &Value::Int(-4)));
}

#[test]
fn unwatch_returns_to_own_session() {
    let mut d = DoomSessionDirectory::default();
    let mut r = DoomSessionRegistry::default();
    d.insert(20, -4);
    let mut inv = player_inventory();
    inv.set_slot(40, map_view(-9));
    assert!(!unwatch_session(&d, &mut r, &mut inv, 21));
    assert!(inv.slot(40).has_tag_with("map", &Value::Int(-9)));
    assert!(unwatch_session(&d, &mut r, &mut inv, 20));
    assert!(inv.slot(40).has_tag_with("map", &Value::Int(-4)));
}

#[test]
fn frames_go_to_viewers_of_active_session() {
    let mut viewer = player_inventory();
    viewer.set_slot(37, map_view(-2));
    let other = player_inventory();
    let clients = vec![(&viewer, 1u8), (&other, 1u8), (&viewer, 0u8)];
    let paused = DoomSession::new(-2);
    assert!(frame_recipients(&paused, &clients).is_empty());
    let active = running(-2);
    assert_eq!(frame_recipients(&active, &clients), vec![0]);
}

#[test]
fn sync_held_item_copies_hotbar_stack() {
    let mut inv = player_inventory();
    inv.set_slot(38, ItemStack::new(ItemKind::Other(3), 2, None));
    let mut sel = SelectedHotbarSlot::default();
    let held = sync_held_item(&inv, &mut sel, 2);
    assert_eq!(sel.0, 2);
    assert_eq!(held.item, ItemKind::Other(3));
    assert_eq!(held.count, 2);
}

#[test]
fn chat_history_default_keeps_nothing() {
    let mut chat = ChatHistory::default();
    chat.push("hello".to_string());
    assert!(chat.get_history().is_empty());
}

#[test]
fn bound_map_activates_its_session() {
    let s = DoomSession::new(-6);
    let mut inv = player_inventory();
    let mut map = ItemStack::new(ItemKind::FilledMap, 1, None);
    s.bind_map(&mut map);
    inv.set_slot(36, map);
    assert!(should_be_active(-6, &inv, 0));
    assert!(!should_be_active(-5, &inv, 0));
}

#[test]
fn plain_item_never_activates() {
    let mut inv = player_inventory();
    let mut tag = doom_server::nbt::Compound::new();
    tag.insert("map".to_string(), Value::Int(-1));
    inv.set_slot(36, ItemStack::new(ItemKind::Other(1), 1, Some(tag)));
    assert!(!should_be_active(-1, &inv, 0));
}

#[test]
fn movement_never_presses_opposites_law() {
    let mut s = running(-1);
    let mut m = MoveState::Idle;
    let mut st = StrafeState::Idle;
    let mut forward = false;
    let mut back = false;
    let mut right = false;
    let mut left = false;
    for (fv, rv) in [(0.05, -0.05), (-0.05, 0.05), (0.02, -0.02), (-0.02, 0.02), (0.0, 0.0), (-0.04, 0.04)] {
        let (nm, nst, cmds) = controller_move(&mut s, m, st, reading(fv), reading(rv));
        for c in cmds {
            if let ServerCommand::Input { input, pressed } = c {
                match input {
                    Input::Up => forward = pressed,
                    Input::Down => back = pressed,
                    Input::StrafeRight => right = pressed,
                    Input::StrafeLeft => left = pressed,
                    _ => {}
                }
            }
        }
        assert!(!(forward && back));
        assert!(!(right && left));
        m = nm;
        st = nst;
    }
    assert_eq!(m, MoveState::Back);
    assert_eq!(st, StrafeState::Right);
    assert!(back && right && !forward && !left);
}

#[test]
fn axis_reading_thresholds() {
    assert!(AxisReading::PositiveStart.above_on() && AxisReading::PositiveStart.above_off());
    assert!(!AxisReading::PositiveKeep.above_on() && AxisReading::PositiveKeep.above_off());
    assert!(!AxisReading::Within.above_off() && !AxisReading::Within.below_off());
    assert!(!AxisReading::NegativeKeep.below_on() && AxisReading::NegativeKeep.below_off());
    assert!(AxisReading::NegativeStart.below_on() && !AxisReading::NegativeStart.above_off());
    for r in [AxisReading::NegativeStart, AxisReading::NegativeKeep, AxisReading::Within, AxisReading::PositiveKeep, AxisReading::PositiveStart] {
        for m in [MoveState::Idle, MoveState::Forward, MoveState::Back] {
            let (_, f, b) = move_step(m, r);
            assert!(!(f && b));
        }
    }
}

#[test]
fn chat_messages_make_lines_until_a_nameless_sender() {
    let mut chat = ChatHistory::default();
    let events = vec![
        ("hi".to_string(), Some("alice".to_string())),
        ("yo".to_string(), Some("bob".to_string())),
        ("??".to_string(), None),
        ("late".to_string(), Some("carol".to_string())),
    ];
    let lines = on_chat_messages(&mut chat, &events);
    assert_eq!(lines, vec!["alice: hi".to_string(), "bob: yo".to_string()]);
    assert!(chat.get_history().is_empty());
}

#[test]
fn chat_messages_without_a_stop_send_every_line() {
    let mut chat = ChatHistory::default();
    let events = vec![("a".to_string(), Some("x".to_string())), ("b".to_string(), Some("y".to_string()))];
    assert_eq!(on_chat_messages(&mut chat, &events), vec!["x: a".to_string(), "y: b".to_string()]);
    assert!(on_chat_messages(&mut chat, &Vec::new()).is_empty());
}
