use doom_server::item::{ItemKind, ItemStack, ItemStackExt};
use doom_server::nbt::Value;
use doom_server::protocol::{CmdBundle, Input, ServerCommand};
use doom_server::session::{map_view, DoomSession};

fn running(id: i32) -> DoomSession {
    let mut s = DoomSession::new(id);
    let (changed, cmd) = s.set_active(true);
    assert!(changed);
    assert_eq!(cmd, Some(ServerCommand::State { active: true }));
    s
}

#[test]
fn new_session_is_paused() {
    let s = DoomSession::new(-4);
    assert_eq!(s.id(), -4);
    assert!(!s.is_active());
}

#[test]
fn paused_session_ignores_input() {
    let mut s = DoomSession::new(-1);
    assert_eq!(s.set_input(Input::Up, true), None);
    assert_eq!(s.toggle_input(Input::Use), None);
}

#[test]
fn set_input_sends_changes_only() {
    let mut s = running(-1);
    assert_eq!(s.set_input(Input::Up, true), Some(ServerCommand::Input { input: Input::Up, pressed: true }));
    assert_eq!(s.set_input(Input::Up, true), None);
    assert_eq!(s.set_input(Input::Up, false), Some(ServerCommand::Input { input: Input::Up, pressed: false }));
    assert_eq!(s.set_input(Input::Up, false), None);
}

#[test]
fn toggle_twice_restores() {
    let mut s = running(-1);
    assert_eq!(s.toggle_input(Input::Use), Some(ServerCommand::Input { input: Input::Use, pressed: true }));
    assert_eq!(s.toggle_input(Input::Use), Some(ServerCommand::Input { input: Input::Use, pressed: false }));
    assert_eq!(s.set_input(Input::Use, false), None);
}

#[test]
fn set_active_reports_change() {
    let mut s = DoomSession::new(-2);
    assert_eq!(s.set_active(false), (false, None));
    assert_eq!(s.set_active(true), (true, Some(ServerCommand::State { active: true })));
    assert_eq!(s.set_active(true), (false, None));
    assert_eq!(s.set_active(false), (true, Some(ServerCommand::State { active: false })));
    assert!(!s.is_active());
}

#[test]
fn set_inputs_sends_in_order() {
    let mut s = running(-1);
    let cmds = s.set_inputs(&vec![(Input::Left, true), (Input::Right, false), (Input::Left, true), (Input::Shoot, true)]);
    assert_eq!(
        cmds,
        vec![
            ServerCommand::Input { input: Input::Left, pressed: true },
            ServerCommand::Input { input: Input::Shoot, pressed: true },
        ]
    );
}

#[test]
fn command_builders() {
    let s = DoomSession::new(-3);
    assert_eq!(s.set_mouse_delta(-12), ServerCommand::RotationDelta(-12));
    assert_eq!(s.set_local_player(2), ServerCommand::NetSetLocal { id: 2 });
    assert_eq!(s.add_player(1), ServerCommand::NetJoin { id: 1 });
    let b = CmdBundle::default();
    assert_eq!(s.send_cmd_bundle(b), ServerCommand::NetCmdBundle(b));
}

#[test]
fn bind_map_tags_with_session_id() {
    let s = DoomSession::new(-5);
    let mut map = ItemStack::new(ItemKind::FilledMap, 1, None);
    s.bind_map(&mut map);
    assert!(map.has_tag_with("map", &Value::Int(-5)));
    assert_eq!(map.item, ItemKind::FilledMap);
    assert_eq!(map.count, 1);
}

#[test]
fn map_view_shows_session() {
    let m = map_view(-9);
    assert_eq!(m.item, ItemKind::FilledMap);
    assert_eq!(m.count, 1);
    assert!(m.has_tag_with("map", &Value::Int(-9)));
    assert!(!m.has_tag_with("map", &Value::Int(-8)));
}
