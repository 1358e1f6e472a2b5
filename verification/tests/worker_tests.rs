use doom_server::protocol::{CmdBundle, Input, ServerCommand, TicCmd};
use doom_server::worker::{bundle_to_raw, packet_to_ticcmd, tccmd_to_packet, ticcmds_to_bundle, DoomContext, InputPacket, KeyEvent, WorkerAction, ABSENT_MAX};

fn cmd(player_id: i32, forwardmove: i8) -> TicCmd {
    TicCmd { player_id, forwardmove, maketic: 3, ..TicCmd::default() }
}

fn bundle(maketic: i32, present: [bool; 4]) -> CmdBundle {
    CmdBundle { maketic, present, ..CmdBundle::default() }
}

#[test]
fn ticcmd_packet_round_trip() {
    let c = TicCmd { maketic: 9, player_id: 2, forwardmove: 5, sidemove: -3, angleturn: 300, chatchar: 1, buttons: 2, consistancy: 3, buttons2: 4, inventory: 77, lookfly: 6, arti: 7 };
    let p = tccmd_to_packet(&c);
    assert_eq!(p.angleturn, 300);
    assert_eq!(p.inventory, 77);
    assert_eq!(packet_to_ticcmd(&p, 9, 2), c);
}

#[test]
fn packet_round_trip() {
    let p = InputPacket { forwardmove: 1, sidemove: 2, angleturn: 3, chatchar: 4, buttons: 5, consistancy: 6, buttons2: 7, inventory: 8, lookfly: 9, arti: 10 };
    let c = packet_to_ticcmd(&p, 40, 1);
    assert_eq!(c.maketic, 40);
    assert_eq!(c.player_id, 1);
    assert_eq!(tccmd_to_packet(&c), p);
}

#[test]
fn ticcmds_to_bundle_marks_players() {
    let (inputs, mask) = ticcmds_to_bundle(&vec![cmd(2, 10), cmd(0, 20), cmd(2, 30)]);
    assert_eq!(mask, [1, 0, 1, 0]);
    assert_eq!(inputs[0].forwardmove, 20);
    assert_eq!(inputs[2].forwardmove, 30);
    assert_eq!(inputs[1], InputPacket::default());
}

#[test]
fn ticcmds_to_bundle_empty() {
    let (inputs, mask) = ticcmds_to_bundle(&Vec::new());
    assert_eq!(mask, [0, 0, 0, 0]);
    assert!(inputs.iter().all(|p| *p == InputPacket::default()));
}

#[test]
fn bundle_to_raw_uses_presence() {
    let mut b = bundle(1, [true, false, false, true]);
    b.cmds[3] = cmd(3, 44);
    let (inputs, mask) = bundle_to_raw(&b);
    assert_eq!(mask, [1, 0, 0, 1]);
    assert_eq!(inputs[3].forwardmove, 44);
}

#[test]
fn new_context_runs_idle() {
    let ctx = DoomContext::new();
    assert!(ctx.active);
    assert_eq!(ctx.delta, 0);
    assert_eq!(ctx.prev_present, [false; 4]);
    assert_eq!(ctx.absent_ticks, [0; 4]);
}

#[test]
fn handle_command_queues_keys_and_turning() {
    let mut ctx = DoomContext::new();
    assert_eq!(ctx.handle_command(ServerCommand::Input { input: Input::Shoot, pressed: true }), None);
    assert_eq!(ctx.handle_command(ServerCommand::RotationDelta(5)), None);
    assert_eq!(ctx.handle_command(ServerCommand::RotationDelta(-2)), None);
    assert_eq!(ctx.get_key(), Some(KeyEvent { pressed: true, input: Input::Shoot }));
    assert_eq!(ctx.get_key(), None);
    assert_eq!(ctx.get_mouse_delta(), 3);
    assert_eq!(ctx.get_mouse_delta(), 0);
}

#[test]
fn handle_command_player_actions() {
    let mut ctx = DoomContext::new();
    assert_eq!(ctx.handle_command(ServerCommand::NetJoin { id: 2 }), Some(WorkerAction::SpawnPlayer(2)));
    assert_eq!(ctx.handle_command(ServerCommand::NetLeave { id: 2 }), Some(WorkerAction::RemovePlayer(2)));
    assert_eq!(ctx.handle_command(ServerCommand::NetSetLocal { id: 1 }), Some(WorkerAction::SetLocalPlayer(1)));
    assert_eq!(ctx.handle_command(ServerCommand::RegisterPipes), Some(WorkerAction::RejectPipes));
    assert_eq!(ctx.handle_command(ServerCommand::State { active: false }), None);
    assert!(!ctx.active);
}

#[test]
fn paused_context_drops_keys() {
    let mut ctx = DoomContext::new();
    ctx.handle_command(ServerCommand::State { active: false });
    assert_eq!(ctx.handle_paused_command(ServerCommand::Input { input: Input::Up, pressed: true }), None);
    assert_eq!(ctx.handle_paused_command(ServerCommand::RotationDelta(9)), None);
    assert_eq!(ctx.handle_paused_command(ServerCommand::NetCmdBundle(bundle(0, [true, false, false, false]))), None);
    assert_eq!(ctx.handle_paused_command(ServerCommand::NetJoin { id: 0 }), Some(WorkerAction::SpawnPlayer(0)));
    assert_eq!(ctx.get_key(), None);
    assert_eq!(ctx.get_mouse_delta(), 0);
    assert_eq!(ctx.pending.len(), 1);
    assert_eq!(ctx.handle_paused_command(ServerCommand::State { active: true }), None);
    assert!(ctx.active);
}

#[test]
fn update_client_spawns_appearing_players() {
    let mut ctx = DoomContext::new();
    let b0 = bundle(0, [true, true, false, false]);
    let b1 = bundle(1, [true, true, true, false]);
    ctx.handle_command(ServerCommand::NetCmdBundle(b0));
    ctx.handle_command(ServerCommand::NetCmdBundle(b1));
    let actions = ctx.update_client();
    assert_eq!(
        actions,
        vec![
            WorkerAction::SpawnPlayer(0),
            WorkerAction::SpawnPlayer(1),
            WorkerAction::ApplyBundle(b0),
            WorkerAction::SpawnPlayer(2),
            WorkerAction::ApplyBundle(b1),
        ]
    );
    assert_eq!(ctx.prev_present, [true, true, true, false]);
    assert_eq!(ctx.absent_ticks, [0, 0, 0, 2]);
    assert!(ctx.pending.is_empty());
}

#[test]
fn update_client_removes_long_absent_players() {
    let mut ctx = DoomContext::new();
    ctx.handle_command(ServerCommand::NetCmdBundle(bundle(0, [true, true, false, false])));
    ctx.update_client();
    let mut removed = Vec::new();
    for t in 1..=(ABSENT_MAX as i32) {
        ctx.handle_command(ServerCommand::NetCmdBundle(bundle(t, [true, false, false, false])));
        for a in ctx.update_client() {
            if let WorkerAction::RemovePlayer(i) = a {
                removed.push((t, i));
            }
        }
    }
    assert_eq!(removed, vec![(34, 2), (34, 3), (35, 1)]);
    assert!(ctx.absent_ticks.iter().all(|a| *a < ABSENT_MAX));
}

#[test]
fn update_client_without_pending_does_nothing() {
    let mut ctx = DoomContext::new();
    assert!(ctx.update_client().is_empty());
}
