use doom_server::net::{collect_cmds, party_presence, send_client_ticks, DoomParty, DoomPartyMember, DoomTickStream};
use doom_server::protocol::{ServerCommand, TicCmd};
use doom_server::queue::{admit_system, PlayerQueue, QueueCapacity};
use std::collections::HashSet;

fn party(max_players: usize) -> DoomParty {
    DoomParty { wad: "doom.wad".to_string(), max_players, started: false, host: 1, invites: Vec::new() }
}

#[test]
fn is_full_respects_both_limits() {
    let p = party(2);
    assert!(!p.is_full(1));
    assert!(p.is_full(2));
    let big = party(10);
    assert!(!big.is_full(3));
    assert!(big.is_full(4));
}

#[test]
fn list_members_filters_party_and_slot() {
    let members = vec![
        (10, DoomPartyMember { group: 1, slot: 0 }),
        (11, DoomPartyMember { group: 2, slot: 1 }),
        (12, DoomPartyMember { group: 1, slot: 7 }),
        (13, DoomPartyMember { group: 1, slot: 3 }),
    ];
    assert_eq!(DoomParty::list_members(1, &members), vec![(10, 0), (13, 3)]);
}

#[test]
fn party_presence_marks_member_slots() {
    let members = vec![
        DoomPartyMember { group: 1, slot: 0 },
        DoomPartyMember { group: 2, slot: 1 },
        DoomPartyMember { group: 1, slot: 2 },
        DoomPartyMember { group: 1, slot: 9 },
    ];
    assert_eq!(party_presence(1, &members), [true, false, true, false]);
    assert_eq!(party_presence(3, &members), [false; 4]);
}

#[test]
fn start_tells_every_member() {
    let mut p = party(4);
    let mut net = DoomTickStream::default();
    net.next_tic = 55;
    let members = vec![
        (10, DoomPartyMember { group: 1, slot: 0 }),
        (11, DoomPartyMember { group: 1, slot: 2 }),
        (12, DoomPartyMember { group: 5, slot: 1 }),
    ];
    let (present, cmds) = p.start(1, &mut net, &members);
    assert!(p.started);
    assert_eq!(net.next_tic, 0);
    assert_eq!(present, [true, false, true, false]);
    assert_eq!(net.present, present);
    let joins = vec![ServerCommand::NetJoin { id: 0 }, ServerCommand::NetJoin { id: 2 }];
    assert_eq!(cmds.len(), 2);
    assert_eq!(cmds[0].0, 10);
    assert_eq!(cmds[0].1, [vec![ServerCommand::NetSetLocal { id: 0 }], joins.clone()].concat());
    assert_eq!(cmds[1].0, 11);
    assert_eq!(cmds[1].1, [vec![ServerCommand::NetSetLocal { id: 2 }], joins].concat());
}

#[test]
fn collect_cmd_stamps_slot() {
    let mut net = DoomTickStream::default();
    let cmd = TicCmd { player_id: 9, forwardmove: 4, ..TicCmd::default() };
    net.collect_cmd(2, cmd);
    assert_eq!(net.pending[2].player_id, 2);
    assert_eq!(net.pending[2].forwardmove, 4);
    assert_eq!(net.pending[0], TicCmd::default());
}

#[test]
fn next_bundle_counts_ticks_and_hides_absent() {
    let mut net = DoomTickStream::default();
    net.present = [true, false, false, false];
    net.collect_cmd(0, TicCmd { forwardmove: 3, ..TicCmd::default() });
    net.collect_cmd(1, TicCmd { forwardmove: 8, ..TicCmd::default() });
    let b0 = net.next_bundle();
    let b1 = net.next_bundle();
    assert_eq!(b0.maketic, 0);
    assert_eq!(b1.maketic, 1);
    assert_eq!(net.next_tic, 2);
    assert_eq!(b0.present, [true, false, false, false]);
    assert_eq!(b0.cmds[0].forwardmove, 3);
    assert_eq!(b0.cmds[1], TicCmd::default());
}

#[test]
fn send_client_ticks_skips_a_party_not_started() {
    let p = party(4);
    let mut net = DoomTickStream::default();
    net.next_tic = 5;
    let members = vec![(10, DoomPartyMember { group: 1, slot: 0 })];
    assert!(send_client_ticks(&p, 1, &mut net, &members).is_none());
    assert_eq!(net.next_tic, 5);
}

#[test]
fn send_client_ticks_sends_the_bundle_to_member_sessions() {
    let mut p = party(4);
    p.started = true;
    let mut net = DoomTickStream::default();
    net.next_tic = 7;
    net.present = [true, true, false, false];
    net.collect_cmd(1, TicCmd { sidemove: 4, ..TicCmd::default() });
    net.collect_cmd(2, TicCmd { sidemove: 9, ..TicCmd::default() });
    let members = vec![
        (10, DoomPartyMember { group: 1, slot: 0 }),
        (11, DoomPartyMember { group: 2, slot: 0 }),
        (12, DoomPartyMember { group: 1, slot: 9 }),
    ];
    let (bundle, to) = send_client_ticks(&p, 1, &mut net, &members).unwrap();
    assert_eq!(to, vec![10, 12]);
    assert_eq!(bundle.maketic, 7);
    assert_eq!(bundle.present, [true, true, false, false]);
    assert_eq!(bundle.cmds[1].sidemove, 4);
    assert_eq!(bundle.cmds[1].player_id, 1);
    assert_eq!(bundle.cmds[2], TicCmd::default());
    assert_eq!(net.next_tic, 8);
}

#[test]
fn admit_system_respects_capacity() {
    let mut q = PlayerQueue::default();
    for p in [1u64, 2, 3, 4] {
        q.order.push_back(p);
        q.set.insert(p);
    }
    let mut cap = QueueCapacity { available_slots: 2 };
    let queued: HashSet<u64> = [1u64, 3, 4].into_iter().collect();
    let admitted = admit_system(&mut q, &mut cap, &queued);
    let ids: Vec<u64> = admitted.iter().map(|a| a.player).collect();
    assert_eq!(ids, vec![1, 3]);
    assert_eq!(cap.available_slots, 0);
    assert_eq!(q.order.iter().copied().collect::<Vec<_>>(), vec![4]);
    assert!(!q.set.contains(&1));
    assert!(!q.set.contains(&2));
    assert!(q.set.contains(&4));
}

#[test]
fn admit_system_drains_when_capacity_left() {
    let mut q = PlayerQueue::default();
    q.order.push_back(5);
    q.set.insert(5);
    let mut cap = QueueCapacity { available_slots: 3 };
    let admitted = admit_system(&mut q, &mut cap, &[5u64].into_iter().collect());
    assert_eq!(admitted.len(), 1);
    assert_eq!(cap.available_slots, 2);
    assert!(q.order.is_empty());
}

#[test]
fn admit_system_without_capacity_keeps_queue() {
    let mut q = PlayerQueue::default();
    q.order.push_back(5);
    q.set.insert(5);
    let mut cap = QueueCapacity::default();
    let admitted = admit_system(&mut q, &mut cap, &[5u64].into_iter().collect());
    assert!(admitted.is_empty());
    assert_eq!(q.order.len(), 1);
    assert!(q.set.contains(&5));
}

#[test]
fn collect_cmds_skips_a_party_not_started() {
    let p = party(4);
    let mut net = DoomTickStream::default();
    let firsts = vec![(DoomPartyMember { group: 1, slot: 0 }, Some(TicCmd { forwardmove: 5, ..TicCmd::default() }))];
    let taken = collect_cmds(&p, 1, &mut net, &firsts);
    assert_eq!(taken, vec![false]);
    assert_eq!(net, DoomTickStream::default());
}

#[test]
fn collect_cmds_takes_members_commands_into_their_slots() {
    let mut p = party(4);
    p.started = true;
    let mut net = DoomTickStream::default();
    let firsts = vec![
        (DoomPartyMember { group: 1, slot: 2 }, Some(TicCmd { forwardmove: 5, player_id: 9, ..TicCmd::default() })),
        (DoomPartyMember { group: 2, slot: 1 }, Some(TicCmd { forwardmove: 6, ..TicCmd::default() })),
        (DoomPartyMember { group: 1, slot: 0 }, None),
        (DoomPartyMember { group: 1, slot: 3 }, Some(TicCmd { sidemove: -2, ..TicCmd::default() })),
    ];
    let taken = collect_cmds(&p, 1, &mut net, &firsts);
    assert_eq!(taken, vec![true, false, false, true]);
    assert_eq!(net.pending[2], TicCmd { forwardmove: 5, player_id: 2, ..TicCmd::default() });
    assert_eq!(net.pending[1], TicCmd::default());
    assert_eq!(net.pending[0], TicCmd::default());
    assert_eq!(net.pending[3], TicCmd { sidemove: -2, player_id: 3, ..TicCmd::default() });
    assert_eq!(net.next_tic, 0);
}
