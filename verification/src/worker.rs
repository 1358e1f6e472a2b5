//! The decisions a DOOM worker process takes on the commands its server sends.
use vstd::prelude::*;
use std::collections::VecDeque;
use crate::protocol::{CmdBundle, Input, MAX_PLAYERS, ServerCommand, TicCmd, zero_ticcmd};

verus! {

/// How many bundles in a row a player slot may be absent before its player is removed.
pub const ABSENT_MAX: u8 = 35;

/// One player's input for one tick, as the game engine takes it.
#[derive(Debug, Clone, Copy, PartialEq, Eq, Structural)]
pub struct InputPacket {
    pub forwardmove: i8,
    pub sidemove: i8,
    pub angleturn: i16,
    pub chatchar: i8,
    pub buttons: i8,
    pub consistancy: i8,
    pub buttons2: i8,
    pub inventory: i32,
    pub lookfly: i8,
    pub arti: i8,
}

/// The all-zero input.
pub open spec fn zero_packet() -> InputPacket {
    InputPacket {
        forwardmove: 0,
        sidemove: 0,
        angleturn: 0,
        chatchar: 0,
        buttons: 0,
        consistancy: 0,
        buttons2: 0,
        inventory: 0,
        lookfly: 0,
        arti: 0,
    }
}

impl Default for InputPacket {
    fn default() -> (res: Self)
        ensures
            res == zero_packet(),
    {
        InputPacket {
            forwardmove: 0,
            sidemove: 0,
            angleturn: 0,
            chatchar: 0,
            buttons: 0,
            consistancy: 0,
            buttons2: 0,
            inventory: 0,
            lookfly: 0,
            arti: 0,
        }
    }
}

/// The engine input carried by a command.
pub open spec fn packet_of(cmd: TicCmd) -> InputPacket {
    InputPacket {
        forwardmove: cmd.forwardmove,
        sidemove: cmd.sidemove,
        angleturn: cmd.angleturn,
        chatchar: cmd.chatchar,
        buttons: cmd.buttons,
        consistancy: cmd.consistancy,
        buttons2: cmd.buttons2,
        inventory: cmd.inventory,
        lookfly: cmd.lookfly,
        arti: cmd.arti,
    }
}

/// The command that carries `packet`, made at tick `maketic` by `player_id`.
pub open spec fn ticcmd_of(packet: InputPacket, maketic: i32, player_id: i32) -> TicCmd {
    TicCmd {
        maketic,
        player_id,
        forwardmove: packet.forwardmove,
        sidemove: packet.sidemove,
        angleturn: packet.angleturn,
        chatchar: packet.chatchar,
        buttons: packet.buttons,
        consistancy: packet.consistancy,
        buttons2: packet.buttons2,
        inventory: packet.inventory,
        lookfly: packet.lookfly,
        arti: packet.arti,
    }
}

/// The command a player's engine input becomes when sent to the server.
pub fn packet_to_ticcmd(packet: &InputPacket, maketic: i32, player_id: i32) -> (res: TicCmd)
    ensures
        res == ticcmd_of(*packet, maketic, player_id),
        res.maketic == maketic,
        res.player_id == player_id,
        res.forwardmove == packet.forwardmove,
        res.sidemove == packet.sidemove,
        res.angleturn == packet.angleturn,
        res.chatchar == packet.chatchar,
        res.buttons == packet.buttons,
        res.consistancy == packet.consistancy,
        res.buttons2 == packet.buttons2,
        res.inventory == packet.inventory,
        res.lookfly == packet.lookfly,
        res.arti == packet.arti,
{
    TicCmd {
        maketic,
        player_id,
        forwardmove: packet.forwardmove,
        sidemove: packet.sidemove,
        angleturn: packet.angleturn,
        chatchar: packet.chatchar,
        buttons: packet.buttons,
        consistancy: packet.consistancy,
        buttons2: packet.buttons2,
        inventory: packet.inventory,
        lookfly: packet.lookfly,
        arti: packet.arti,
    }
}

/// The engine input a command carries.
pub fn tccmd_to_packet(packet: &TicCmd) -> (res: InputPacket)
    ensures
        res == packet_of(*packet),
        res.forwardmove == packet.forwardmove,
        res.sidemove == packet.sidemove,
        res.angleturn == packet.angleturn,
        res.chatchar == packet.chatchar,
        res.buttons == packet.buttons,
        res.consistancy == packet.consistancy,
        res.buttons2 == packet.buttons2,
        res.inventory == packet.inventory,
        res.lookfly == packet.lookfly,
        res.arti == packet.arti,
{
    InputPacket {
        forwardmove: packet.forwardmove,
        sidemove: packet.sidemove,
        angleturn: packet.angleturn,
        chatchar: packet.chatchar,
        buttons: packet.buttons,
        consistancy: packet.consistancy,
        buttons2: packet.buttons2,
        inventory: packet.inventory,
        lookfly: packet.lookfly,
        arti: packet.arti,
    }
}

/// Each field of the engine input a command carries is the command's field of the
/// same name: buttons stay buttons, a chat character stays a chat character.
pub proof fn law_packet_fields(cmd: TicCmd)
    ensures
        packet_of(cmd).forwardmove == cmd.forwardmove,
        packet_of(cmd).sidemove == cmd.sidemove,
        packet_of(cmd).angleturn == cmd.angleturn,
        packet_of(cmd).chatchar == cmd.chatchar,
        packet_of(cmd).buttons == cmd.buttons,
        packet_of(cmd).consistancy == cmd.consistancy,
        packet_of(cmd).buttons2 == cmd.buttons2,
        packet_of(cmd).inventory == cmd.inventory,
        packet_of(cmd).lookfly == cmd.lookfly,
        packet_of(cmd).arti == cmd.arti,
{
}

/// Each field of the command that carries engine input is the input's field of the
/// same name, and the command is stamped with the given tick and player.
pub proof fn law_ticcmd_fields(packet: InputPacket, maketic: i32, player_id: i32)
    ensures
        ticcmd_of(packet, maketic, player_id).maketic == maketic,
        ticcmd_of(packet, maketic, player_id).player_id == player_id,
        ticcmd_of(packet, maketic, player_id).forwardmove == packet.forwardmove,
        ticcmd_of(packet, maketic, player_id).sidemove == packet.sidemove,
        ticcmd_of(packet, maketic, player_id).angleturn == packet.angleturn,
        ticcmd_of(packet, maketic, player_id).chatchar == packet.chatchar,
        ticcmd_of(packet, maketic, player_id).buttons == packet.buttons,
        ticcmd_of(packet, maketic, player_id).consistancy == packet.consistancy,
        ticcmd_of(packet, maketic, player_id).buttons2 == packet.buttons2,
        ticcmd_of(packet, maketic, player_id).inventory == packet.inventory,
        ticcmd_of(packet, maketic, player_id).lookfly == packet.lookfly,
        ticcmd_of(packet, maketic, player_id).arti == packet.arti,
{
}

/// Converting a command to engine input and back gives the same command, given
/// the tick and player it was made by.
pub proof fn law_ticcmd_round_trip(cmd: TicCmd)
    ensures
        ticcmd_of(packet_of(cmd), cmd.maketic, cmd.player_id) == cmd,
{
}

/// Converting engine input to a command and back gives the same input.
pub proof fn law_packet_round_trip(packet: InputPacket, maketic: i32, player_id: i32)
    ensures
        packet_of(ticcmd_of(packet, maketic, player_id)) == packet,
{
}

/// The engine inputs of each player slot after the commands in `cmds`: a later
/// command of a slot replaces an earlier one, and a slot without one gets zeros.
pub open spec fn bundle_inputs(cmds: Seq<TicCmd>) -> Seq<InputPacket>
    decreases cmds.len(),
{
    if cmds.len() == 0 {
        Seq::new(MAX_PLAYERS as nat, |i: int| zero_packet())
    } else {
        bundle_inputs(cmds.drop_last()).update(cmds.last().player_id as int, packet_of(cmds.last()))
    }
}

/// Which player slots have a command in `cmds` (1) and which do not (0).
pub open spec fn bundle_mask(cmds: Seq<TicCmd>) -> Seq<i32>
    decreases cmds.len(),
{
    if cmds.len() == 0 {
        Seq::new(MAX_PLAYERS as nat, |i: int| 0i32)
    } else {
        bundle_mask(cmds.drop_last()).update(cmds.last().player_id as int, 1i32)
    }
}

/// The engine inputs and the presence mask of every player slot, from the commands
/// received for one tick.
pub fn ticcmds_to_bundle(packet: &Vec<TicCmd>) -> (res: (
    [InputPacket; MAX_PLAYERS],
    [i32; MAX_PLAYERS],
))
    requires
        forall|i: int| 0 <= i < packet@.len() ==> 0 <= #[trigger] packet@[i].player_id < MAX_PLAYERS,
    ensures
        res.0@ == bundle_inputs(packet@),
        res.1@ == bundle_mask(packet@),
{
    let z = InputPacket::default();
    let mut inputs = [z, z, z, z];
    let mut player_mask = [0i32, 0i32, 0i32, 0i32];
    assert(inputs@ =~= bundle_inputs(packet@.take(0)));
    assert(player_mask@ =~= bundle_mask(packet@.take(0)));
    let mut i: usize = 0;
    while i < packet.len()
        invariant
            i <= packet.len(),
            forall|j: int| 0 <= j < packet@.len() ==> 0 <= #[trigger] packet@[j].player_id < MAX_PLAYERS,
            inputs@ == bundle_inputs(packet@.take(i as int)),
            player_mask@ == bundle_mask(packet@.take(i as int)),
        decreases packet.len() - i,
    {
        let cmd = &packet[i];
        let slot: usize = cmd.player_id as usize;
        player_mask[slot] = 1;
        inputs[slot] = tccmd_to_packet(cmd);
        proof {
            assert(packet@.take(i + 1).drop_last() =~= packet@.take(i as int));
            assert(inputs@ =~= bundle_inputs(packet@.take(i + 1)));
            assert(player_mask@ =~= bundle_mask(packet@.take(i + 1)));
        }
        i = i + 1;
    }
    assert(packet@.take(packet@.len() as int) =~= packet@);
    (inputs, player_mask)
}

/// The engine inputs and presence mask of a bundle: every slot's command as engine
/// input, and 1 for a present slot, 0 for an absent one.
pub fn bundle_to_raw(bundle: &CmdBundle) -> (res: ([InputPacket; MAX_PLAYERS], [i32; MAX_PLAYERS]))
    ensures
        forall|i: int| 0 <= i < MAX_PLAYERS ==> res.0@[i] == packet_of(#[trigger] bundle.cmds@[i]),
        forall|i: int|
            0 <= i < MAX_PLAYERS ==> res.1@[i] == if #[trigger] bundle.present@[i] {
                1i32
            } else {
                0i32
            },
{
    let z = InputPacket::default();
    let mut inputs = [z, z, z, z];
    let mut mask = [0i32, 0i32, 0i32, 0i32];
    let mut i: usize = 0;
    while i < MAX_PLAYERS
        invariant
            i <= MAX_PLAYERS,
            forall|j: int| 0 <= j < i ==> inputs@[j] == packet_of(#[trigger] bundle.cmds@[j]),
            forall|j: int|
                0 <= j < i ==> mask@[j] == if #[trigger] bundle.present@[j] {
                    1i32
                } else {
                    0i32
                },
        decreases MAX_PLAYERS - i,
    {
        inputs[i] = tccmd_to_packet(&bundle.cmds[i]);
        mask[i] = if bundle.present[i] {
            1
        } else {
            0
        };
        i = i + 1;
    }
    (inputs, mask)
}

/// A key press or release waiting for the game engine.
#[derive(Debug, Clone, Copy, PartialEq, Eq, Structural)]
pub struct KeyEvent {
    pub pressed: bool,
    pub input: Input,
}

/// What the worker must do in the game engine or report.
#[derive(Debug, Clone, Copy, PartialEq, Eq)]
pub enum WorkerAction {
    /// Add the player of this slot to the game.
    SpawnPlayer(i32),
    /// Remove the player of this slot from the game.
    RemovePlayer(i32),
    /// Make this slot the worker's own player.
    SetLocalPlayer(i32),
    /// Report that the pipes were handed over a second time.
    RejectPipes,
    /// Hand the engine the commands of one tick.
    ApplyBundle(CmdBundle),
}

/// The worker's state between engine callbacks.
#[derive(Debug)]
pub struct DoomContext {
    /// Key events not yet read by the engine.
    pub key_queue: VecDeque<KeyEvent>,
    /// Tick bundles not yet applied.
    pub pending: VecDeque<CmdBundle>,
    /// Which slots were present in the last applied bundle.
    pub prev_present: [bool; MAX_PLAYERS],
    /// For how many bundles in a row each slot has been absent.
    pub absent_ticks: [u8; MAX_PLAYERS],
    /// Turning not yet read by the engine.
    pub delta: i16,
    /// Whether the game runs.
    pub active: bool,
}

/// The content of a [`DoomContext`].
pub struct ContextModel {
    pub keys: Seq<KeyEvent>,
    pub pending: Seq<CmdBundle>,
    pub prev_present: Seq<bool>,
    pub absent_ticks: Seq<u8>,
    pub delta: i16,
    pub active: bool,
}

impl View for DoomContext {
    type V = ContextModel;

    open spec fn view(&self) -> ContextModel {
        ContextModel {
            keys: self.key_queue@,
            pending: self.pending@,
            prev_present: self.prev_present@,
            absent_ticks: self.absent_ticks@,
            delta: self.delta,
            active: self.active,
        }
    }
}

/// The absence count of a slot after a bundle, before a removal resets it.
pub open spec fn next_absent(now: bool, absent: u8) -> int {
    if now {
        0
    } else {
        absent + 1
    }
}

/// A slot's player is removed: it has been absent for `ABSENT_MAX` bundles.
pub open spec fn removes(now: bool, absent: u8) -> bool {
    next_absent(now, absent) >= ABSENT_MAX
}

/// The absence count of a slot after a bundle.
pub open spec fn settled_absent(now: bool, absent: u8) -> u8 {
    if removes(now, absent) {
        0
    } else {
        next_absent(now, absent) as u8
    }
}

/// What a bundle makes the worker do for slot `i`: spawn the player when the slot
/// appears, then remove it when it has been absent too long.
pub open spec fn slot_actions(i: int, prev: bool, now: bool, absent: u8) -> Seq<WorkerAction> {
    (if !prev && now {
        seq![WorkerAction::SpawnPlayer(i as i32)]
    } else {
        Seq::empty()
    }) + (if removes(now, absent) {
        seq![WorkerAction::RemovePlayer(i as i32)]
    } else {
        Seq::empty()
    })
}

/// What a bundle makes the worker do for the first `n` slots, in slot order.
pub open spec fn slots_actions(prev: Seq<bool>, present: Seq<bool>, absent: Seq<u8>, n: int) -> Seq<
    WorkerAction,
>
    decreases n,
{
    if n <= 0 {
        Seq::empty()
    } else {
        slots_actions(prev, present, absent, n - 1) + slot_actions(
            n - 1,
            prev[n - 1],
            present[n - 1],
            absent[n - 1],
        )
    }
}

/// Everything one bundle makes the worker do.
pub open spec fn bundle_actions(prev: Seq<bool>, absent: Seq<u8>, bundle: CmdBundle) -> Seq<
    WorkerAction,
> {
    slots_actions(prev, bundle.present@, absent, MAX_PLAYERS as int).push(
        WorkerAction::ApplyBundle(bundle),
    )
}

/// The absence counts after one bundle.
pub open spec fn absent_after(present: Seq<bool>, absent: Seq<u8>) -> Seq<u8> {
    Seq::new(MAX_PLAYERS as nat, |i: int| settled_absent(present[i], absent[i]))
}

/// Applying `bundles` in order, from presence `prev` and absence counts `absent`:
/// the presence, absence counts and actions that result.
pub open spec fn run_bundles(prev: Seq<bool>, absent: Seq<u8>, bundles: Seq<CmdBundle>) -> (
    Seq<bool>,
    Seq<u8>,
    Seq<WorkerAction>,
)
    decreases bundles.len(),
{
    if bundles.len() == 0 {
        (prev, absent, Seq::empty())
    } else {
        let b = bundles[0];
        let rest = run_bundles(b.present@, absent_after(b.present@, absent), bundles.drop_first());
        (rest.0, rest.1, bundle_actions(prev, absent, b) + rest.2)
    }
}

impl DoomContext {
    /// No slot's absence count has reached `ABSENT_MAX`.
    pub open spec fn wf(&self) -> bool {
        forall|i: int| 0 <= i < MAX_PLAYERS ==> #[trigger] self.absent_ticks@[i] < ABSENT_MAX
    }

    /// A running worker with nothing queued and no player present.
    pub fn new() -> (res: DoomContext)
        ensures
            res.wf(),
            res@.keys == Seq::<KeyEvent>::empty(),
            res@.pending == Seq::<CmdBundle>::empty(),
            res@.prev_present == seq![false, false, false, false],
            res@.absent_ticks == seq![0u8, 0u8, 0u8, 0u8],
            res@.delta == 0,
            res@.active,
    {
        let res = DoomContext {
            key_queue: VecDeque::new(),
            pending: VecDeque::new(),
            prev_present: [false, false, false, false],
            absent_ticks: [0, 0, 0, 0],
            delta: 0,
            active: true,
        };
        assert(res@.prev_present =~= seq![false, false, false, false]);
        assert(res@.absent_ticks =~= seq![0u8, 0u8, 0u8, 0u8]);
        res
    }

    /// Takes in a command that arrived while the game runs.
    pub fn handle_command(&mut self, msg: ServerCommand) -> (res: Option<WorkerAction>)
        requires
            old(self).wf(),
            msg matches ServerCommand::RotationDelta(r) ==> i16::MIN <= old(self).delta + r
                <= i16::MAX,
        ensures
            final(self).wf(),
            match msg {
                ServerCommand::Input { input, pressed } => res is None && final(self)@ == (
                ContextModel { keys: old(self)@.keys.push(KeyEvent { pressed, input }), ..old(self)@ }),
                ServerCommand::State { active } => res is None && final(self)@ == (ContextModel {
                    active,
                    ..old(self)@
                }),
                ServerCommand::RegisterPipes => res == Some(WorkerAction::RejectPipes) && final(self)@
                    == old(self)@,
                ServerCommand::RotationDelta(r) => res is None && final(self)@ == (ContextModel {
                    delta: (old(self).delta + r) as i16,
                    ..old(self)@
                }),
                ServerCommand::NetCmdBundle(b) => res is None && final(self)@ == (ContextModel {
                    pending: old(self)@.pending.push(b),
                    ..old(self)@
                }),
                ServerCommand::NetJoin { id } => res == Some(WorkerAction::SpawnPlayer(id))
                    && final(self)@ == old(self)@,
                ServerCommand::NetLeave { id } => res == Some(WorkerAction::RemovePlayer(id))
                    && final(self)@ == old(self)@,
                ServerCommand::NetSetLocal { id } => res == Some(WorkerAction::SetLocalPlayer(id))
                    && final(self)@ == old(self)@,
            },
    {
        match msg {
            ServerCommand::Input { input, pressed } => {
                self.key_queue.push_back(KeyEvent { pressed, input });
                None
            },
            ServerCommand::State { active } => {
                self.active = active;
                None
            },
            ServerCommand::RegisterPipes => Some(WorkerAction::RejectPipes),
            ServerCommand::RotationDelta(rotation) => {
                self.delta = self.delta + rotation;
                None
            },
            ServerCommand::NetCmdBundle(bundle) => {
                self.pending.push_back(bundle);
                None
            },
            ServerCommand::NetJoin { id } => Some(WorkerAction::SpawnPlayer(id)),
            ServerCommand::NetLeave { id } => Some(WorkerAction::RemovePlayer(id)),
            ServerCommand::NetSetLocal { id } => Some(WorkerAction::SetLocalPlayer(id)),
        }
    }

    /// Takes in a command that arrived while the game is paused: key presses and
    /// turning are dropped, everything else is taken as while running.
    pub fn handle_paused_command(&mut self, msg: ServerCommand) -> (res: Option<WorkerAction>)
        requires
            old(self).wf(),
        ensures
            final(self).wf(),
            match msg {
                ServerCommand::Input { .. } => res is None && final(self)@ == old(self)@,
                ServerCommand::RotationDelta(_) => res is None && final(self)@ == old(self)@,
                ServerCommand::State { active } => res is None && final(self)@ == (ContextModel {
                    active,
                    ..old(self)@
                }),
                ServerCommand::RegisterPipes => res == Some(WorkerAction::RejectPipes) && final(self)@
                    == old(self)@,
                ServerCommand::NetCmdBundle(b) => res is None && final(self)@ == (ContextModel {
                    pending: old(self)@.pending.push(b),
                    ..old(self)@
                }),
                ServerCommand::NetJoin { id } => res == Some(WorkerAction::SpawnPlayer(id))
                    && final(self)@ == old(self)@,
                ServerCommand::NetLeave { id } => res == Some(WorkerAction::RemovePlayer(id))
                    && final(self)@ == old(self)@,
                ServerCommand::NetSetLocal { id } => res == Some(WorkerAction::SetLocalPlayer(id))
                    && final(self)@ == old(self)@,
            },
    {
        match msg {
            ServerCommand::Input { .. } => None,
            ServerCommand::RotationDelta(_) => None,
            other => self.handle_command(other),
        }
    }

    /// The oldest key event not yet read.
    pub fn get_key(&mut self) -> (res: Option<KeyEvent>)
        ensures
            old(self)@.keys.len() == 0 ==> res is None && final(self)@ == old(self)@,
            old(self)@.keys.len() > 0 ==> res == Some(old(self)@.keys[0]) && final(self)@ == (
            ContextModel { keys: old(self)@.keys.drop_first(), ..old(self)@ }),
    {
        let res = self.key_queue.pop_front();
        proof {
            if old(self)@.keys.len() > 0 {
                assert(self.key_queue@ =~= old(self)@.keys.drop_first());
            }
        }
        res
    }

    /// The turning accumulated since the last read, which is then cleared.
    pub fn get_mouse_delta(&mut self) -> (res: i16)
        ensures
            res == old(self).delta,
            final(self)@ == (ContextModel { delta: 0, ..old(self)@ }),
    {
        let delta = self.delta;
        self.delta = 0;
        delta
    }

    fn apply_bundle(&mut self, bundle: CmdBundle) -> (res: Vec<WorkerAction>)
        requires
            old(self).wf(),
        ensures
            final(self).wf(),
            res@ == bundle_actions(old(self)@.prev_present, old(self)@.absent_ticks, bundle),
            final(self)@ == (ContextModel {
                prev_present: bundle.present@,
                absent_ticks: absent_after(bundle.present@, old(self)@.absent_ticks),
                ..old(self)@
            }),
    {
        let mut actions: Vec<WorkerAction> = Vec::new();
        let mut i: usize = 0;
        while i < MAX_PLAYERS
            invariant
                i <= MAX_PLAYERS,
                self.wf(),
                self.prev_present == old(self).prev_present,
                self.key_queue@ == old(self).key_queue@,
                self.pending@ == old(self).pending@,
                self.delta == old(self).delta,
                self.active == old(self).active,
                actions@ == slots_actions(
                    old(self)@.prev_present,
                    bundle.present@,
                    old(self)@.absent_ticks,
                    i as int,
                ),
                forall|j: int|
                    0 <= j < i ==> #[trigger] self.absent_ticks@[j] == settled_absent(
                        bundle.present@[j],
                        old(self)@.absent_ticks[j],
                    ),
                forall|j: int|
                    i <= j < MAX_PLAYERS ==> #[trigger] self.absent_ticks@[j] == old(
                        self
                    )@.absent_ticks[j],
            decreases MAX_PLAYERS - i,
        {
            let was = self.prev_present[i];
            let now = bundle.present[i];
            let ghost before = actions@;
            if now {
                self.absent_ticks[i] = 0;
            } else {
                self.absent_ticks[i] = self.absent_ticks[i] + 1;
            }
            if !was && now {
                actions.push(WorkerAction::SpawnPlayer(i as i32));
            }
            if self.absent_ticks[i] >= ABSENT_MAX {
                self.absent_ticks[i] = 0;
                actions.push(WorkerAction::RemovePlayer(i as i32));
            }
            assert(actions@ =~= before + slot_actions(
                i as int,
                old(self)@.prev_present[i as int],
                bundle.present@[i as int],
                old(self)@.absent_ticks[i as int],
            ));
            i = i + 1;
        }
        self.prev_present = bundle.present;
        actions.push(WorkerAction::ApplyBundle(bundle));
        assert(self.absent_ticks@ =~= absent_after(bundle.present@, old(self)@.absent_ticks));
        actions
    }

    /// Applies every pending bundle, oldest first: a slot that appears gets its player
    /// spawned, a slot absent for `ABSENT_MAX` bundles in a row gets its player removed,
    /// and each bundle's commands go to the engine.
    pub fn update_client(&mut self) -> (res: Vec<WorkerAction>)
        requires
            old(self).wf(),
        ensures
            final(self).wf(),
            ({
                let r = run_bundles(
                    old(self)@.prev_present,
                    old(self)@.absent_ticks,
                    old(self)@.pending,
                );
                &&& res@ == r.2
                &&& final(self)@ == (ContextModel {
                    pending: Seq::<CmdBundle>::empty(),
                    prev_present: r.0,
                    absent_ticks: r.1,
                    ..old(self)@
                })
            }),
    {
        let mut actions: Vec<WorkerAction> = Vec::new();
        let ghost total = run_bundles(
            old(self)@.prev_present,
            old(self)@.absent_ticks,
            old(self)@.pending,
        );
        while self.pending.len() > 0
            invariant
                self.wf(),
                self.key_queue@ == old(self).key_queue@,
                self.delta == old(self).delta,
                self.active == old(self).active,
                ({
                    let r = run_bundles(self@.prev_present, self@.absent_ticks, self@.pending);
                    &&& actions@ + r.2 == total.2
                    &&& r.0 == total.0
                    &&& r.1 == total.1
                }),
            decreases self.pending.len(),
        {
            let ghost rest = self@.pending;
            let bundle = self.pending.pop_front().unwrap();
            assert(self@.pending =~= rest.drop_first());
            let step = self.apply_bundle(bundle);
            let mut k: usize = 0;
            let ghost start = actions@;
            while k < step.len()
                invariant
                    k <= step.len(),
                    actions@ == start + step@.take(k as int),
                decreases step.len() - k,
            {
                actions.push(step[k]);
                k = k + 1;
                assert(actions@ =~= start + step@.take(k as int));
            }
            assert(step@.take(step.len() as int) =~= step@);
            assert(start + step@ + run_bundles(self@.prev_present, self@.absent_ticks, self@.pending).2
                =~= start + (step@ + run_bundles(self@.prev_present, self@.absent_ticks, self@.pending).2));
        }
        assert(actions@ + Seq::<WorkerAction>::empty() =~= actions@);
        assert(self@.pending =~= Seq::<CmdBundle>::empty());
        actions
    }
}

/// A slot that is present in a bundle never has its player removed by that bundle,
/// and its absence count restarts from zero.
pub proof fn law_present_slot_kept(absent: u8)
    ensures
        !removes(true, absent),
        settled_absent(true, absent) == 0,
{
}

/// An absence count stays below `ABSENT_MAX` after any bundle: the removal resets it.
pub proof fn law_absent_count_bounded(now: bool, absent: u8)
    requires
        absent < ABSENT_MAX,
    ensures
        settled_absent(now, absent) < ABSENT_MAX,
{
}

/// A slot that appears in a bundle gets its player spawned, and nothing else.
pub proof fn law_appearing_slot_spawned(i: int, absent: u8)
    ensures
        slot_actions(i, false, true, absent) == seq![WorkerAction::SpawnPlayer(i as i32)],
{
    assert(seq![WorkerAction::SpawnPlayer(i as i32)] + Seq::<WorkerAction>::empty() =~= seq![
        WorkerAction::SpawnPlayer(i as i32),
    ]);
}

/// Within one slot, a bundle spawns that slot's player exactly when the slot was
/// absent from the previous bundle and is present in this one; it never spawns a
/// player that stays, nor one that just left.
pub proof fn law_slot_spawns_only_on_appearance(i: int, prev: bool, now: bool, absent: u8, k: i32)
    ensures
        slot_actions(i, prev, now, absent).contains(WorkerAction::SpawnPlayer(k)) <==> (!prev
            && now && k == i as i32),
{
    broadcast use vstd::seq_lib::lemma_seq_concat_contains_all_elements;
    broadcast use vstd::seq_lib::lemma_seq_empty_contains_nothing;

    let sp = WorkerAction::SpawnPlayer(i as i32);
    let rm = WorkerAction::RemovePlayer(i as i32);
    assert(seq![sp].contains(WorkerAction::SpawnPlayer(k)) <==> k == i as i32) by {
        if seq![sp].contains(WorkerAction::SpawnPlayer(k)) {
            let j = choose|j: int| 0 <= j < 1 && seq![sp][j] == WorkerAction::SpawnPlayer(k);
            assert(j == 0);
        }
        if k == i as i32 {
            assert(seq![sp][0] == WorkerAction::SpawnPlayer(k));
        }
    }
    assert(!seq![rm].contains(WorkerAction::SpawnPlayer(k))) by {
        if seq![rm].contains(WorkerAction::SpawnPlayer(k)) {
            let j = choose|j: int| 0 <= j < 1 && seq![rm][j] == WorkerAction::SpawnPlayer(k);
            assert(j == 0);
        }
    }
}

/// Within one slot, a bundle removes that slot's player exactly when the slot is
/// absent from it and has now been absent for `ABSENT_MAX` bundles in a row.
pub proof fn law_slot_removes_only_after_absence(i: int, prev: bool, now: bool, absent: u8, k: i32)
    ensures
        slot_actions(i, prev, now, absent).contains(WorkerAction::RemovePlayer(k)) <==> (!now
            && absent + 1 >= ABSENT_MAX && k == i as i32),
{
    broadcast use vstd::seq_lib::lemma_seq_concat_contains_all_elements;
    broadcast use vstd::seq_lib::lemma_seq_empty_contains_nothing;

    let sp = WorkerAction::SpawnPlayer(i as i32);
    let rm = WorkerAction::RemovePlayer(i as i32);
    assert(seq![rm].contains(WorkerAction::RemovePlayer(k)) <==> k == i as i32) by {
        if seq![rm].contains(WorkerAction::RemovePlayer(k)) {
            let j = choose|j: int| 0 <= j < 1 && seq![rm][j] == WorkerAction::RemovePlayer(k);
            assert(j == 0);
        }
        if k == i as i32 {
            assert(seq![rm][0] == WorkerAction::RemovePlayer(k));
        }
    }
    assert(!seq![sp].contains(WorkerAction::RemovePlayer(k))) by {
        if seq![sp].contains(WorkerAction::RemovePlayer(k)) {
            let j = choose|j: int| 0 <= j < 1 && seq![sp][j] == WorkerAction::RemovePlayer(k);
            assert(j == 0);
        }
    }
}

proof fn lemma_slots_spawns(prev: Seq<bool>, present: Seq<bool>, absent: Seq<u8>, n: int, k: i32)
    requires
        0 <= n <= MAX_PLAYERS,
    ensures
        slots_actions(prev, present, absent, n).contains(WorkerAction::SpawnPlayer(k)) <==> (0 <= k
            < n && !prev[k as int] && present[k as int]),
    decreases n,
{
    broadcast use vstd::seq_lib::lemma_seq_concat_contains_all_elements;
    broadcast use vstd::seq_lib::lemma_seq_empty_contains_nothing;

    if n > 0 {
        lemma_slots_spawns(prev, present, absent, n - 1, k);
        law_slot_spawns_only_on_appearance(n - 1, prev[n - 1], present[n - 1], absent[n - 1], k);
    }
}

proof fn lemma_slots_removes(prev: Seq<bool>, present: Seq<bool>, absent: Seq<u8>, n: int, k: i32)
    requires
        0 <= n <= MAX_PLAYERS,
    ensures
        slots_actions(prev, present, absent, n).contains(WorkerAction::RemovePlayer(k)) <==> (0 <= k
            < n && !present[k as int] && absent[k as int] + 1 >= ABSENT_MAX),
    decreases n,
{
    broadcast use vstd::seq_lib::lemma_seq_concat_contains_all_elements;
    broadcast use vstd::seq_lib::lemma_seq_empty_contains_nothing;

    if n > 0 {
        lemma_slots_removes(prev, present, absent, n - 1, k);
        law_slot_removes_only_after_absence(n - 1, prev[n - 1], present[n - 1], absent[n - 1], k);
    }
}

proof fn lemma_slots_no_apply(prev: Seq<bool>, present: Seq<bool>, absent: Seq<u8>, n: int)
    requires
        0 <= n <= MAX_PLAYERS,
    ensures
        forall|a: int|
            0 <= a < slots_actions(prev, present, absent, n).len() ==> !((#[trigger] slots_actions(
                prev,
                present,
                absent,
                n,
            )[a]) is ApplyBundle),
    decreases n,
{
    if n > 0 {
        lemma_slots_no_apply(prev, present, absent, n - 1);
        let before = slots_actions(prev, present, absent, n - 1);
        let one = slot_actions(n - 1, prev[n - 1], present[n - 1], absent[n - 1]);
        let cur = slots_actions(prev, present, absent, n);
        assert(cur == before + one);
        assert forall|a: int| 0 <= a < cur.len() implies !(#[trigger] cur[a] is ApplyBundle) by {
            if a >= before.len() {
                assert(cur[a] == one[a - before.len()]);
            }
        }
    }
}

/// A bundle removes the player of slot `k` exactly when slot `k` is absent from it and
/// has been absent for `ABSENT_MAX` bundles in a row; and it hands the bundle itself to
/// the engine once, after every spawn and removal.
pub proof fn law_bundle_removes_and_applies(prev: Seq<bool>, absent: Seq<u8>, bundle: CmdBundle, k: i32)
    ensures
        bundle_actions(prev, absent, bundle).contains(WorkerAction::RemovePlayer(k)) <==> (0 <= k
            < MAX_PLAYERS && !bundle.present@[k as int] && absent[k as int] + 1 >= ABSENT_MAX),
        bundle_actions(prev, absent, bundle).last() == WorkerAction::ApplyBundle(bundle),
        forall|a: int|
            0 <= a < bundle_actions(prev, absent, bundle).len() - 1 ==> !((
            #[trigger] bundle_actions(prev, absent, bundle)[a]) is ApplyBundle),
{
    broadcast use vstd::seq_lib::lemma_seq_contains_after_push;

    lemma_slots_removes(prev, bundle.present@, absent, MAX_PLAYERS as int, k);
    lemma_slots_no_apply(prev, bundle.present@, absent, MAX_PLAYERS as int);
    let body = slots_actions(prev, bundle.present@, absent, MAX_PLAYERS as int);
    assert forall|a: int| 0 <= a < bundle_actions(prev, absent, bundle).len() - 1 implies !((
    #[trigger] bundle_actions(prev, absent, bundle)[a]) is ApplyBundle) by {
        assert(bundle_actions(prev, absent, bundle)[a] == body[a]);
    }
}

/// A bundle spawns the player of slot `k` exactly when slot `k` was absent from the
/// previous bundle and is present in this one: a player who merely left, or who
/// stays, is never spawned again.
pub proof fn law_bundle_spawns_exactly_appearing_slots(
    prev: Seq<bool>,
    absent: Seq<u8>,
    bundle: CmdBundle,
    k: i32,
)
    ensures
        bundle_actions(prev, absent, bundle).contains(WorkerAction::SpawnPlayer(k)) <==> (0 <= k
            < MAX_PLAYERS && !prev[k as int] && bundle.present@[k as int]),
        run_bundles(prev, absent, seq![bundle]).2.contains(WorkerAction::SpawnPlayer(k)) <==> (0
            <= k < MAX_PLAYERS && !prev[k as int] && bundle.present@[k as int]),
{
    broadcast use vstd::seq_lib::lemma_seq_concat_contains_all_elements;
    broadcast use vstd::seq_lib::lemma_seq_contains_after_push;
    broadcast use vstd::seq_lib::lemma_seq_empty_contains_nothing;

    lemma_slots_spawns(prev, bundle.present@, absent, MAX_PLAYERS as int, k);
    let one = seq![bundle];
    assert(one[0] == bundle);
    assert(one.drop_first() =~= Seq::<CmdBundle>::empty());
    let rest = run_bundles(bundle.present@, absent_after(bundle.present@, absent), one.drop_first());
    assert(rest.2 == Seq::<WorkerAction>::empty());
    assert(run_bundles(prev, absent, one).2 =~= bundle_actions(prev, absent, bundle));
}

} // verus!
