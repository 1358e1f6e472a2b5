//! Turning a player's movement into DOOM key presses.
use vstd::prelude::*;
use crate::inventory::{HOTBAR_SIZE, Inventory, hotbar_index};
use crate::protocol::{Input, ServerCommand};
use crate::session::{DoomSession, input_changes};
use crate::util::{should_be_active, shows_session};

verus! {

/// Whether the player walks forward or back.
#[derive(Debug, Clone, Copy, PartialEq, Eq, Structural)]
pub enum MoveState {
    Idle,
    Forward,
    Back,
}

/// Whether the player steps sideways.
#[derive(Debug, Clone, Copy, PartialEq, Eq, Structural)]
pub enum StrafeState {
    Idle,
    Left,
    Right,
}

impl Default for MoveState {
    fn default() -> (res: Self)
        ensures
            res == MoveState::Idle,
    {
        MoveState::Idle
    }
}

impl Default for StrafeState {
    fn default() -> (res: Self)
        ensures
            res == StrafeState::Idle,
    {
        StrafeState::Idle
    }
}

/// Where a player's distance along one axis falls against the two thresholds: the
/// larger one that starts a movement and the smaller one that keeps it going, on the
/// positive and on the negative side.
#[derive(Debug, Clone, Copy, PartialEq, Eq, Structural)]
pub enum AxisReading {
    /// Below the negated start threshold.
    NegativeStart,
    /// Below the negated keep threshold, not below the negated start threshold.
    NegativeKeep,
    /// Within the keep threshold on both sides.
    Within,
    /// Above the keep threshold, not above the start threshold.
    PositiveKeep,
    /// Above the start threshold.
    PositiveStart,
}

impl AxisReading {
    /// The distance exceeds the start threshold.
    #[verifier::allow_in_spec]
    pub fn above_on(self) -> bool
        returns
            self is PositiveStart,
    {
        match self {
            AxisReading::PositiveStart => true,
            _ => false,
        }
    }

    /// The distance exceeds the keep threshold.
    #[verifier::allow_in_spec]
    pub fn above_off(self) -> bool
        returns
            self is PositiveStart || self is PositiveKeep,
    {
        match self {
            AxisReading::PositiveStart => true,
            AxisReading::PositiveKeep => true,
            _ => false,
        }
    }

    /// The distance is below the negated start threshold.
    #[verifier::allow_in_spec]
    pub fn below_on(self) -> bool
        returns
            self is NegativeStart,
    {
        match self {
            AxisReading::NegativeStart => true,
            _ => false,
        }
    }

    /// The distance is below the negated keep threshold.
    #[verifier::allow_in_spec]
    pub fn below_off(self) -> bool
        returns
            self is NegativeStart || self is NegativeKeep,
    {
        match self {
            AxisReading::NegativeStart => true,
            AxisReading::NegativeKeep => true,
            _ => false,
        }
    }
}

/// Walking forward or back after reading `f`: a movement already under way continues
/// past the keep threshold, a new one needs the start threshold; forward wins.
pub open spec fn move_spec(state: MoveState, f: AxisReading) -> (MoveState, bool, bool) {
    let forward_on = if state == MoveState::Forward {
        f.above_off()
    } else {
        f.above_on()
    };
    let back_on = if state == MoveState::Back {
        f.below_off()
    } else {
        f.below_on()
    };
    let next = if forward_on {
        MoveState::Forward
    } else if back_on {
        MoveState::Back
    } else {
        MoveState::Idle
    };
    (next, forward_on, back_on)
}

/// Stepping sideways after reading `r` (positive to the right), with the same
/// thresholds; right wins.
pub open spec fn strafe_spec(state: StrafeState, r: AxisReading) -> (StrafeState, bool, bool) {
    let right_on = if state == StrafeState::Right {
        r.above_off()
    } else {
        r.above_on()
    };
    let left_on = if state == StrafeState::Left {
        r.below_off()
    } else {
        r.below_on()
    };
    let next = if right_on {
        StrafeState::Right
    } else if left_on {
        StrafeState::Left
    } else {
        StrafeState::Idle
    };
    (next, right_on, left_on)
}

/// The walking state after reading `f`, and whether forward and back are held.
pub fn move_step(state: MoveState, f: AxisReading) -> (res: (MoveState, bool, bool))
    ensures
        res == move_spec(state, f),
        !(res.1 && res.2),
{
    let forward_on = if state == MoveState::Forward {
        f.above_off()
    } else {
        f.above_on()
    };
    let back_on = if state == MoveState::Back {
        f.below_off()
    } else {
        f.below_on()
    };
    let next = if forward_on {
        MoveState::Forward
    } else if back_on {
        MoveState::Back
    } else {
        MoveState::Idle
    };
    (next, forward_on, back_on)
}

/// The stepping state after reading `r`, and whether right and left are held.
pub fn strafe_step(state: StrafeState, r: AxisReading) -> (res: (StrafeState, bool, bool))
    ensures
        res == strafe_spec(state, r),
        !(res.1 && res.2),
{
    let right_on = if state == StrafeState::Right {
        r.above_off()
    } else {
        r.above_on()
    };
    let left_on = if state == StrafeState::Left {
        r.below_off()
    } else {
        r.below_on()
    };
    let next = if right_on {
        StrafeState::Right
    } else if left_on {
        StrafeState::Left
    } else {
        StrafeState::Idle
    };
    (next, right_on, left_on)
}

/// The keys a movement sets: forward and back, then right and left.
pub open spec fn movement_keys(forward: bool, back: bool, right: bool, left: bool) -> Seq<
    (Input, bool),
> {
    seq![
        (Input::Up, forward),
        (Input::Down, back),
        (Input::StrafeRight, right),
        (Input::StrafeLeft, left),
    ]
}

/// `held` with `key` pressed or released.
pub open spec fn set_key(held: Set<Input>, key: Input, pressed: bool) -> Set<Input> {
    if pressed {
        held.insert(key)
    } else {
        held.remove(key)
    }
}

/// The keys held after setting `keys` in order, starting from `held`.
pub open spec fn held_after(held: Set<Input>, keys: Seq<(Input, bool)>) -> Set<Input>
    decreases keys.len(),
{
    if keys.len() == 0 {
        held
    } else {
        held_after(set_key(held, keys[0].0, keys[0].1), keys.drop_first())
    }
}

/// In a running session, setting keys leaves exactly the keys set last held.
proof fn lemma_active_changes_held(held: Set<Input>, keys: Seq<(Input, bool)>)
    ensures
        input_changes(true, held, keys).0 == held_after(held, keys),
    decreases keys.len(),
{
    if keys.len() > 0 {
        let (input, pressed) = keys[0];
        if held.contains(input) == pressed {
            assert(set_key(held, input, pressed) =~= held);
        }
        lemma_active_changes_held(set_key(held, input, pressed), keys.drop_first());
    }
}

/// Handles one movement of the player: updates both axis states and presses or
/// releases the four movement keys. Returns the new states and the commands for the
/// worker.
pub fn controller_move(
    session: &mut DoomSession,
    move_state: MoveState,
    strafe_state: StrafeState,
    f: AxisReading,
    r: AxisReading,
) -> (res: (MoveState, StrafeState, Vec<ServerCommand>))
    requires
        old(session).wf(),
    ensures
        final(session).wf(),
        final(session).id_spec() == old(session).id_spec(),
        final(session).active_spec() == old(session).active_spec(),
        ({
            let m = move_spec(move_state, f);
            let s = strafe_spec(strafe_state, r);
            let c = input_changes(
                old(session).active_spec(),
                old(session).held(),
                movement_keys(m.1, m.2, s.1, s.2),
            );
            &&& res.0 == m.0
            &&& res.1 == s.0
            &&& final(session).held() == c.0
            &&& res.2@ == c.1
        }),
        old(session).active_spec() ==> {
            let m = move_spec(move_state, f);
            let s = strafe_spec(strafe_state, r);
            &&& final(session).held().contains(Input::Up) == m.1
            &&& final(session).held().contains(Input::Down) == m.2
            &&& final(session).held().contains(Input::StrafeRight) == s.1
            &&& final(session).held().contains(Input::StrafeLeft) == s.2
        },
        old(session).active_spec() ==> !(final(session).held().contains(
            Input::Up,
        ) && final(session).held().contains(Input::Down)),
        old(session).active_spec() ==> !(final(session).held().contains(
            Input::StrafeRight,
        ) && final(session).held().contains(Input::StrafeLeft)),
{
    let (next_move, forward_on, back_on) = move_step(move_state, f);
    let (next_strafe, right_on, left_on) = strafe_step(strafe_state, r);
    let mut keys: Vec<(Input, bool)> = Vec::new();
    keys.push((Input::Up, forward_on));
    keys.push((Input::Down, back_on));
    keys.push((Input::StrafeRight, right_on));
    keys.push((Input::StrafeLeft, left_on));
    assert(keys@ =~= movement_keys(forward_on, back_on, right_on, left_on));
    let cmds = session.set_inputs(&keys);
    proof {
        if old(session).active_spec() {
            let keys4 = movement_keys(forward_on, back_on, right_on, left_on);
            lemma_active_changes_held(old(session).held(), keys4);
            reveal_with_fuel(held_after, 5);
            assert(keys4.drop_first().drop_first().drop_first().drop_first() =~= Seq::<(Input, bool)>::empty());
        }
    }
    (next_move, next_strafe, cmds)
}

/// The keys released when the player stands still.
pub open spec fn stop_keys() -> Seq<(Input, bool)> {
    seq![(Input::Up, false), (Input::Down, false), (Input::Left, false), (Input::Right, false)]
}

/// Releases the movement keys when the player has not moved for more than ten ticks.
pub fn controller_stop(session: &mut DoomSession, current_tick: i64, last_tick: i64) -> (res: Vec<
    ServerCommand,
>)
    requires
        old(session).wf(),
        last_tick <= i64::MAX - 10,
    ensures
        final(session).wf(),
        final(session).id_spec() == old(session).id_spec(),
        final(session).active_spec() == old(session).active_spec(),
        current_tick > last_tick + 10 ==> ({
            let c = input_changes(old(session).active_spec(), old(session).held(), stop_keys());
            &&& final(session).held() == c.0
            &&& res@ == c.1
        }),
        current_tick <= last_tick + 10 ==> final(session).held() == old(session).held()
            && res@.len() == 0,
        old(session).active_spec() && current_tick > last_tick + 10 ==> {
            &&& !final(session).held().contains(Input::Up)
            &&& !final(session).held().contains(Input::Down)
            &&& !final(session).held().contains(Input::Left)
            &&& !final(session).held().contains(Input::Right)
            &&& forall|k: Input|
                k != Input::Up && k != Input::Down && k != Input::Left && k != Input::Right ==> (
                #[trigger] final(session).held().contains(k) == old(session).held().contains(k))
        },
{
    if current_tick > last_tick + 10 {
        let mut keys: Vec<(Input, bool)> = Vec::new();
        keys.push((Input::Up, false));
        keys.push((Input::Down, false));
        keys.push((Input::Left, false));
        keys.push((Input::Right, false));
        assert(keys@ =~= stop_keys());
        proof {
            if old(session).active_spec() {
                law_stop_releases_movement(old(session).held());
            }
        }
        session.set_inputs(&keys)
    } else {
        Vec::new()
    }
}

/// The keys that sneaking sets: shoot and enter, both pressed or both released.
pub open spec fn sneak_keys(down: bool) -> Seq<(Input, bool)> {
    seq![(Input::Shoot, down), (Input::Enter, down)]
}

/// Presses shoot and enter while the player sneaks, and releases them after.
pub fn controller_sneak(session: &mut DoomSession, down: bool) -> (res: Vec<ServerCommand>)
    requires
        old(session).wf(),
    ensures
        final(session).wf(),
        final(session).id_spec() == old(session).id_spec(),
        final(session).active_spec() == old(session).active_spec(),
        ({
            let c = input_changes(old(session).active_spec(), old(session).held(), sneak_keys(down));
            &&& final(session).held() == c.0
            &&& res@ == c.1
        }),
{
    let mut keys: Vec<(Input, bool)> = Vec::new();
    keys.push((Input::Shoot, down));
    keys.push((Input::Enter, down));
    assert(keys@ =~= sneak_keys(down));
    session.set_inputs(&keys)
}

/// What to do with a player's controller when the session's active state changes.
#[derive(Debug, Clone, Copy, PartialEq, Eq, Structural)]
pub enum ControllerChange {
    /// The session resumed: start controlling from the player's current position.
    Insert,
    /// The session paused: stop controlling.
    Remove,
    /// Nothing changed.
    Keep,
}

/// Runs the session while the player holds a map showing it, and pauses it otherwise.
/// Returns what to do with the player's controller, and the command for the worker.
pub fn update_session_active_from_held_item(
    session: &mut DoomSession,
    inventory: &Inventory,
    selected: u8,
) -> (res: (ControllerChange, Option<ServerCommand>))
    requires
        inventory@.len() >= HOTBAR_SIZE + 1,
        hotbar_index(inventory@.len() as int, selected as int) < inventory@.len(),
    ensures
        ({
            let active = shows_session(
                inventory@[hotbar_index(inventory@.len() as int, selected as int)],
                old(session).id_spec(),
            );
            &&& final(session).active_spec() == active
            &&& final(session).id_spec() == old(session).id_spec()
            &&& final(session).pressed() == old(session).pressed()
            &&& res.0 == if old(session).active_spec() == active {
                ControllerChange::Keep
            } else if active {
                ControllerChange::Insert
            } else {
                ControllerChange::Remove
            }
            &&& res.1 == if old(session).active_spec() == active {
                None::<ServerCommand>
            } else {
                Some(ServerCommand::State { active })
            }
        }),
{
    let active = should_be_active(session.id(), inventory, selected);
    let (changed, cmd) = session.set_active(active);
    let change = if changed {
        if active {
            ControllerChange::Insert
        } else {
            ControllerChange::Remove
        }
    } else {
        ControllerChange::Keep
    };
    (change, cmd)
}

/// One movement never presses opposite directions: whatever the readings and the
/// axis states before, a running session that takes the movement's keys holds
/// neither forward and back together nor right and left together.
pub proof fn law_movement_never_presses_opposites(
    held: Set<Input>,
    move_state: MoveState,
    strafe_state: StrafeState,
    f: AxisReading,
    r: AxisReading,
)
    ensures
        ({
            let m = move_spec(move_state, f);
            let s = strafe_spec(strafe_state, r);
            let after = input_changes(true, held, movement_keys(m.1, m.2, s.1, s.2)).0;
            &&& !(m.1 && m.2)
            &&& !(s.1 && s.2)
            &&& !(after.contains(Input::Up) && after.contains(Input::Down))
            &&& !(after.contains(Input::StrafeRight) && after.contains(Input::StrafeLeft))
        }),
{
    let m = move_spec(move_state, f);
    let s = strafe_spec(strafe_state, r);
    let keys4 = movement_keys(m.1, m.2, s.1, s.2);
    lemma_active_changes_held(held, keys4);
    reveal_with_fuel(held_after, 5);
    assert(keys4.drop_first().drop_first().drop_first().drop_first() =~= Seq::<(Input, bool)>::empty());
}

/// Standing still releases every movement key: after the stop keys, a running
/// session holds none of forward, back, left and right, and every other key as
/// before.
pub proof fn law_stop_releases_movement(held: Set<Input>)
    ensures
        ({
            let after = input_changes(true, held, stop_keys()).0;
            &&& !after.contains(Input::Up)
            &&& !after.contains(Input::Down)
            &&& !after.contains(Input::Left)
            &&& !after.contains(Input::Right)
            &&& forall|k: Input|
                k != Input::Up && k != Input::Down && k != Input::Left && k != Input::Right ==> (
                #[trigger] after.contains(k) == held.contains(k))
        }),
{
    let keys4 = stop_keys();
    lemma_active_changes_held(held, keys4);
    reveal_with_fuel(held_after, 5);
    assert(keys4.drop_first().drop_first().drop_first().drop_first() =~= Seq::<(Input, bool)>::empty());
}

} // verus!
