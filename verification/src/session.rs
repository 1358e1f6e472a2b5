//! The server's view of one DOOM session: its id, whether it runs, and which keys are held.
use vstd::prelude::*;
use crate::item::{ItemKind, ItemStack, ItemStackModel};
use crate::nbt::{Compound, Value, ValueModel};
use crate::protocol::{CmdBundle, Input, ServerCommand};

verus! {

/// The name under which an item's tagged data stores the session it shows.
pub open spec fn map_key() -> Seq<char> {
    seq!['m', 'a', 'p']
}

/// The tagged data of a map item that shows session `id`.
pub open spec fn map_tag_spec(id: i32) -> Seq<(Seq<char>, ValueModel)> {
    seq![(map_key(), ValueModel::Int(id))]
}

/// A map item that shows session `id`.
pub open spec fn map_view_spec(id: i32) -> ItemStackModel {
    ItemStackModel { item: ItemKind::FilledMap, count: 1, nbt: Some(map_tag_spec(id)) }
}

/// Tagged data that binds a map item to session `id`.
pub fn map_tag(id: i32) -> (res: Compound)
    ensures
        res@ == map_tag_spec(id),
{
    let mut tag = Compound::new();
    let key = "map".to_owned();
    proof {
        reveal_strlit("map");
    }
    let ghost empty = tag@;
    assert(key@ == map_key());
    let previous = tag.insert(key, Value::Int(id));
    assert(crate::nbt::lookup(empty, map_key()) is None);
    assert(previous is None);
    assert(tag@ =~= map_tag_spec(id));
    tag
}

/// A map item that shows session `id`.
pub fn map_view(id: i32) -> (res: ItemStack)
    ensures
        res@ == map_view_spec(id),
{
    ItemStack::new(ItemKind::FilledMap, 1, Some(map_tag(id)))
}

/// Setting the keys `keys` in order, each pressed or released, starting from the
/// held keys `held` of a session that runs (`active`) or not: the keys held after,
/// and the commands sent for the keys whose state changed, in order.
pub open spec fn input_changes(active: bool, held: Set<Input>, keys: Seq<(Input, bool)>) -> (
    Set<Input>,
    Seq<ServerCommand>,
)
    decreases keys.len(),
{
    if keys.len() == 0 {
        (held, Seq::empty())
    } else {
        let (input, pressed) = keys[0];
        if !active || held.contains(input) == pressed {
            input_changes(active, held, keys.drop_first())
        } else {
            let next = if pressed {
                held.insert(input)
            } else {
                held.remove(input)
            };
            let r = input_changes(active, next, keys.drop_first());
            (r.0, seq![ServerCommand::Input { input, pressed }] + r.1)
        }
    }
}

/// The server's state of one DOOM session. Session ids are negative, so that the map
/// items that show a session never clash with ordinary maps.
#[derive(Debug)]
pub struct DoomSession {
    id: i32,
    /// Whether the session is currently active and running.
    pub active: bool,
    /// The keys currently held down.
    pressed_keys: Vec<Input>,
}

impl DoomSession {
    /// The keys currently held down, in the order they were pressed.
    pub closed spec fn pressed(&self) -> Seq<Input> {
        self.pressed_keys@
    }

    /// Whether the session runs.
    pub closed spec fn active_spec(&self) -> bool {
        self.active
    }

    /// The session's id.
    pub closed spec fn id_spec(&self) -> i32 {
        self.id
    }

    /// The keys currently held down, as a set.
    pub open spec fn held(&self) -> Set<Input> {
        Set::new(|k: Input| self.pressed().contains(k))
    }

    /// No key is recorded as held twice.
    pub open spec fn wf(&self) -> bool {
        self.pressed().no_duplicates()
    }

    /// A paused session with no key held.
    pub fn new(id: i32) -> (res: DoomSession)
        ensures
            res.id_spec() == id,
            !res.active_spec(),
            res.pressed() == Seq::<Input>::empty(),
            res.wf(),
    {
        DoomSession { id, active: false, pressed_keys: Vec::new() }
    }

    /// The session's id.
    pub fn id(&self) -> (res: i32)
        ensures
            res == self.id_spec(),
    {
        self.id
    }

    /// Whether the session runs.
    pub fn is_active(&self) -> (res: bool)
        ensures
            res == self.active_spec(),
    {
        self.active
    }

    fn is_pressed(&self, input: Input) -> (res: bool)
        ensures
            res == self.pressed().contains(input),
    {
        let mut i: usize = 0;
        while i < self.pressed_keys.len()
            invariant
                i <= self.pressed_keys.len(),
                forall|j: int| 0 <= j < i ==> self.pressed_keys@[j] != input,
            decreases self.pressed_keys.len() - i,
        {
            if self.pressed_keys[i] == input {
                return true;
            }
            i = i + 1;
        }
        false
    }

    /// Presses or releases `input`. Returns the command that tells the worker, or
    /// `None` when the session is paused or the key is already in that state.
    pub fn set_input(&mut self, input: Input, pressed: bool) -> (res: Option<ServerCommand>)
        requires
            old(self).wf(),
        ensures
            final(self).wf(),
            final(self).id_spec() == old(self).id_spec(),
            final(self).active_spec() == old(self).active_spec(),
            !old(self).active_spec() || old(self).pressed().contains(input) == pressed ==> res is None
                && final(self).pressed() == old(self).pressed(),
            old(self).active_spec() && old(self).pressed().contains(input) != pressed ==> res == Some(
                ServerCommand::Input { input, pressed },
            ),
            old(self).active_spec() && !old(self).pressed().contains(input) && pressed ==> final(self).pressed() == old(self).pressed().push(input),
            final(self).held() == if old(self).active_spec() {
                if pressed {
                    old(self).held().insert(input)
                } else {
                    old(self).held().remove(input)
                }
            } else {
                old(self).held()
            },
            old(self).active_spec() && old(self).pressed().contains(input) && !pressed ==> exists|idx: int|
                0 <= idx < old(self).pressed().len() && old(self).pressed()[idx] == input && final(self).pressed() == old(self).pressed().remove(idx),
    {
        if !self.active || self.is_pressed(input) == pressed {
            proof {
                if self.active {
                    if pressed {
                        assert(self.held() =~= old(self).held().insert(input));
                    } else {
                        assert(self.held() =~= old(self).held().remove(input));
                    }
                }
            }
            return None;
        }
        if pressed {
            self.pressed_keys.push(input);
            proof {
                let before = old(self).pressed_keys@;
                assert forall|k: Input| self.pressed().contains(k) <==> before.contains(k) || k == input by {
                    if before.contains(k) {
                        let j = choose|j: int| 0 <= j < before.len() && before[j] == k;
                        assert(self.pressed_keys@[j] == k);
                    }
                    if k == input {
                        assert(self.pressed_keys@[before.len() as int] == k);
                    }
                }
                assert(self.held() =~= old(self).held().insert(input));
            }
        } else {
            let mut i: usize = 0;
            while self.pressed_keys[i] != input
                invariant
                    i < self.pressed_keys.len(),
                    self.pressed_keys@ == old(self).pressed_keys@,
                    self.pressed_keys@.contains(input),
                    forall|j: int| 0 <= j < i ==> self.pressed_keys@[j] != input,
                decreases self.pressed_keys.len() - i,
            {
                i = i + 1;
                assert(i < self.pressed_keys.len()) by {
                    let k = choose|k: int| 0 <= k < self.pressed_keys@.len() && self.pressed_keys@[k] == input;
                    assert(k >= i);
                }
            }
            let ghost idx = i as int;
            self.pressed_keys.remove(i);
            assert(self.pressed_keys@ == old(self).pressed_keys@.remove(idx));
            proof {
                let before = old(self).pressed_keys@;
                assert forall|k: Input| self.pressed().contains(k) <==> before.contains(k) && k != input by {
                    if before.contains(k) && k != input {
                        let j = choose|j: int| 0 <= j < before.len() && before[j] == k;
                        if j < idx {
                            assert(self.pressed_keys@[j] == k);
                        } else {
                            assert(self.pressed_keys@[j - 1] == k);
                        }
                    }
                    if self.pressed().contains(k) {
                        let j = choose|j: int| 0 <= j < self.pressed_keys@.len() && self.pressed_keys@[j] == k;
                        if j < idx {
                            assert(before[j] == k);
                        } else {
                            assert(before[j + 1] == k);
                        }
                    }
                }
                assert(self.held() =~= old(self).held().remove(input));
            }
            assert(self.pressed_keys@.no_duplicates());
        }
        Some(ServerCommand::Input { input, pressed })
    }

    /// Applies `keys` in order, each as by `set_input`, and returns the commands that
    /// tell the worker, in order.
    pub fn set_inputs(&mut self, keys: &Vec<(Input, bool)>) -> (res: Vec<ServerCommand>)
        requires
            old(self).wf(),
        ensures
            final(self).wf(),
            final(self).id_spec() == old(self).id_spec(),
            final(self).active_spec() == old(self).active_spec(),
            ({
                let r = input_changes(old(self).active_spec(), old(self).held(), keys@);
                &&& final(self).held() == r.0
                &&& res@ == r.1
            }),
    {
        let mut out: Vec<ServerCommand> = Vec::new();
        let mut i: usize = 0;
        let ghost total = input_changes(old(self).active_spec(), old(self).held(), keys@);
        assert(keys@.skip(0) =~= keys@);
        assert(out@ + total.1 =~= total.1);
        while i < keys.len()
            invariant
                i <= keys.len(),
                self.wf(),
                self.id_spec() == old(self).id_spec(),
                self.active_spec() == old(self).active_spec(),
                ({
                    let r = input_changes(self.active_spec(), self.held(), keys@.skip(i as int));
                    &&& r.0 == total.0
                    &&& out@ + r.1 == total.1
                }),
            decreases keys.len() - i,
        {
            let (input, pressed) = keys[i];
            let ghost held_before = self.held();
            let ghost out_before = out@;
            assert(keys@.skip(i as int).drop_first() =~= keys@.skip(i + 1));
            match self.set_input(input, pressed) {
                Some(cmd) => {
                    out.push(cmd);
                    assert(out_before.push(cmd) + input_changes(
                        self.active_spec(),
                        self.held(),
                        keys@.skip(i + 1),
                    ).1 =~= out_before + (seq![cmd] + input_changes(
                        self.active_spec(),
                        self.held(),
                        keys@.skip(i + 1),
                    ).1));
                },
                None => {},
            }
            i = i + 1;
        }
        assert(out@ + Seq::<ServerCommand>::empty() =~= out@);
        out
    }

    /// Flips `input` between pressed and released.
    pub fn toggle_input(&mut self, input: Input) -> (res: Option<ServerCommand>)
        requires
            old(self).wf(),
        ensures
            final(self).wf(),
            final(self).id_spec() == old(self).id_spec(),
            final(self).active_spec() == old(self).active_spec(),
            !old(self).active_spec() ==> res is None && final(self).pressed() == old(self).pressed(),
            old(self).active_spec() ==> res == Some(
                ServerCommand::Input { input, pressed: !old(self).pressed().contains(input) },
            ),
            old(self).active_spec() ==> (final(self).pressed().contains(input) <==> !old(self).pressed().contains(input)),
            forall|k: Input| k != input ==> (final(self).pressed().contains(k) <==> old(self).pressed().contains(k)),
            old(self).active_spec() && !old(self).pressed().contains(input) ==> final(self).pressed() == old(self).pressed().push(input),
            old(self).active_spec() && old(self).pressed().contains(input) ==> exists|idx: int|
                0 <= idx < old(self).pressed().len() && old(self).pressed()[idx] == input && final(self).pressed() == old(self).pressed().remove(idx),
            final(self).held() == if old(self).active_spec() {
                if old(self).pressed().contains(input) {
                    old(self).held().remove(input)
                } else {
                    old(self).held().insert(input)
                }
            } else {
                old(self).held()
            },
    {
        let is_pressed = self.is_pressed(input);
        let ghost before = self.pressed();
        let res = self.set_input(input, !is_pressed);
        proof {
            if self.active_spec() && is_pressed {
                let idx = choose|idx: int|
                    0 <= idx < before.len() && before[idx] == input && self.pressed()
                        == before.remove(idx);
                assert forall|k: Input| self.pressed().contains(k) <==> before.contains(k) && k != input by {
                    if before.contains(k) && k != input {
                        let j = choose|j: int| 0 <= j < before.len() && before[j] == k;
                        if j < idx {
                            assert(self.pressed()[j] == k);
                        } else {
                            assert(self.pressed()[j - 1] == k);
                        }
                    }
                }
            }
            if self.active_spec() && !is_pressed {
                assert(self.pressed()[before.len() as int] == input);
                assert forall|k: Input| before.contains(k) implies self.pressed().contains(k) by {
                    let j = choose|j: int| 0 <= j < before.len() && before[j] == k;
                    assert(self.pressed()[j] == k);
                }
            }
        }
        res
    }

    /// Pauses or resumes the session. Returns whether the active state changed, and
    /// the command that tells the worker when it did.
    pub fn set_active(&mut self, active: bool) -> (res: (bool, Option<ServerCommand>))
        ensures
            final(self).active_spec() == active,
            final(self).id_spec() == old(self).id_spec(),
            final(self).pressed() == old(self).pressed(),
            res.0 == (old(self).active_spec() != active),
            res.1 == if res.0 {
                Some(ServerCommand::State { active })
            } else {
                None::<ServerCommand>
            },
    {
        if self.active == active {
            return (false, None);
        }
        self.active = active;
        (true, Some(ServerCommand::State { active }))
    }

    /// The command that turns the view by `delta`.
    pub fn set_mouse_delta(&self, delta: i16) -> (res: ServerCommand)
        ensures
            res == ServerCommand::RotationDelta(delta),
    {
        ServerCommand::RotationDelta(delta)
    }

    /// The command that hands the worker the commands of one tick.
    pub fn send_cmd_bundle(&self, bundle: CmdBundle) -> (res: ServerCommand)
        ensures
            res == ServerCommand::NetCmdBundle(bundle),
    {
        ServerCommand::NetCmdBundle(bundle)
    }

    /// The command that tells the worker which player slot is its own.
    pub fn set_local_player(&self, id: i32) -> (res: ServerCommand)
        ensures
            res == (ServerCommand::NetSetLocal { id }),
    {
        ServerCommand::NetSetLocal { id }
    }

    /// The command that adds a player to the worker's game.
    pub fn add_player(&self, player_id: i32) -> (res: ServerCommand)
        ensures
            res == (ServerCommand::NetJoin { id: player_id }),
    {
        ServerCommand::NetJoin { id: player_id }
    }

    /// Binds a map to view this session.
    pub fn bind_map(&self, map: &mut ItemStack)
        ensures
            final(map)@ == (ItemStackModel { nbt: Some(map_tag_spec(self.id_spec())), ..old(map)@ }),
    {
        map.nbt = Some(map_tag(self.id));
    }
}

/// Pressing a key that is already held, or releasing one that is not, sends nothing
/// and changes nothing.
pub proof fn law_set_input_idempotent(active: bool, held: Set<Input>, input: Input)
    ensures
        input_changes(active, held, seq![(input, held.contains(input))]) == (
            held,
            Seq::<ServerCommand>::empty(),
        ),
{
    let keys = seq![(input, held.contains(input))];
    assert(keys[0] == (input, held.contains(input)));
    assert(keys.drop_first() =~= Seq::<(Input, bool)>::empty());
    assert(input_changes(active, held, Seq::<(Input, bool)>::empty()) == (
        held,
        Seq::<ServerCommand>::empty(),
    ));
}

/// Toggling a key twice in a running session leaves the held keys as they were, and
/// sends one press and one release.
pub proof fn law_toggle_twice_restores(held: Set<Input>, input: Input)
    ensures
        ({
            let was = held.contains(input);
            let r = input_changes(true, held, seq![(input, !was), (input, was)]);
            &&& r.0 == held
            &&& r.1 == seq![
                ServerCommand::Input { input, pressed: !was },
                ServerCommand::Input { input, pressed: was },
            ]
        }),
{
    let was = held.contains(input);
    let keys = seq![(input, !was), (input, was)];
    let mid = if !was {
        held.insert(input)
    } else {
        held.remove(input)
    };
    assert(keys.drop_first() =~= seq![(input, was)]);
    assert(keys.drop_first().drop_first() =~= Seq::<(Input, bool)>::empty());
    let last = if was {
        mid.insert(input)
    } else {
        mid.remove(input)
    };
    assert(last =~= held);
    assert(keys[0] == (input, !was));
    assert(keys.drop_first()[0] == (input, was));
    assert(mid.contains(input) == !was);
    assert(input_changes(true, last, Seq::<(Input, bool)>::empty()) == (
        last,
        Seq::<ServerCommand>::empty(),
    ));
    assert(seq![ServerCommand::Input { input, pressed: was }] + Seq::<ServerCommand>::empty()
        =~= seq![ServerCommand::Input { input, pressed: was }]);
    assert(input_changes(true, mid, seq![(input, was)]) == (
        last,
        seq![ServerCommand::Input { input, pressed: was }],
    ));
    assert(seq![ServerCommand::Input { input, pressed: !was }] + seq![
        ServerCommand::Input { input, pressed: was },
    ] =~= seq![
        ServerCommand::Input { input, pressed: !was },
        ServerCommand::Input { input, pressed: was },
    ]);
}

/// A paused session ignores every key: nothing is sent and nothing changes.
pub proof fn law_paused_session_ignores_keys(held: Set<Input>, keys: Seq<(Input, bool)>)
    ensures
        input_changes(false, held, keys) == (held, Seq::<ServerCommand>::empty()),
    decreases keys.len(),
{
    if keys.len() > 0 {
        law_paused_session_ignores_keys(held, keys.drop_first());
    }
}

} // verus!
