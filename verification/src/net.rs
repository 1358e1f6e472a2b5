//! Parties of players who play one networked game, and the tick stream between them.
use vstd::prelude::*;
use crate::directory::Entity;
use crate::protocol::{CmdBundle, MAX_PLAYERS, ServerCommand, TicCmd, zero_ticcmd};

verus! {

/// The id of a party, by the bits of its UUID.
#[derive(Debug, Clone, Copy, PartialEq, Eq, Structural)]
pub struct DoomPartyId(pub u128);

/// The tick counter and the latest command of each player slot of a party.
#[derive(Debug, Clone, Copy, PartialEq, Eq)]
pub struct DoomTickStream {
    pub next_tic: i32,
    pub present: [bool; MAX_PLAYERS],
    pub last_cmd: [TicCmd; MAX_PLAYERS],
    pub pending: [TicCmd; MAX_PLAYERS],
}

impl Default for DoomTickStream {
    fn default() -> (res: Self)
        ensures
            res.next_tic == 0,
            forall|i: int| 0 <= i < MAX_PLAYERS ==> !res.present[i],
            forall|i: int| 0 <= i < MAX_PLAYERS ==> res.last_cmd[i] == zero_ticcmd(),
            forall|i: int| 0 <= i < MAX_PLAYERS ==> res.pending[i] == zero_ticcmd(),
    {
        let z = TicCmd::default();
        DoomTickStream {
            next_tic: 0,
            present: [false, false, false, false],
            last_cmd: [z, z, z, z],
            pending: [z, z, z, z],
        }
    }
}

/// `b` is the bundle a party sends for its next tick from `stream`: the tick number,
/// the present slots, and each present slot's latest command (zeros for an absent slot).
pub open spec fn is_next_bundle(stream: DoomTickStream, b: CmdBundle) -> bool {
    &&& b.maketic == stream.next_tic
    &&& b.present == stream.present
    &&& forall|p: int|
        0 <= p < MAX_PLAYERS ==> #[trigger] b.cmds@[p] == if stream.present@[p] {
            stream.pending@[p]
        } else {
            zero_ticcmd()
        }
}

impl DoomTickStream {
    /// Records the latest command of slot `slot`, stamped with that slot as its player.
    pub fn collect_cmd(&mut self, slot: usize, cmd: TicCmd)
        requires
            slot < MAX_PLAYERS,
        ensures
            final(self).pending@ == old(self).pending@.update(
                slot as int,
                TicCmd { player_id: slot as i32, ..cmd },
            ),
            final(self).next_tic == old(self).next_tic,
            final(self).present == old(self).present,
            final(self).last_cmd == old(self).last_cmd,
    {
        let mut stamped = cmd;
        stamped.player_id = slot as i32;
        self.pending[slot] = stamped;
        assert(self.pending@ =~= old(self).pending@.update(slot as int, TicCmd { player_id: slot as i32, ..cmd }));
    }

    /// The bundle of the next tick, after which the tick counter advances.
    pub fn next_bundle(&mut self) -> (res: CmdBundle)
        requires
            old(self).next_tic < i32::MAX,
        ensures
            is_next_bundle(*old(self), res),
            final(self).next_tic == old(self).next_tic + 1,
            final(self).present == old(self).present,
            final(self).last_cmd == old(self).last_cmd,
            final(self).pending == old(self).pending,
    {
        let z = TicCmd::default();
        let mut cmds = [z, z, z, z];
        let mut p: usize = 0;
        while p < MAX_PLAYERS
            invariant
                p <= MAX_PLAYERS,
                forall|q: int|
                    0 <= q < p ==> #[trigger] cmds@[q] == if self.present@[q] {
                        self.pending@[q]
                    } else {
                        zero_ticcmd()
                    },
            decreases MAX_PLAYERS - p,
        {
            cmds[p] = if self.present[p] {
                self.pending[p]
            } else {
                TicCmd::default()
            };
            p = p + 1;
        }
        let bundle = CmdBundle { maketic: self.next_tic, present: self.present, cmds };
        self.next_tic = self.next_tic + 1;
        bundle
    }
}

/// An invitation to join a party.
#[derive(Debug, Clone, Copy, PartialEq, Eq)]
pub struct DoomPartyInvite {
    pub target: Entity,
    pub created_tick: i64,
}

/// A player's membership of a party: the party and the player's slot in its game.
#[derive(Debug, Clone, Copy, PartialEq, Eq, Structural)]
pub struct DoomPartyMember {
    pub group: Entity,
    pub slot: usize,
}

/// A group of players who play one networked game.
#[derive(Debug)]
pub struct DoomParty {
    pub wad: String,
    pub max_players: usize,
    pub started: bool,
    /// Who can start the game.
    pub host: Entity,
    pub invites: Vec<DoomPartyInvite>,
}

/// The members of party `party` among `members`, with a usable slot, in order.
pub open spec fn members_of(party: Entity, members: Seq<(Entity, DoomPartyMember)>) -> Seq<
    (Entity, usize),
> {
    members.filter_map(
        |x: (Entity, DoomPartyMember)|
            if x.1.group == party && x.1.slot < MAX_PLAYERS {
                Some((x.0, x.1.slot))
            } else {
                None
            },
    )
}

proof fn lemma_members_of_slots(party: Entity, members: Seq<(Entity, DoomPartyMember)>)
    ensures
        forall|k: int|
            0 <= k < members_of(party, members).len() ==> #[trigger] members_of(party, members)[k].1
                < MAX_PLAYERS,
    decreases members.len(),
{
    if members.len() > 0 {
        lemma_members_of_slots(party, members.drop_last());
        let rest = members_of(party, members.drop_last());
        let m = members.last().1;
        if m.group == party && m.slot < MAX_PLAYERS {
            assert(members_of(party, members) == rest + seq![(members.last().0, m.slot)]);
        } else {
            assert(members_of(party, members) == rest);
        }
    }
}

/// The slots of party `party` that some member among `members` holds.
pub open spec fn presence_spec(party: Entity, members: Seq<DoomPartyMember>, slot: int) -> bool {
    exists|i: int|
        0 <= i < members.len() && members[i].group == party && members[i].slot == slot
}

/// The commands that start the game for one member in slot `slot`: its own slot,
/// then every present slot, in slot order.
pub open spec fn start_commands_spec(slot: usize, present: Seq<bool>) -> Seq<ServerCommand> {
    seq![ServerCommand::NetSetLocal { id: slot as i32 }] + present_joins(present, MAX_PLAYERS as int)
}

/// The join commands of the present slots among the first `n`, in slot order.
pub open spec fn present_joins(present: Seq<bool>, n: int) -> Seq<ServerCommand>
    decreases n,
{
    if n <= 0 {
        Seq::empty()
    } else if present[n - 1] {
        present_joins(present, n - 1).push(ServerCommand::NetJoin { id: (n - 1) as i32 })
    } else {
        present_joins(present, n - 1)
    }
}

proof fn lemma_present_joins(present: Seq<bool>, n: int, s: i32)
    requires
        0 <= n <= MAX_PLAYERS,
    ensures
        present_joins(present, n).contains(ServerCommand::NetJoin { id: s }) <==> (0 <= s < n
            && present[s as int]),
    decreases n,
{
    broadcast use vstd::seq_lib::lemma_seq_contains_after_push;

    if n > 0 {
        lemma_present_joins(present, n - 1, s);
    } else {
        assert(!Seq::<ServerCommand>::empty().contains(ServerCommand::NetJoin { id: s }));
    }
}

/// The slot a command joins, or -1 for a command that is no join.
pub open spec fn join_slot(c: ServerCommand) -> int {
    match c {
        ServerCommand::NetJoin { id } => id as int,
        _ => -1,
    }
}

proof fn lemma_present_joins_increasing(present: Seq<bool>, n: int)
    requires
        0 <= n <= MAX_PLAYERS,
    ensures
        forall|a: int|
            0 <= a < present_joins(present, n).len() ==> 0 <= #[trigger] join_slot(
                present_joins(present, n)[a],
            ) < n,
        forall|a: int, b: int|
            0 <= a < b < present_joins(present, n).len() ==> #[trigger] join_slot(
                present_joins(present, n)[a],
            ) < #[trigger] join_slot(present_joins(present, n)[b]),
    decreases n,
{
    if n > 0 {
        lemma_present_joins_increasing(present, n - 1);
        let prev = present_joins(present, n - 1);
        let cur = present_joins(present, n);
        if present[n - 1] {
            assert(cur == prev.push(ServerCommand::NetJoin { id: (n - 1) as i32 }));
            assert(join_slot(cur[prev.len() as int]) == n - 1);
            assert forall|a: int| 0 <= a < prev.len() implies cur[a] == prev[a] by {}
        }
    }
}

/// The commands sent after a member's own slot at the start of a game are all
/// joins, in increasing slot order, so no slot is joined twice.
pub proof fn law_start_joins_in_slot_order(present: Seq<bool>)
    ensures
        forall|a: int|
            0 <= a < present_joins(present, MAX_PLAYERS as int).len() ==> 0 <= #[trigger] join_slot(
                present_joins(present, MAX_PLAYERS as int)[a],
            ) < MAX_PLAYERS,
        forall|a: int, b: int|
            0 <= a < b < present_joins(present, MAX_PLAYERS as int).len() ==> #[trigger] join_slot(
                present_joins(present, MAX_PLAYERS as int)[a],
            ) < #[trigger] join_slot(present_joins(present, MAX_PLAYERS as int)[b]),
{
    lemma_present_joins_increasing(present, MAX_PLAYERS as int);
}

/// At the start of a game every member is told to join exactly the present slots:
/// the commands for a member hold a join of slot `s` exactly when `s` is a slot of the
/// game that is present, whatever the member's own slot.
pub proof fn law_start_joins_exactly_present_slots(present: Seq<bool>, slot: usize, s: i32)
    ensures
        present_joins(present, MAX_PLAYERS as int).contains(ServerCommand::NetJoin { id: s })
            <==> (0 <= s < MAX_PLAYERS && present[s as int]),
        start_commands_spec(slot, present).contains(ServerCommand::NetJoin { id: s }) <==> (0 <= s
            < MAX_PLAYERS && present[s as int]),
        start_commands_spec(slot, present)[0] == (ServerCommand::NetSetLocal { id: slot as i32 }),
{
    broadcast use vstd::seq_lib::lemma_seq_concat_contains_all_elements;

    lemma_present_joins(present, MAX_PLAYERS as int, s);
    let head = seq![ServerCommand::NetSetLocal { id: slot as i32 }];
    assert(!head.contains(ServerCommand::NetJoin { id: s })) by {
        if head.contains(ServerCommand::NetJoin { id: s }) {
            let j = choose|j: int| 0 <= j < 1 && head[j] == ServerCommand::NetJoin { id: s };
            assert(j == 0);
        }
    }
}

/// The slots that members of `party` hold.
pub fn party_presence(party: Entity, members: &Vec<DoomPartyMember>) -> (res: [bool; MAX_PLAYERS])
    ensures
        forall|s: int|
            0 <= s < MAX_PLAYERS ==> #[trigger] res@[s] == presence_spec(party, members@, s),
{
    let mut present = [false, false, false, false];
    let mut i: usize = 0;
    while i < members.len()
        invariant
            i <= members.len(),
            forall|s: int|
                0 <= s < MAX_PLAYERS ==> #[trigger] present@[s] == presence_spec(
                    party,
                    members@.take(i as int),
                    s,
                ),
        decreases members.len() - i,
    {
        let m = members[i];
        if m.group == party && m.slot < MAX_PLAYERS {
            present[m.slot] = true;
        }
        proof {
            assert forall|s: int| 0 <= s < MAX_PLAYERS implies #[trigger] present@[s] == presence_spec(
                party,
                members@.take(i + 1),
                s,
            ) by {
                let prev = members@.take(i as int);
                let next = members@.take(i + 1);
                if m.group == party && m.slot == s {
                    assert(next[i as int] == m);
                }
                if presence_spec(party, prev, s) {
                    let k = choose|k: int| 0 <= k < prev.len() && prev[k].group == party && prev[k].slot == s;
                    assert(next[k] == prev[k]);
                }
                if presence_spec(party, next, s) {
                    let k = choose|k: int| 0 <= k < next.len() && next[k].group == party && next[k].slot == s;
                    if k < i {
                        assert(prev[k] == next[k]);
                    }
                }
            }
        }
        i = i + 1;
    }
    assert(members@.take(members.len() as int) =~= members@);
    present
}

/// The pending commands after a started party takes, in order, the first command
/// waiting at each of `firsts`: a member of party `party` with a command has it
/// stored at its slot, stamped with that slot; the others leave `pending` as it is.
pub open spec fn collect_spec(
    pending: Seq<TicCmd>,
    party: Entity,
    firsts: Seq<(DoomPartyMember, Option<TicCmd>)>,
) -> Seq<TicCmd>
    decreases firsts.len(),
{
    if firsts.len() == 0 {
        pending
    } else {
        let prev = collect_spec(pending, party, firsts.drop_last());
        let (m, c) = firsts.last();
        if m.group == party && c is Some {
            prev.update(m.slot as int, TicCmd { player_id: m.slot as i32, ..c->0 })
        } else {
            prev
        }
    }
}

/// Gathers one command per member into a party's tick stream. `firsts` holds, per
/// player, its membership and the first command waiting from its session, if any.
/// A party whose game has not started takes nothing; a started one takes the command
/// of each of its members that has one. Returns, per player, whether its command was
/// taken, so that the caller removes exactly those from the sessions' queues.
pub fn collect_cmds(
    party: &DoomParty,
    party_ent: Entity,
    net: &mut DoomTickStream,
    firsts: &Vec<(DoomPartyMember, Option<TicCmd>)>,
) -> (taken: Vec<bool>)
    requires
        party.started ==> forall|i: int|
            0 <= i < firsts@.len() && (#[trigger] firsts@[i]).0.group == party_ent
                && firsts@[i].1 is Some ==> firsts@[i].0.slot < MAX_PLAYERS,
    ensures
        taken@.len() == firsts@.len(),
        forall|i: int|
            0 <= i < firsts@.len() ==> #[trigger] taken@[i] == (party.started && firsts@[i].0.group
                == party_ent && firsts@[i].1 is Some),
        !party.started ==> *final(net) == *old(net),
        party.started ==> final(net).pending@ == collect_spec(old(net).pending@, party_ent, firsts@),
        final(net).next_tic == old(net).next_tic,
        final(net).present == old(net).present,
        final(net).last_cmd == old(net).last_cmd,
{
    let mut taken: Vec<bool> = Vec::new();
    let mut i: usize = 0;
    while i < firsts.len()
        invariant
            i <= firsts.len(),
            party.started ==> forall|k: int|
                0 <= k < firsts@.len() && (#[trigger] firsts@[k]).0.group == party_ent
                    && firsts@[k].1 is Some ==> firsts@[k].0.slot < MAX_PLAYERS,
            taken@.len() == i,
            forall|k: int|
                0 <= k < i ==> #[trigger] taken@[k] == (party.started && firsts@[k].0.group
                    == party_ent && firsts@[k].1 is Some),
            !party.started ==> *net == *old(net),
            party.started ==> net.pending@ == collect_spec(
                old(net).pending@,
                party_ent,
                firsts@.take(i as int),
            ),
            net.next_tic == old(net).next_tic,
            net.present == old(net).present,
            net.last_cmd == old(net).last_cmd,
        decreases firsts.len() - i,
    {
        let (m, c): (DoomPartyMember, Option<TicCmd>) = firsts[i];
        assert(firsts@.take(i + 1).drop_last() =~= firsts@.take(i as int));
        let mut took = false;
        if party.started && m.group == party_ent {
            match c {
                Some(cmd) => {
                    assert(firsts@[i as int].0.group == party_ent);
                    net.collect_cmd(m.slot, cmd);
                    took = true;
                },
                None => {},
            }
        }
        taken.push(took);
        i = i + 1;
    }
    assert(firsts@.take(firsts.len() as int) =~= firsts@);
    taken
}

/// The entities among `members` that belong to party `party`, in order.
pub open spec fn party_sessions(party: Entity, members: Seq<(Entity, DoomPartyMember)>) -> Seq<
    Entity,
> {
    members.filter_map(
        |x: (Entity, DoomPartyMember)|
            if x.1.group == party {
                Some(x.0)
            } else {
                None
            },
    )
}

/// One tick of a party's game: a party whose game has not started sends nothing and
/// keeps its tick stream; a started one sends its next bundle to every session of its
/// members, in order, and advances its tick counter.
pub fn send_client_ticks(
    party: &DoomParty,
    party_ent: Entity,
    net: &mut DoomTickStream,
    members: &Vec<(Entity, DoomPartyMember)>,
) -> (res: Option<(CmdBundle, Vec<Entity>)>)
    requires
        party.started ==> old(net).next_tic < i32::MAX,
    ensures
        !party.started ==> res is None && *final(net) == *old(net),
        party.started ==> match res {
            Some((bundle, to)) => {
                &&& is_next_bundle(*old(net), bundle)
                &&& to@ == party_sessions(party_ent, members@)
                &&& final(net).next_tic == old(net).next_tic + 1
                &&& final(net).present == old(net).present
                &&& final(net).last_cmd == old(net).last_cmd
                &&& final(net).pending == old(net).pending
            },
            None => false,
        },
{
    if !party.started {
        return None;
    }
    let bundle = net.next_bundle();
    let mut to: Vec<Entity> = Vec::new();
    let mut i: usize = 0;
    while i < members.len()
        invariant
            i <= members.len(),
            to@ == party_sessions(party_ent, members@.take(i as int)),
        decreases members.len() - i,
    {
        let (e, m): (Entity, DoomPartyMember) = members[i];
        assert(members@.take(i + 1).drop_last() =~= members@.take(i as int));
        if m.group == party_ent {
            to.push(e);
        }
        i = i + 1;
    }
    assert(members@.take(members.len() as int) =~= members@);
    Some((bundle, to))
}

impl DoomParty {
    /// Whether slot `slot` lies beyond the party's size.
    pub fn is_full(&self, slot: usize) -> (res: bool)
        ensures
            res == (slot >= if self.max_players < MAX_PLAYERS {
                self.max_players
            } else {
                MAX_PLAYERS
            }),
    {
        let limit: usize = if self.max_players < MAX_PLAYERS {
            self.max_players
        } else {
            MAX_PLAYERS
        };
        slot >= limit
    }

    /// The members of party `party_ent` with a usable slot, in order.
    pub fn list_members(party_ent: Entity, members: &Vec<(Entity, DoomPartyMember)>) -> (res: Vec<
        (Entity, usize),
    >)
        ensures
            res@ == members_of(party_ent, members@),
    {
        let mut out: Vec<(Entity, usize)> = Vec::new();
        let mut i: usize = 0;
        while i < members.len()
            invariant
                i <= members.len(),
                out@ == members_of(party_ent, members@.take(i as int)),
            decreases members.len() - i,
        {
            let (e, m): (Entity, DoomPartyMember) = members[i];
            assert(members@.take(i + 1).drop_last() =~= members@.take(i as int));
            if m.group == party_ent && m.slot < MAX_PLAYERS {
                out.push((e, m.slot));
            }
            i = i + 1;
        }
        assert(members@.take(members.len() as int) =~= members@);
        out
    }

    /// The join commands of the present slots, in slot order.
    fn joins(present: &[bool; MAX_PLAYERS]) -> (res: Vec<ServerCommand>)
        ensures
            res@ == present_joins(present@, MAX_PLAYERS as int),
    {
        let mut out: Vec<ServerCommand> = Vec::new();
        let mut s: usize = 0;
        while s < MAX_PLAYERS
            invariant
                s <= MAX_PLAYERS,
                out@ == present_joins(present@, s as int),
            decreases MAX_PLAYERS - s,
        {
            if present[s] {
                out.push(ServerCommand::NetJoin { id: s as i32 });
            }
            s = s + 1;
        }
        out
    }

    /// Starts the game: the tick counter restarts, the members' slots become the
    /// present ones, and every member is told its own slot and every present slot.
    /// Returns the present slots and, per member in order, the commands for it.
    pub fn start(
        &mut self,
        party_ent: Entity,
        net: &mut DoomTickStream,
        members: &Vec<(Entity, DoomPartyMember)>,
    ) -> (res: ([bool; MAX_PLAYERS], Vec<(Entity, Vec<ServerCommand>)>))
        ensures
            final(self).started,
            final(self).max_players == old(self).max_players,
            final(self).host == old(self).host,
            final(net).next_tic == 0,
            final(net).present == res.0,
            final(net).pending == old(net).pending,
            final(net).last_cmd == old(net).last_cmd,
            forall|s: int|
                0 <= s < MAX_PLAYERS ==> #[trigger] res.0@[s] == exists|k: int|
                    0 <= k < members_of(party_ent, members@).len() && members_of(
                        party_ent,
                        members@,
                    )[k].1 == s,
            res.1@.len() == members_of(party_ent, members@).len(),
            forall|k: int|
                0 <= k < res.1@.len() ==> (#[trigger] res.1@[k]).0 == members_of(
                    party_ent,
                    members@,
                )[k].0 && res.1@[k].1@ == start_commands_spec(
                    members_of(party_ent, members@)[k].1,
                    res.0@,
                ),
            forall|k: int, sl: i32|
            0 <= k < res.1@.len() ==> (#[trigger] res.1@[k].1@.contains(
                ServerCommand::NetJoin { id: sl },
            ) <==> (0 <= sl < MAX_PLAYERS && res.0@[sl as int])),
{
        self.started = true;
        net.next_tic = 0;
        let member_list = Self::list_members(party_ent, members);
        let ghost ml = member_list@;
        proof {
            lemma_members_of_slots(party_ent, members@);
        }
        let mut present = [false, false, false, false];
        let mut i: usize = 0;
        while i < member_list.len()
            invariant
                i <= member_list.len(),
                member_list@ == ml,
                forall|k: int| 0 <= k < ml.len() ==> #[trigger] ml[k].1 < MAX_PLAYERS,
                forall|s: int|
                    0 <= s < MAX_PLAYERS ==> #[trigger] present@[s] == exists|k: int|
                        0 <= k < i && ml[k].1 == s,
            decreases member_list.len() - i,
        {
            let slot: usize = member_list[i].1;
            present[slot] = true;
            proof {
                assert forall|s: int| 0 <= s < MAX_PLAYERS implies #[trigger] present@[s] == exists|k: int|
                    0 <= k < i + 1 && ml[k].1 == s by {
                    if s == slot {
                        assert(ml[i as int].1 == s);
                    }
                }
            }
            i = i + 1;
        }
        net.present = present;
        let joins = Self::joins(&present);
        let mut commands: Vec<(Entity, Vec<ServerCommand>)> = Vec::new();
        let mut j: usize = 0;
        while j < member_list.len()
            invariant
                j <= member_list.len(),
                member_list@ == ml,
                joins@ == present_joins(present@, MAX_PLAYERS as int),
                commands@.len() == j,
                forall|k: int|
                    0 <= k < j ==> (#[trigger] commands@[k]).0 == ml[k].0 && commands@[k].1@
                        == start_commands_spec(ml[k].1, present@),
            decreases member_list.len() - j,
        {
            let (player, slot): (Entity, usize) = member_list[j];
            let mut cmds: Vec<ServerCommand> = Vec::new();
            cmds.push(ServerCommand::NetSetLocal { id: slot as i32 });
            let mut t: usize = 0;
            while t < joins.len()
                invariant
                    t <= joins.len(),
                    cmds@ == seq![ServerCommand::NetSetLocal { id: slot as i32 }] + joins@.take(t as int),
                decreases joins.len() - t,
            {
                cmds.push(joins[t]);
                t = t + 1;
                assert(cmds@ =~= seq![ServerCommand::NetSetLocal { id: slot as i32 }] + joins@.take(t as int));
            }
            assert(joins@.take(joins.len() as int) =~= joins@);
            commands.push((player, cmds));
            j = j + 1;
        }
        proof {
            assert forall|k: int, sl: i32| 0 <= k < commands@.len() implies (
            #[trigger] commands@[k].1@.contains(ServerCommand::NetJoin { id: sl }) <==> (0 <= sl
                < MAX_PLAYERS && present@[sl as int])) by {
                law_start_joins_exactly_present_slots(present@, ml[k].1, sl);
            }
        }
        (present, commands)
    }
}

} // verus!
