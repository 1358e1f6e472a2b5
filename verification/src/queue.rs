//! Players waiting for a DOOM session, and their admission as slots free up.
use vstd::prelude::*;
use std::collections::{HashSet, VecDeque};
use crate::directory::Entity;

verus! {

broadcast use vstd::std_specs::hash::group_hash_axioms;

/// The players waiting, in arrival order, and the same players as a set.
#[derive(Debug)]
pub struct PlayerQueue {
    pub order: VecDeque<Entity>,
    pub set: HashSet<Entity>,
}

impl Default for PlayerQueue {
    fn default() -> (res: Self)
        ensures
            res.order@ == Seq::<Entity>::empty(),
            res.set@ == Set::<Entity>::empty(),
    {
        PlayerQueue { order: VecDeque::new(), set: HashSet::new() }
    }
}

/// Marks a player as waiting since a given tick.
#[derive(Debug, Clone, Copy, PartialEq, Eq)]
pub struct InQueue {
    pub since_tick: i64,
}

/// How many more players may be admitted.
#[derive(Debug, Clone, Copy, PartialEq, Eq)]
pub struct QueueCapacity {
    pub available_slots: usize,
}

impl Default for QueueCapacity {
    fn default() -> (res: Self)
        ensures
            res.available_slots == 0,
    {
        QueueCapacity { available_slots: 0 }
    }
}

/// Puts a player in the queue.
#[derive(Debug, Clone, Copy, PartialEq, Eq)]
pub struct EnqueuePlayer {
    pub player: Entity,
}

/// Takes a player out of the queue.
#[derive(Debug, Clone, Copy, PartialEq, Eq)]
pub struct DequeuePlayer {
    pub player: Entity,
}

/// A player was admitted.
#[derive(Debug, Clone, Copy, PartialEq, Eq)]
pub struct PlayerAdmitted {
    pub player: Entity,
}

/// Admission from the front of `order` with `slots` free slots, where `queued` are
/// the players still waiting: a player who left is dropped, a waiting one is admitted
/// and takes a slot; it stops when no slot is free or nobody is left. Returns the
/// rest of the queue, the free slots left and the admitted players in order.
pub open spec fn admission(order: Seq<Entity>, slots: nat, queued: Set<Entity>) -> (
    Seq<Entity>,
    nat,
    Seq<Entity>,
)
    decreases order.len(),
{
    if slots == 0 || order.len() == 0 {
        (order, slots, Seq::empty())
    } else if queued.contains(order[0]) {
        let r = admission(order.drop_first(), (slots - 1) as nat, queued);
        (r.0, r.1, seq![order[0]] + r.2)
    } else {
        admission(order.drop_first(), slots, queued)
    }
}

proof fn lemma_admission_suffix(order: Seq<Entity>, slots: nat, queued: Set<Entity>)
    ensures
        admission(order, slots, queued).0.len() <= order.len(),
        admission(order, slots, queued).0 == order.skip(
            order.len() - admission(order, slots, queued).0.len(),
        ),
    decreases order.len(),
{
    if slots == 0 || order.len() == 0 {
        assert(order.skip(0) =~= order);
    } else {
        let next = if queued.contains(order[0]) {
            (slots - 1) as nat
        } else {
            slots
        };
        lemma_admission_suffix(order.drop_first(), next, queued);
        let r = admission(order.drop_first(), next, queued).0;
        assert(order.drop_first().skip(order.drop_first().len() - r.len()) =~= order.skip(
            order.len() - r.len(),
        ));
    }
}

/// Admits waiting players from the front of the queue while slots are free. Players
/// not in `queued` (who left) are dropped without taking a slot.
pub fn admit_system(queue: &mut PlayerQueue, cap: &mut QueueCapacity, queued: &HashSet<Entity>) -> (res:
    Vec<PlayerAdmitted>)
    ensures
        ({
            let r = admission(old(queue).order@, old(cap).available_slots as nat, queued@);
            &&& final(queue).order@ == r.0
            &&& final(cap).available_slots == r.1
            &&& res@.len() == r.2.len()
            &&& forall|i: int| 0 <= i < res@.len() ==> #[trigger] res@[i].player == r.2[i]
            &&& forall|x: Entity|
                #[trigger] final(queue).set@.contains(x) <==> old(queue).set@.contains(x)
                    && !old(queue).order@.take(old(queue).order@.len() - r.0.len()).contains(x)
        }),
{
    let mut admitted: Vec<PlayerAdmitted> = Vec::new();
    let ghost total = admission(old(queue).order@, old(cap).available_slots as nat, queued@);
    let ghost start = old(queue).order@;
    proof {
        lemma_admission_suffix(start, old(cap).available_slots as nat, queued@);
        assert(start.take(0) =~= Seq::<Entity>::empty());
    }
    while cap.available_slots > 0 && queue.order.len() > 0
        invariant
            queue.order@.len() <= start.len(),
            queue.order@ == start.skip(start.len() - queue.order@.len()),
            ({
                let r = admission(queue.order@, cap.available_slots as nat, queued@);
                &&& r.0 == total.0
                &&& r.1 == total.1
                &&& admitted@.len() + r.2.len() == total.2.len()
                &&& forall|i: int| 0 <= i < admitted@.len() ==> #[trigger] admitted@[i].player == total.2[i]
                &&& forall|i: int| 0 <= i < r.2.len() ==> #[trigger] r.2[i] == total.2[admitted@.len() + i]
            }),
            forall|x: Entity|
                #[trigger] queue.set@.contains(x) <==> old(queue).set@.contains(x) && !start.take(
                    start.len() - queue.order@.len(),
                ).contains(x),
        decreases queue.order@.len(),
    {
        let ghost before = queue.order@;
        let ghost slots = cap.available_slots as nat;
        let ghost old_set = queue.set@;
        let ghost old_admitted = admitted@;
        let player = queue.order.pop_front().unwrap();
        assert(queue.order@ =~= before.drop_first());
        queue.set.remove(&player);
        let ghost k = start.len() - before.len();
        assert(start[k] == player);
        assert(queue.order@ =~= start.skip(start.len() - queue.order@.len()));
        assert(start.take(k + 1) =~= start.take(k).push(player));
        assert(queue.set@ == old_set.remove(player));
        assert forall|x: Entity| #[trigger] queue.set@.contains(x) <==> old(queue).set@.contains(x)
            && !start.take(start.len() - queue.order@.len()).contains(x) by {
            let a = start.take(k + 1);
            let b = start.take(k);
            assert(a[k] == player);
            if a.contains(x) && !b.contains(x) {
                let j = choose|j: int| 0 <= j < a.len() && #[trigger] a[j] == x;
                if j < k {
                    assert(b[j] == x);
                }
            }
            if b.contains(x) {
                let j = choose|j: int| 0 <= j < b.len() && #[trigger] b[j] == x;
                assert(a[j] == x);
            }
            assert(a.contains(x) <==> b.contains(x) || x == player);
        }
        let ghost prev_len = admitted@.len();
        if queued.contains(&player) {
            cap.available_slots = cap.available_slots - 1;
            admitted.push(PlayerAdmitted { player });
            proof {
                let r = admission(queue.order@, cap.available_slots as nat, queued@);
                let rb = admission(before, slots, queued@);
                assert(rb == (r.0, r.1, seq![player] + r.2));
                assert(rb.2[0] == player);
                assert(rb.2[0] == total.2[prev_len + 0int]);
                assert(total.2[prev_len as int] == player);
                assert forall|i: int| 0 <= i < r.2.len() implies #[trigger] r.2[i] == total.2[admitted@.len() + i] by {
                    assert((seq![player] + r.2)[i + 1] == r.2[i]);
                }
            }
        } else {
            proof {
                assert(admission(before, slots, queued@) == admission(queue.order@, slots, queued@));
            }
        }
    }
    assert(queue.order@ == total.0);
    admitted
}

/// Admission never admits more players than there are free slots; the admitted ones
/// and the slots left add up to the slots there were; every admitted player is still
/// waiting; and the queue only shrinks from the front.
pub proof fn law_admission_bounded(order: Seq<Entity>, slots: nat, queued: Set<Entity>)
    ensures
        ({
            let r = admission(order, slots, queued);
            &&& r.2.len() + r.1 == slots
            &&& r.2.len() <= slots
            &&& forall|i: int| 0 <= i < r.2.len() ==> queued.contains(#[trigger] r.2[i])
            &&& r.0 == order.skip(order.len() - r.0.len())
            &&& (r.1 > 0 ==> r.0.len() == 0)
        }),
    decreases order.len(),
{
    lemma_admission_suffix(order, slots, queued);
    if slots == 0 || order.len() == 0 {
    } else if queued.contains(order[0]) {
        law_admission_bounded(order.drop_first(), (slots - 1) as nat, queued);
        let r = admission(order.drop_first(), (slots - 1) as nat, queued);
        assert forall|i: int| 0 <= i < (seq![order[0]] + r.2).len() implies queued.contains(
            #[trigger] (seq![order[0]] + r.2)[i],
        ) by {
            if i > 0 {
                assert((seq![order[0]] + r.2)[i] == r.2[i - 1]);
            }
        }
    } else {
        law_admission_bounded(order.drop_first(), slots, queued);
    }
}

} // verus!
