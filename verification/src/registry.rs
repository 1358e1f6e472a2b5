//! Allocation of session ids. Ids are negative, so that the map items showing a
//! session never clash with ordinary maps.
use vstd::prelude::*;
use std::collections::HashSet;
use rand::seq::IteratorRandom;
use vstd::std_specs::iter::IteratorSpec;
use crate::item::ItemStack;
use crate::session::{DoomSession, map_tag, map_tag_spec, map_view, map_view_spec};

verus! {

broadcast use vstd::std_specs::hash::group_hash_axioms;

/// The id that the next allocation hands out, given the released ids and the next
/// fresh id: the greatest released id when there is one, else the fresh id.
pub open spec fn allocation(free: Set<i32>, next: i32) -> i32 {
    if free == Set::<i32>::empty() {
        next
    } else {
        choose|x: i32| free.contains(x) && forall|y: i32| free.contains(y) ==> y <= x
    }
}

/// Calls `rand::seq::IteratorRandom::choose` on the range `0..len`, with the
/// thread-local generator `rand::rng()`. As that function's source shows for an
/// iterator whose length is known, the result is `None` exactly when `len` is zero,
/// and otherwise an index below `len`; which one is chosen is left open.
#[verifier::external_body]
fn random_index(len: usize) -> (res: Option<usize>)
    ensures
        res is None <==> len == 0,
        res matches Some(i) ==> i < len,
{
    (0..len).choose(&mut rand::rng())
}

/// Hands out session ids and takes them back.
#[derive(Debug)]
pub struct DoomSessionRegistry {
    next_id: i32,
    free_ids: Vec<i32>,
    in_use: HashSet<i32>,
}

impl DoomSessionRegistry {
    /// The fresh id that is handed out when no released id is left.
    pub closed spec fn next_id_spec(&self) -> i32 {
        self.next_id
    }

    /// The ids that were released and may be handed out again.
    pub closed spec fn free_set(&self) -> Set<i32> {
        Set::new(|x: i32| self.free_ids@.contains(x))
    }

    /// The ids currently handed out.
    pub closed spec fn in_use_set(&self) -> Set<i32> {
        self.in_use@
    }

    /// No released id is recorded twice.
    pub closed spec fn free_list_ok(&self) -> bool {
        self.free_ids@.no_duplicates()
    }

    /// Every id below zero and above the next fresh id is either handed out or
    /// released, never both; no other id is either.
    pub open spec fn wf(&self) -> bool {
        &&& self.next_id_spec() < 0
        &&& self.free_list_ok()
        &&& forall|x: i32|
            #[trigger] self.free_set().contains(x) ==> self.next_id_spec() < x < 0
                && !self.in_use_set().contains(x)
        &&& forall|x: i32| #[trigger]
            self.in_use_set().contains(x) ==> self.next_id_spec() < x < 0
        &&& forall|x: i32|
            self.next_id_spec() < x < 0 ==> #[trigger] self.in_use_set().contains(x)
                || self.free_set().contains(x)
    }

    /// An id that is not handed out yet. A released id is reused, the greatest first.
    pub fn create_id(&mut self) -> (id: i32)
        requires
            old(self).wf(),
            old(self).free_set() != Set::<i32>::empty() || old(self).next_id_spec() > i32::MIN,
        ensures
            final(self).wf(),
            id == allocation(old(self).free_set(), old(self).next_id_spec()),
            i32::MIN < id < 0,
            !old(self).in_use_set().contains(id),
            final(self).in_use_set() == old(self).in_use_set().insert(id),
            final(self).free_set() == old(self).free_set().remove(id),
            final(self).next_id_spec() == if old(self).free_set() == Set::<i32>::empty() {
                old(self).next_id_spec() - 1
            } else {
                old(self).next_id_spec() as int
            },
    {
        let ghost old_free = self.free_ids@;
        let id: i32;
        if self.free_ids.len() > 0 {
            let mut best: usize = 0;
            let mut i: usize = 1;
            while i < self.free_ids.len()
                invariant
                    0 <= best < i <= self.free_ids.len(),
                    self.free_ids@ == old_free,
                    forall|j: int| 0 <= j < i ==> self.free_ids@[j] <= self.free_ids@[best as int],
                decreases self.free_ids.len() - i,
            {
                if self.free_ids[i] > self.free_ids[best] {
                    best = i;
                }
                i = i + 1;
            }
            id = self.free_ids.remove(best);
            proof {
                let fs = Set::new(|x: i32| old_free.contains(x));
                assert(fs.contains(id));
                assert(fs != Set::<i32>::empty());
                assert forall|y: i32| fs.contains(y) implies y <= id by {
                    let j = choose|j: int| 0 <= j < old_free.len() && old_free[j] == y;
                }
                let c = choose|x: i32| fs.contains(x) && forall|y: i32| fs.contains(y) ==> y <= x;
                assert(c <= id && id <= c);
                assert(self.free_ids@ == old_free.remove(best as int));
                assert forall|x: i32| self.free_ids@.contains(x) <==> old_free.contains(x) && x != id by {
                    if old_free.contains(x) && x != id {
                        let j = choose|j: int| 0 <= j < old_free.len() && old_free[j] == x;
                        if j < best {
                            assert(self.free_ids@[j] == x);
                        } else {
                            assert(self.free_ids@[j - 1] == x);
                        }
                    }
                    if self.free_ids@.contains(x) {
                        let j = choose|j: int| 0 <= j < self.free_ids@.len() && self.free_ids@[j] == x;
                        if j < best {
                            assert(old_free[j] == x);
                        } else {
                            assert(old_free[j + 1] == x);
                        }
                    }
                }
                assert(self.free_set() =~= old(self).free_set().remove(id));
                assert forall|a: int, b: int|
                    0 <= a < b < self.free_ids@.len() implies self.free_ids@[a]
                    != self.free_ids@[b] by {
                    let oa = if a < best { a } else { a + 1 };
                    let ob = if b < best { b } else { b + 1 };
                    assert(self.free_ids@[a] == old_free[oa]);
                    assert(self.free_ids@[b] == old_free[ob]);
                }
            }
        } else {
            proof {
                assert(old(self).free_set() =~= Set::<i32>::empty());
            }
            id = self.next_id;
            self.next_id = self.next_id - 1;
            proof {
                assert(self.free_set() =~= old(self).free_set().remove(id));
            }
        }
        let _ = self.in_use.insert(id);
        proof {
            assert(self.in_use@ == old(self).in_use@.insert(id));
            assert forall|x: i32| #[trigger] self.free_set().contains(x) implies self.next_id_spec()
                < x < 0 && !self.in_use_set().contains(x) by {
                assert(old(self).free_set().contains(x));
            }
            assert forall|x: i32| #[trigger] self.in_use_set().contains(x) implies self.next_id_spec()
                < x < 0 by {
                if x != id {
                    assert(old(self).in_use_set().contains(x));
                }
            }
            assert forall|x: i32| self.next_id_spec() < x < 0 implies #[trigger] self.in_use_set().contains(x)
                || self.free_set().contains(x) by {
                if x != id {
                    assert(old(self).in_use_set().contains(x) || old(self).free_set().contains(x));
                }
            }
        }
        id
    }

    /// Takes `id` back, so that it can be handed out again. An id that is not handed
    /// out is ignored.
    pub fn free_id(&mut self, id: i32)
        requires
            old(self).wf(),
        ensures
            final(self).wf(),
            final(self).next_id_spec() == old(self).next_id_spec(),
            old(self).in_use_set().contains(id) ==> final(self).in_use_set() == old(
                self,
            ).in_use_set().remove(id) && final(self).free_set() == old(self).free_set().insert(id),
            !old(self).in_use_set().contains(id) ==> final(self).in_use_set() == old(
                self,
            ).in_use_set() && final(self).free_set() == old(self).free_set(),
    {
        let was_in_use = self.in_use.remove(&id);
        if !was_in_use {
            assert(self.in_use@ =~= old(self).in_use@);
            assert(self.in_use_set() == old(self).in_use_set());
            assert(self.free_set() == old(self).free_set());
            return;
        }
        let ghost old_free = self.free_ids@;
        self.free_ids.push(id);
        proof {
            assert forall|x: i32| self.free_ids@.contains(x) <==> old_free.contains(x) || x == id by {
                if old_free.contains(x) {
                    let j = choose|j: int| 0 <= j < old_free.len() && old_free[j] == x;
                    assert(self.free_ids@[j] == x);
                }
                if x == id {
                    assert(self.free_ids@[old_free.len() as int] == x);
                }
            }
            assert forall|x: i32| #[trigger] self.free_set().contains(x) <==> old(self).free_set().insert(
                id,
            ).contains(x) by {
                assert(self.free_ids@.contains(x) <==> old_free.contains(x) || x == id);
            }
            assert(self.free_set() =~= old(self).free_set().insert(id));
            assert(self.in_use@ == old(self).in_use@.remove(id));
            assert forall|x: i32| #[trigger] self.free_set().contains(x) implies self.next_id_spec()
                < x < 0 && !self.in_use_set().contains(x) by {
                if x != id {
                    assert(old(self).free_set().contains(x));
                } else {
                    assert(old(self).in_use_set().contains(id));
                }
            }
            assert forall|x: i32| self.next_id_spec() < x < 0 implies #[trigger] self.in_use_set().contains(x)
                || self.free_set().contains(x) by {
                if x != id {
                    assert(old(self).in_use_set().contains(x) || old(self).free_set().contains(x));
                }
            }
            assert(self.free_ids@.no_duplicates()) by {
                assert forall|a: int, b: int|
                    0 <= a < b < self.free_ids@.len() implies self.free_ids@[a] != self.free_ids@[b] by {
                    assert(old(self).in_use_set().contains(id));
                    assert(!old(self).free_set().contains(id));
                    assert(!old_free.contains(id));
                    if b == old_free.len() {
                        assert(self.free_ids@[a] == old_free[a]);
                        assert(old_free.contains(self.free_ids@[a]));
                    } else {
                        assert(self.free_ids@[a] == old_free[a]);
                        assert(self.free_ids@[b] == old_free[b]);
                    }
                }
            }
        }
    }

    /// Creates a doom session bound to a map: the session gets a fresh id, and the
    /// returned map item shows it.
    pub fn create_session(&mut self) -> (res: (DoomSession, ItemStack))
        requires
            old(self).wf(),
            old(self).free_set() != Set::<i32>::empty() || old(self).next_id_spec() > i32::MIN,
        ensures
            final(self).wf(),
            res.0.id_spec() == allocation(old(self).free_set(), old(self).next_id_spec()),
            i32::MIN < res.0.id_spec() < 0,
            !res.0.active_spec(),
            res.0.pressed() == Seq::<crate::protocol::Input>::empty(),
            res.1@ == map_view_spec(res.0.id_spec()),
            final(self).in_use_set() == old(self).in_use_set().insert(res.0.id_spec()),
            final(self).free_set() == old(self).free_set().remove(res.0.id_spec()),
    {
        let id: i32 = self.create_id();
        let map = map_view(id);
        (DoomSession::new(id), map)
    }

    /// Creates a doom session with a fresh id and binds the existing `map` to it.
    pub fn create_session_with_map(&mut self, map: &mut ItemStack) -> (res: DoomSession)
        requires
            old(self).wf(),
            old(self).free_set() != Set::<i32>::empty() || old(self).next_id_spec() > i32::MIN,
        ensures
            final(self).wf(),
            res.id_spec() == allocation(old(self).free_set(), old(self).next_id_spec()),
            !res.active_spec(),
            res.pressed() == Seq::<crate::protocol::Input>::empty(),
            final(map)@ == (crate::item::ItemStackModel {
                nbt: Some(map_tag_spec(res.id_spec())),
                ..old(map)@
            }),
            final(self).in_use_set() == old(self).in_use_set().insert(res.id_spec()),
            final(self).free_set() == old(self).free_set().remove(res.id_spec()),
    {
        let id: i32 = self.create_id();
        map.nbt = Some(map_tag(id));
        DoomSession::new(id)
    }

    /// A new session state for an id that is already handed out.
    pub fn replace_session(&mut self, id: i32) -> (res: DoomSession)
        ensures
            *final(self) == *old(self),
            res.id_spec() == id,
            !res.active_spec(),
            res.pressed() == Seq::<crate::protocol::Input>::empty(),
    {
        DoomSession::new(id)
    }

    /// Ends `session` and takes its id back.
    pub fn destroy_session(&mut self, session: DoomSession)
        requires
            old(self).wf(),
        ensures
            final(self).wf(),
            final(self).next_id_spec() == old(self).next_id_spec(),
            old(self).in_use_set().contains(session.id_spec()) ==> final(self).in_use_set()
                == old(self).in_use_set().remove(session.id_spec()) && final(self).free_set()
                == old(self).free_set().insert(session.id_spec()),
            !old(self).in_use_set().contains(session.id_spec()) ==> final(self).in_use_set()
                == old(self).in_use_set() && final(self).free_set() == old(self).free_set(),
    {
        self.free_id(session.id());
    }

    /// Creates a map spectating session `id`.
    pub fn create_map_view(&mut self, id: i32) -> (res: Option<ItemStack>)
        ensures
            *final(self) == *old(self),
            res matches Some(m) && m@ == map_view_spec(id),
    {
        Some(map_view(id))
    }

    /// The ids currently handed out, each once, in the order the set yields them.
    pub fn in_use_ids(&self) -> (ids: Vec<i32>)
        ensures
            ids@.to_set() == self.in_use_set(),
            ids@.no_duplicates(),
            ids@.len() == self.in_use_set().len(),
    {
        let mut ids: Vec<i32> = Vec::new();
        let ghost all = vstd::std_specs::hash::spec_hash_keys_iter(&self.in_use).remaining();
        for x in it: self.in_use.iter()
            invariant
                it.seq() == all,
                ids@ == it.seq().take(it.index()).unref(),
            ensures
                ids@ == all.unref(),
        {
            ids.push(*x);
            assert(ids@ =~= it.seq().take(it.index() + 1).unref());
        }
        assert(ids@.to_set() == self.in_use@);
        assert forall|a: int, b: int| 0 <= a < ids@.len() && 0 <= b < ids@.len() && a != b implies ids@[a]
            != ids@[b] by {
            assert(ids@[a] == *all[a] && ids@[b] == *all[b]);
        }
        ids
    }

    /// The map item for a draw among `ids`: the map showing the drawn id, or `None`
    /// when nothing was drawn.
    pub fn map_view_for_draw(ids: &Vec<i32>, drawn: Option<usize>) -> (res: Option<ItemStack>)
        requires
            drawn matches Some(k) ==> k < ids@.len(),
        ensures
            drawn is None ==> res is None,
            drawn matches Some(k) ==> res matches Some(m) && m@ == map_view_spec(ids@[k as int]),
    {
        match drawn {
            None => None,
            Some(k) => Some(map_view(ids[k])),
        }
    }

    /// Creates a map spectating a session picked at random among those handed out,
    /// or `None` when there is none. The draw is over all ids in use, each once.
    pub fn create_random_map_view(&mut self) -> (res: Option<ItemStack>)
        ensures
            *final(self) == *old(self),
            res is None <==> old(self).in_use_set() == Set::<i32>::empty(),
            res matches Some(m) ==> exists|id: i32|
                old(self).in_use_set().contains(id) && m@ == map_view_spec(id),
    {
        let ids = self.in_use_ids();
        let drawn = random_index(ids.len());
        proof {
            if drawn is None {
                assert(ids@.len() == 0);
                assert(self.in_use@ =~= Set::<i32>::empty());
            } else {
                let k = drawn->0;
                assert(ids@.to_set().contains(ids@[k as int]));
            }
        }
        Self::map_view_for_draw(&ids, drawn)
    }
}

impl Default for DoomSessionRegistry {
    fn default() -> (res: Self)
        ensures
            res.wf(),
            res.next_id_spec() == -1,
            res.free_set() == Set::<i32>::empty(),
            res.in_use_set() == Set::<i32>::empty(),
    {
        let res = DoomSessionRegistry { next_id: -1, free_ids: Vec::new(), in_use: HashSet::new() };
        assert(res.free_set() =~= Set::<i32>::empty());
        res
    }
}

proof fn lemma_seq_max(s: Seq<i32>) -> (m: i32)
    requires
        s.len() > 0,
    ensures
        s.contains(m),
        forall|j: int| 0 <= j < s.len() ==> s[j] <= m,
    decreases s.len(),
{
    if s.len() == 1 {
        assert(s[0] == s[0]);
        s[0]
    } else {
        let m0 = lemma_seq_max(s.drop_last());
        let j0 = choose|j: int| 0 <= j < s.drop_last().len() && s.drop_last()[j] == m0;
        assert(s[j0] == m0);
        let r = if s.last() > m0 {
            s.last()
        } else {
            m0
        };
        assert forall|j: int| 0 <= j < s.len() implies s[j] <= r by {
            if j < s.len() - 1 {
                assert(s[j] == s.drop_last()[j]);
            }
        }
        assert(s[s.len() - 1] == s.last());
        r
    }
}

/// Released ids are handed out again greatest first: once `id` is released while
/// every other released id is smaller, the next allocation hands out `id`.
pub proof fn law_released_id_reused_first(free: Set<i32>, next: i32, id: i32)
    requires
        forall|x: i32| #[trigger] free.contains(x) ==> x < id,
    ensures
        allocation(free.insert(id), next) == id,
{
    let f = free.insert(id);
    assert(f.contains(id));
    assert(f != Set::<i32>::empty());
    assert(forall|y: i32| f.contains(y) ==> y <= id);
    let c = choose|x: i32| f.contains(x) && forall|y: i32| f.contains(y) ==> y <= x;
    assert(c <= id && id <= c);
}

/// An id about to be handed out is never one already in use, and it is negative:
/// sessions never share an id, and their map items never clash with ordinary maps.
pub proof fn law_allocation_is_fresh(r: DoomSessionRegistry)
    requires
        r.wf(),
        r.free_set() != Set::<i32>::empty() || r.next_id_spec() > i32::MIN,
    ensures
        !r.in_use_set().contains(allocation(r.free_set(), r.next_id_spec())),
        allocation(r.free_set(), r.next_id_spec()) < 0,
{
    if r.free_set() != Set::<i32>::empty() {
        assert(exists|x: i32| r.free_set().contains(x)) by {
            if !(exists|x: i32| r.free_set().contains(x)) {
                assert(r.free_set() =~= Set::<i32>::empty());
            }
        }
        let x0 = choose|x: i32| r.free_set().contains(x);
        assert(r.free_ids@.contains(x0));
        let m = lemma_seq_max(r.free_ids@);
        assert(r.free_set().contains(m));
        assert forall|y: i32| r.free_set().contains(y) implies y <= m by {
            let j = choose|j: int| 0 <= j < r.free_ids@.len() && r.free_ids@[j] == y;
        }
        let c = allocation(r.free_set(), r.next_id_spec());
        assert(r.free_set().contains(c));
    }
}

/// Every id a well-formed registry hands out or holds released is negative and lies
/// above the next fresh id, and no id is both handed out and released.
pub proof fn law_ids_partitioned(r: DoomSessionRegistry, x: i32)
    requires
        r.wf(),
    ensures
        r.in_use_set().contains(x) ==> r.next_id_spec() < x < 0,
        r.free_set().contains(x) ==> r.next_id_spec() < x < 0,
        !(r.in_use_set().contains(x) && r.free_set().contains(x)),
        r.next_id_spec() < x < 0 ==> r.in_use_set().contains(x) || r.free_set().contains(x),
{
}

} // verus!
