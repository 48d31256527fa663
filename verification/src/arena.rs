//! A generational arena: values are reached through ids that stop being
//! valid when their value is removed, even if the slot is used again.
use vstd::prelude::*;

verus! {

/// Names one value of an arena: the slot it sits in and the generation of
/// that slot when the value was inserted.
#[derive(Copy, Clone, Debug, PartialEq, Eq, Hash, Structural)]
pub struct EntityId {
    pub index: u32,
    pub generation: u32,
}

struct Slot<T> {
    generation: u32,
    value: Option<T>,
    next_free: Option<u32>,
}

/// Values in numbered slots. A vacant slot is kept on a free list and is
/// the first to be filled again; each removal raises the slot's generation.
pub struct Arena<T> {
    slots: Vec<Slot<T>>,
    free_head: Option<u32>,
    len: usize,
    free: Ghost<Seq<u32>>,
}

impl<T> Arena<T> {
    /// Number of slots, vacant ones included.
    pub closed spec fn slot_count(&self) -> nat {
        self.slots.len() as nat
    }

    /// Generation of slot `i`.
    pub closed spec fn generation_of(&self, i: int) -> u32 {
        self.slots[i].generation
    }

    /// What slot `i` holds.
    pub closed spec fn value_of(&self, i: int) -> Option<T> {
        self.slots[i].value
    }

    /// The vacant slots, the one that is filled next first.
    pub closed spec fn free_list(&self) -> Seq<u32> {
        self.free@
    }

    /// Number of values held.
    pub closed spec fn spec_len(&self) -> nat {
        self.len as nat
    }

    /// Whether `id` names a value of the arena: its slot exists, is filled,
    /// and is of the id's generation.
    pub open spec fn holds(&self, id: EntityId) -> bool {
        &&& id.index < self.slot_count()
        &&& self.generation_of(id.index as int) == id.generation
        &&& self.value_of(id.index as int) is Some
    }

    /// The values of the arena by their ids.
    pub open spec fn view(&self) -> Map<EntityId, T> {
        Map::new(|id: EntityId| self.holds(id), |id: EntityId| self.value_of(id.index as int)->0)
    }

    /// The invariant of an arena: the free list holds exactly the vacant
    /// slots, each once, and the slots are chained in its order.
    pub closed spec fn wf(&self) -> bool {
        &&& self.slots.len() <= u32::MAX
        &&& self.len + self.free@.len() == self.slots.len()
        &&& self.free_head == (if self.free@.len() == 0 {
            None
        } else {
            Some(self.free@[0])
        })
        &&& self.free@.no_duplicates()
        &&& forall|k: int|
            0 <= k < self.free@.len() ==> {
                &&& (#[trigger] self.free@[k]) < self.slots.len()
                &&& self.slots[self.free@[k] as int].value is None
                &&& self.slots[self.free@[k] as int].next_free == (if k + 1 < self.free@.len() {
                    Some(self.free@[k + 1])
                } else {
                    None
                })
            }
        &&& forall|i: int|
            0 <= i < self.slots.len() && (#[trigger] self.slots[i]).value is None
                ==> self.free@.contains(i as u32)
    }

    /// In a valid arena every slot on the free list exists and is vacant.
    pub proof fn lemma_free_list(&self)
        requires
            self.wf(),
        ensures
            self.slot_count() <= u32::MAX,
            self.spec_len() + self.free_list().len() == self.slot_count(),
            self.free_list().no_duplicates(),
            forall|k: int|
                0 <= k < self.free_list().len() ==> (#[trigger] self.free_list()[k])
                    < self.slot_count() && self.value_of(self.free_list()[k] as int) is None,
            forall|i: int|
                0 <= i < self.slot_count() && self.value_of(i) is None
                    ==> self.free_list().contains(i as u32),
    {
        assert forall|i: int| 0 <= i < self.slot_count() && self.value_of(i) is None implies
            self.free_list().contains(i as u32) by {
            assert(self.slots[i].value is None);
        }
    }

    /// The length of a valid arena is the number of ids that name a value.
    pub proof fn lemma_len(&self)
        requires
            self.wf(),
        ensures
            self@.dom().finite(),
            self@.dom().len() == self.spec_len(),
    {
        let n = self.slots.len() as int;
        let free = self.free@;
        let ints = Seq::new(free.len(), |k: int| free[k] as int);
        let all = vstd::set_lib::set_int_range(0, n);
        vstd::set_lib::lemma_int_range(0, n);
        let vacant = ints.to_set();
        assert(ints.no_duplicates()) by {
            assert forall|a: int, b: int|
                0 <= a < ints.len() && 0 <= b < ints.len() && a != b implies ints[a]
                != ints[b] by {
                assert(free[a] != free[b]);
            }
        }
        ints.unique_seq_to_set();
        assert(vacant.finite()) by {
            vstd::seq_lib::seq_to_set_is_finite(ints);
        }
        assert(all.intersect(vacant) =~= vacant) by {
            assert forall|v: int| vacant.contains(v) implies all.contains(v) by {
                let k = choose|k: int| 0 <= k < ints.len() && #[trigger] ints[k] == v;
                assert(free[k] < self.slots.len());
            }
        }
        vstd::set_lib::lemma_set_difference_len(all, vacant);
        let occupied = all.difference(vacant);
        assert(occupied.len() == self.len);
        vstd::set_lib::lemma_len_difference(all, vacant);
        assert(occupied.finite()) by {
            vstd::set_lib::lemma_set_subset_finite(all, occupied);
        }
        let f = |i: int| EntityId { index: i as u32, generation: self.slots[i].generation };
        assert(vstd::relations::injective_on(f, occupied));
        assert(occupied.map(f) =~= self@.dom()) by {
            assert forall|id: EntityId| self@.dom().contains(id) implies occupied.map(f).contains(
                id,
            ) by {
                let i = id.index as int;
                if vacant.contains(i) {
                    let k = choose|k: int| 0 <= k < ints.len() && #[trigger] ints[k] == i;
                    assert(self.slots[free[k] as int].value is None);
                }
                assert(occupied.contains(i));
                assert(f(i) == id);
            }
            assert forall|id: EntityId| occupied.map(f).contains(id) implies self@.dom().contains(
                id,
            ) by {
                let i = choose|i: int| occupied.contains(i) && f(i) == id;
                if self.slots[i].value is None {
                    assert(free.contains(i as u32));
                    let k = choose|k: int| 0 <= k < free.len() && free[k] == i as u32;
                    assert(ints[k] == i);
                    assert(vacant.contains(i));
                }
            }
        }
        vstd::set_lib::lemma_map_size(occupied, self@.dom(), f);
    }

    /// An arena without slots.
    pub fn new() -> (a: Arena<T>)
        ensures
            a.wf(),
            a@ == Map::<EntityId, T>::empty(),
            a.spec_len() == 0,
            a.slot_count() == 0,
            a.free_list() == Seq::<u32>::empty(),
    {
        let a = Arena { slots: Vec::new(), free_head: None, len: 0, free: Ghost(Seq::empty()) };
        assert(a@ =~= Map::<EntityId, T>::empty());
        a
    }

    /// An arena without slots, with room for `cap` of them.
    pub fn with_capacity(cap: usize) -> (a: Arena<T>)
        ensures
            a.wf(),
            a@ == Map::<EntityId, T>::empty(),
            a.spec_len() == 0,
            a.slot_count() == 0,
            a.free_list() == Seq::<u32>::empty(),
    {
        let a = Arena {
            slots: Vec::with_capacity(cap),
            free_head: None,
            len: 0,
            free: Ghost(Seq::empty()),
        };
        assert(a@ =~= Map::<EntityId, T>::empty());
        a
    }

    /// Puts `value` into the first slot of the free list, or into a new slot
    /// of generation zero when no slot is vacant.
    pub fn insert(&mut self, value: T) -> (id: EntityId)
        requires
            old(self).wf(),
            old(self).spec_len() < u32::MAX,
        ensures
            final(self).wf(),
            !old(self)@.contains_key(id),
            final(self)@ == old(self)@.insert(id, value),
            final(self).spec_len() == old(self).spec_len() + 1,
            old(self).free_list().len() > 0 ==> {
                &&& id.index == old(self).free_list()[0]
                &&& id.generation == old(self).generation_of(id.index as int)
                &&& final(self).free_list() == old(self).free_list().drop_first()
                &&& final(self).slot_count() == old(self).slot_count()
            },
            old(self).free_list().len() == 0 ==> {
                &&& id.index == old(self).slot_count()
                &&& id.generation == 0
                &&& final(self).free_list() == old(self).free_list()
                &&& final(self).slot_count() == old(self).slot_count() + 1
            },
            forall|i: int|
                0 <= i < old(self).slot_count() ==> final(self).generation_of(i) == old(
                    self,
                ).generation_of(i),
    {
        match self.free_head {
            Some(head) => {
                let idx = head as usize;
                assert(self.free@[0] == head);
                let generation = self.slots[idx].generation;
                let next = self.slots[idx].next_free;
                self.free_head = next;
                self.slots[idx] = Slot { generation, value: Some(value), next_free: None };
                self.len = self.len + 1;
                proof {
                    self.free@ = self.free@.drop_first();
                    let ghost old_free = old(self).free@;
                    assert forall|k: int| 0 <= k < self.free@.len() implies {
                        &&& (#[trigger] self.free@[k]) < self.slots.len()
                        &&& self.slots[self.free@[k] as int].value is None
                        &&& self.slots[self.free@[k] as int].next_free == (if k + 1
                            < self.free@.len() {
                            Some(self.free@[k + 1])
                        } else {
                            None
                        })
                    } by {
                        assert(self.free@[k] == old_free[k + 1]);
                        assert(old_free[k + 1] != old_free[0]);
                    }
                    assert forall|i: int|
                        0 <= i < self.slots.len() && (#[trigger] self.slots[i]).value is None
                        implies self.free@.contains(i as u32) by {
                        assert(i != idx);
                        assert(old(self).slots[i].value is None);
                        let k = choose|k: int| 0 <= k < old_free.len() && old_free[k] == i as u32;
                        assert(k != 0);
                        assert(self.free@[k - 1] == i as u32);
                    }
                    assert(self.free@.no_duplicates());
                }
                let id = EntityId { index: head, generation };
                assert(self@ =~= old(self)@.insert(id, value));
                id
            },
            None => {
                let index = self.slots.len() as u32;
                self.slots.push(Slot { generation: 0, value: Some(value), next_free: None });
                self.len = self.len + 1;
                let id = EntityId { index, generation: 0 };
                proof {
                    assert forall|i: int|
                        0 <= i < self.slots.len() && (#[trigger] self.slots[i]).value is None
                        implies self.free@.contains(i as u32) by {
                        assert(old(self).slots[i].value is None);
                    }
                }
                assert(self@ =~= old(self)@.insert(id, value));
                id
            },
        }
    }

    /// The value that `id` names, if it is still there.
    pub fn get(&self, id: EntityId) -> (r: Option<&T>)
        requires
            self.wf(),
        ensures
            r == (if self@.contains_key(id) {
                Some(&self@[id])
            } else {
                None
            }),
    {
        let idx = id.index as usize;
        if idx >= self.slots.len() {
            return None;
        }
        let slot = &self.slots[idx];
        if slot.generation == id.generation {
            slot.value.as_ref()
        } else {
            None
        }
    }

    /// The value that `id` names, for writing, if it is still there.
    pub fn get_mut(&mut self, id: EntityId) -> (r: Option<&mut T>)
        requires
            old(self).wf(),
        ensures
            final(self).wf(),
            final(self).spec_len() == old(self).spec_len(),
            final(self).slot_count() == old(self).slot_count(),
            final(self).free_list() == old(self).free_list(),
            forall|i: int|
                0 <= i < old(self).slot_count() ==> final(self).generation_of(i) == old(
                    self,
                ).generation_of(i),
            match r {
                Some(v) => {
                    &&& old(self)@.contains_key(id)
                    &&& *v == old(self)@[id]
                    &&& final(self)@ == old(self)@.insert(id, *final(v))
                },
                None => !old(self)@.contains_key(id) && final(self)@ == old(self)@,
            },
    {
        let idx = id.index as usize;
        if idx >= self.slots.len() {
            return None;
        }
        if self.slots[idx].generation != id.generation || self.slots[idx].value.is_none() {
            return None;
        }
        let slot = &mut self.slots[idx];
        slot.value.as_mut()
    }

    /// Whether `after` is `self` with the value of `id` taken out: the slot
    /// is vacant, of the next generation, and first in the free list.
    spec fn vacated(&self, after: &Arena<T>, id: EntityId) -> bool {
        let idx = id.index as int;
        &&& after.slots@.len() == self.slots@.len()
        &&& after.slots[idx].value is None
        &&& after.slots[idx].generation == id.generation.wrapping_add(1)
        &&& after.slots[idx].next_free == self.free_head
        &&& forall|i: int| 0 <= i < self.slots.len() && i != idx ==> after.slots[i] == self.slots[i]
        &&& after.free_head == Some(id.index)
        &&& after.len == self.len - 1
        &&& after.free@ == seq![id.index] + self.free@
    }

    /// Taking a held value out keeps the arena valid and removes the id from
    /// the view.
    proof fn lemma_vacated(&self, after: &Arena<T>, id: EntityId)
        requires
            self.wf(),
            self.holds(id),
            self.vacated(after, id),
        ensures
            after.wf(),
            after@ == self@.remove(id),
    {
        let idx = id.index as int;
        let old_free = self.free@;
        assert(!old_free.contains(id.index)) by {
            if old_free.contains(id.index) {
                let k = choose|k: int| 0 <= k < old_free.len() && old_free[k] == id.index;
                assert(self.slots[old_free[k] as int].value is None);
            }
        }
        assert forall|k: int| 0 <= k < after.free@.len() implies {
            &&& (#[trigger] after.free@[k]) < after.slots.len()
            &&& after.slots[after.free@[k] as int].value is None
            &&& after.slots[after.free@[k] as int].next_free == (if k + 1 < after.free@.len() {
                Some(after.free@[k + 1])
            } else {
                None
            })
        } by {
            if k > 0 {
                assert(after.free@[k] == old_free[k - 1]);
                assert(old_free.contains(old_free[k - 1]));
                if k + 1 < after.free@.len() {
                    assert(after.free@[k + 1] == old_free[k]);
                }
            } else {
                if after.free@.len() > 1 {
                    assert(after.free@[1] == old_free[0]);
                }
            }
        }
        assert forall|i: int|
            0 <= i < after.slots.len() && (#[trigger] after.slots[i]).value is None
            implies after.free@.contains(i as u32) by {
            if i == idx {
                assert(after.free@[0] == i as u32);
            } else {
                assert(self.slots[i].value is None);
                let k = choose|k: int| 0 <= k < old_free.len() && old_free[k] == i as u32;
                assert(after.free@[k + 1] == i as u32);
            }
        }
        assert(after.free@.no_duplicates()) by {
            assert forall|a: int, b: int|
                0 <= a < after.free@.len() && 0 <= b < after.free@.len() && a != b
                implies after.free@[a] != after.free@[b] by {
                if a > 0 {
                    assert(after.free@[a] == old_free[a - 1]);
                    assert(old_free.contains(old_free[a - 1]));
                }
                if b > 0 {
                    assert(after.free@[b] == old_free[b - 1]);
                    assert(old_free.contains(old_free[b - 1]));
                }
            }
        }
        assert(after@ =~= self@.remove(id));
    }

    /// Takes the value that `id` names out of the arena, if it is still
    /// there. Its slot moves to the next generation and to the front of the
    /// free list.
    pub fn remove(&mut self, id: EntityId) -> (r: Option<T>)
        requires
            old(self).wf(),
        ensures
            final(self).wf(),
            final(self).slot_count() == old(self).slot_count(),
            old(self)@.contains_key(id) ==> {
                &&& r == Some(old(self)@[id])
                &&& final(self)@ == old(self)@.remove(id)
                &&& final(self).spec_len() == old(self).spec_len() - 1
                &&& final(self).free_list() == seq![id.index] + old(self).free_list()
                &&& final(self).generation_of(id.index as int) == id.generation.wrapping_add(1)
                &&& forall|i: int|
                    0 <= i < old(self).slot_count() && i != id.index ==> final(self).generation_of(
                        i,
                    ) == old(self).generation_of(i)
            },
            !old(self)@.contains_key(id) ==> {
                &&& r is None
                &&& final(self)@ == old(self)@
                &&& final(self).spec_len() == old(self).spec_len()
                &&& final(self).free_list() == old(self).free_list()
                &&& forall|i: int|
                    0 <= i < old(self).slot_count() ==> final(self).generation_of(i) == old(
                        self,
                    ).generation_of(i)
            },
    {
        let idx = id.index as usize;
        if idx >= self.slots.len() {
            return None;
        }
        if self.slots[idx].generation != id.generation || self.slots[idx].value.is_none() {
            return None;
        }
        proof {
            old(self).lemma_len();
            assert(old(self)@.dom().contains(id));
            if old(self)@.dom().len() == 0 {
                old(self)@.dom().lemma_len0_is_empty();
            }
        }
        let mut vacated = Slot {
            generation: id.generation.wrapping_add(1),
            value: None,
            next_free: self.free_head,
        };
        core::mem::swap(&mut self.slots[idx], &mut vacated);
        self.free_head = Some(id.index);
        self.len = self.len - 1;
        proof {
            self.free@ = seq![id.index] + self.free@;
            assert(old(self).vacated(&*self, id));
            old(self).lemma_vacated(&*self, id);
        }
        vacated.value
    }

    /// The values held, each with its id, in the order of their slots.
    pub fn iter(&self) -> (r: Vec<(EntityId, &T)>)
        requires
            self.wf(),
        ensures
            forall|k: int|
                0 <= k < r.len() ==> self@.contains_key((#[trigger] r[k]).0) && *r[k].1 == self@[r[k].0],
            forall|k: int, l: int|
                0 <= k < l < r.len() ==> (#[trigger] r[k]).0.index < (#[trigger] r[l]).0.index,
            forall|id: EntityId|
                self@.contains_key(id) ==> exists|k: int| 0 <= k < r.len() && (#[trigger] r[k]).0 == id,
    {
        let mut out: Vec<(EntityId, &T)> = Vec::new();
        let n = self.slots.len();
        let mut i: usize = 0;
        while i < n
            invariant
                i <= n,
                n == self.slots.len(),
                n <= u32::MAX,
                forall|k: int|
                    0 <= k < out.len() ==> self.holds((#[trigger] out[k]).0) && *out[k].1
                        == self@[out[k].0] && out[k].0.index < i,
                forall|k: int, l: int|
                    0 <= k < l < out.len() ==> (#[trigger] out[k]).0.index < (
                    #[trigger] out[l]).0.index,
                forall|id: EntityId|
                    self.holds(id) && id.index < i ==> exists|k: int|
                        0 <= k < out.len() && (#[trigger] out[k]).0 == id,
            decreases n - i,
        {
            let slot = &self.slots[i];
            match slot.value.as_ref() {
                Some(v) => {
                    let id = EntityId { index: i as u32, generation: slot.generation };
                    let ghost prev = out@;
                    out.push((id, v));
                    proof {
                        assert forall|other: EntityId|
                            self.holds(other) && other.index < i + 1 implies exists|k: int|
                            0 <= k < out.len() && (#[trigger] out[k]).0 == other by {
                            if other.index < i {
                                let k = choose|k: int|
                                    0 <= k < prev.len() && (#[trigger] prev[k]).0 == other;
                                assert(out[k].0 == other);
                            } else {
                                assert(out[prev.len() as int].0 == other);
                            }
                        }
                    }
                },
                None => {},
            }
            i += 1;
        }
        out
    }

    /// Whether `after` holds values under the same ids as `self`, with
    /// nothing but the values changed.
    spec fn revalued(&self, after: &Arena<T>) -> bool {
        &&& after.slots@.len() == self.slots@.len()
        &&& forall|i: int|
            0 <= i < self.slots.len() ==> {
                &&& (#[trigger] after.slots[i]).generation == self.slots[i].generation
                &&& after.slots[i].next_free == self.slots[i].next_free
                &&& after.slots[i].value is Some <==> self.slots[i].value is Some
            }
        &&& after.free_head == self.free_head
        &&& after.len == self.len
        &&& after.free@ == self.free@
    }

    /// Writing to held values keeps the arena valid and its ids the same.
    proof fn lemma_revalued(&self, after: &Arena<T>)
        requires
            self.wf(),
            self.revalued(after),
        ensures
            after.wf(),
            after@.dom() == self@.dom(),
    {
        assert forall|k: int| 0 <= k < after.free@.len() implies {
            &&& (#[trigger] after.free@[k]) < after.slots.len()
            &&& after.slots[after.free@[k] as int].value is None
            &&& after.slots[after.free@[k] as int].next_free == (if k + 1 < after.free@.len() {
                Some(after.free@[k + 1])
            } else {
                None
            })
        } by {
            assert(self.free@[k] < self.slots.len());
            assert(after.slots[self.free@[k] as int].generation == self.slots[self.free@[k] as int].generation);
        }
        assert forall|i: int|
            0 <= i < after.slots.len() && (#[trigger] after.slots[i]).value is None
            implies after.free@.contains(i as u32) by {
            assert(self.slots[i].value is None);
        }
        assert(after@.dom() =~= self@.dom()) by {
            assert forall|id: EntityId| after.holds(id) == self.holds(id) by {
                if id.index < self.slots.len() {
                    assert(after.slots[id.index as int].generation == self.slots[id.index as int].generation);
                }
            }
        }
    }

    /// The values held, for writing, each with its id, in the order of
    /// their slots.
    pub fn iter_mut(&mut self) -> (r: Vec<(EntityId, &mut T)>)
        requires
            old(self).wf(),
        ensures
            forall|k: int|
                0 <= k < r.len() ==> old(self)@.contains_key((#[trigger] r[k]).0) && *r[k].1 == old(
                    self,
                )@[r[k].0],
            forall|k: int, l: int|
                0 <= k < l < r.len() ==> (#[trigger] r[k]).0.index < (#[trigger] r[l]).0.index,
            forall|id: EntityId|
                old(self)@.contains_key(id) ==> exists|k: int|
                    0 <= k < r.len() && (#[trigger] r[k]).0 == id,
            final(self).wf(),
            final(self)@.dom() == old(self)@.dom(),
            final(self).spec_len() == old(self).spec_len(),
            final(self).slot_count() == old(self).slot_count(),
            final(self).free_list() == old(self).free_list(),
            forall|i: int|
                0 <= i < old(self).slot_count() ==> final(self).generation_of(i) == old(
                    self,
                ).generation_of(i),
            forall|k: int| 0 <= k < r.len() ==> final(self)@[(#[trigger] r[k]).0] == *final(r[k].1),
    {
        let mut out: Vec<(EntityId, &mut T)> = Vec::new();
        let ghost all = self.slots@;
        let ghost after = *final(self);
        let top: &mut [Slot<T>] = self.slots.as_mut_slice();
        let ghost fin = final(top)@;
        let mut rest: &mut [Slot<T>] = top;
        let mut i: usize = 0;
        while rest.len() > 0
            invariant
                all.len() <= u32::MAX,
                i + rest.len() == all.len(),
                rest@ == all.subrange(i as int, all.len() as int),
                fin.len() >= i,
                fin.subrange(i as int, fin.len() as int) == final(rest)@,
                forall|idx: int|
                    0 <= idx < i ==> {
                        &&& (#[trigger] fin[idx]).generation == all[idx].generation
                        &&& fin[idx].next_free == all[idx].next_free
                        &&& fin[idx].value is Some <==> all[idx].value is Some
                    },
                forall|k: int|
                    0 <= k < out.len() ==> {
                        &&& (#[trigger] out[k]).0.index < i
                        &&& out[k].0.generation == all[out[k].0.index as int].generation
                        &&& all[out[k].0.index as int].value == Some(*out[k].1)
                        &&& fin[out[k].0.index as int].value == Some(*final(out[k].1))
                    },
                forall|k: int, l: int|
                    0 <= k < l < out.len() ==> (#[trigger] out[k]).0.index < (
                    #[trigger] out[l]).0.index,
                forall|idx: int|
                    0 <= idx < i && (#[trigger] all[idx]).value is Some ==> exists|k: int|
                        0 <= k < out.len() && (#[trigger] out[k]).0.index == idx,
            decreases rest.len(),
        {
            let whole = rest;
            let (head, tail) = whole.split_at_mut(1);
            assert(head@[0] == all[i as int]);
            assert(tail@ =~= all.subrange(i + 1, all.len() as int));
            let ghost head_fin = final(head)@;
            let ghost head_now = head@;
            let ghost tail_fin = final(tail)@;
            assert(fin.subrange(i as int, fin.len() as int) == head_fin + tail_fin);
            match head.first_mut() {
                Some(slot) => {
                    let ghost slot_fin = *final(slot);
                    assert(head_fin == head_now.update(0, slot_fin));
                    proof {
                        let sub = fin.subrange(i as int, fin.len() as int);
                        assert(head_fin.len() == 1);
                        assert(sub.len() == 1 + tail_fin.len());
                        assert(fin.len() - i == 1 + tail_fin.len());
                        assert(fin[i as int] == sub[0]);
                        assert(sub[0] == slot_fin);
                        assert forall|t: int| 0 <= t < tail_fin.len() implies fin[i + 1 + t]
                            == tail_fin[t] by {
                            assert(sub[1 + t] == (head_fin + tail_fin)[1 + t]);
                            assert(sub[1 + t] == fin[i + 1 + t]);
                        }
                        assert(fin.subrange(i + 1, fin.len() as int) =~= tail_fin);
                    }
                    let generation = slot.generation;
                    match slot.value.as_mut() {
                        Some(v) => {
                            let id = EntityId { index: i as u32, generation };
                            let ghost prev = out@;
                            out.push((id, v));
                            proof {
                                assert forall|idx: int|
                                    0 <= idx < i + 1 && (#[trigger] all[idx]).value is Some
                                    implies exists|k: int|
                                    0 <= k < out.len() && (#[trigger] out[k]).0.index == idx by {
                                    if idx < i {
                                        let k = choose|k: int|
                                            0 <= k < prev.len() && (#[trigger] prev[k]).0.index
                                                == idx;
                                        assert(out[k].0.index == idx);
                                    } else {
                                        assert(out[prev.len() as int].0.index == idx);
                                    }
                                }
                            }
                        },
                        None => {},
                    }
                },
                None => {},
            }
            rest = tail;
            i += 1;
        }
        // nothing is left: the empty rest has no first slot, and stays empty
        let _ = rest.first_mut();
        proof {
            assert(fin.len() == all.len());
            assert forall|id: EntityId| old(self).holds(id) implies exists|k: int|
                0 <= k < out.len() && (#[trigger] out[k]).0 == id by {
                assert(all[id.index as int].value is Some);
                let k = choose|k: int|
                    0 <= k < out.len() && (#[trigger] out[k]).0.index == id.index as int;
                assert(out[k].0 == id);
            }
            assert(after.slots@ == fin);
            assert(old(self).revalued(&after));
            old(self).lemma_revalued(&after);
        }
        out
    }

    /// Whether `id` names a value of the arena.
    pub fn contains(&self, id: EntityId) -> (b: bool)
        requires
            self.wf(),
        ensures
            b == self@.contains_key(id),
    {
        self.get(id).is_some()
    }

    /// Number of values held.
    pub fn len(&self) -> (n: usize)
        ensures
            n == self.spec_len(),
    {
        self.len
    }

    /// Whether the arena holds no value.
    pub fn is_empty(&self) -> (b: bool)
        ensures
            b == (self.spec_len() == 0),
    {
        self.len == 0
    }
}

impl<T> Default for Arena<T> {
    fn default() -> (a: Arena<T>)
        ensures
            a.wf(),
            a@ == Map::<EntityId, T>::empty(),
            a.spec_len() == 0,
    {
        Arena::new()
    }
}

} // verus!
