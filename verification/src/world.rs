//! A world: the units in it, the tasks they were given, and its size.
use vstd::prelude::*;

use crate::slots::{
    live_key, Slots, slot_index, task_slot_count, task_slots, tasks_get, tasks_insert, tasks_len,
    tasks_new, unit_slot_count, unit_slots, units_get, units_get_mut, units_insert,
    units_len, units_new,
};
use crate::unit::{Task, TaskID, Unit, UnitID, UnitUpdateResult};

verus! {

/// How many times `ids` names the unit with key `k`.
pub open spec fn occurrences(ids: Seq<UnitID>, k: u64) -> nat
    decreases ids.len(),
{
    if ids.len() == 0 {
        0
    } else {
        occurrences(ids.drop_last(), k) + if ids.last().key() == k {
            1nat
        } else {
            0nat
        }
    }
}

/// `n` copies of `t`.
pub open spec fn repeat(t: TaskID, n: nat) -> Seq<TaskID> {
    Seq::new(n, |i: int| t)
}

/// How many tasks the updates in `updates` addressed to the unit with key
/// `k` completed, together.
pub open spec fn completed_for(updates: Seq<(UnitID, UnitUpdateResult)>, k: u64) -> nat
    decreases updates.len(),
{
    if updates.len() == 0 {
        0
    } else {
        completed_for(updates.drop_last(), k) + if updates.last().0.key() == k {
            updates.last().1.completed_tasks as nat
        } else {
            0nat
        }
    }
}

/// A world that holds units and tasks.
pub struct World {
    units: Slots<Unit>,
    tasks: Slots<Task>,
    size: (u32, u32),
}

impl World {
    /// The units, by key.
    pub closed spec fn unit_map(&self) -> Map<u64, Unit> {
        unit_slots(self.units)
    }

    /// The tasks, by key.
    pub closed spec fn task_map(&self) -> Map<u64, Task> {
        task_slots(self.tasks)
    }

    /// The world's width and height.
    pub closed spec fn dimensions(&self) -> (u32, u32) {
        self.size
    }

    /// Units and tasks are only ever added: each slot map has as many
    /// slots as entries, and every key is live.
    pub closed spec fn wf(&self) -> bool {
        &&& self.unit_map().dom().finite()
        &&& self.unit_map().len() == unit_slot_count(self.units)
        &&& forall|k: u64| #[trigger] self.unit_map().contains_key(k) ==> live_key(k)
        &&& forall|k: u64| #[trigger]
            self.unit_map().contains_key(k) ==> 1 <= slot_index(k) <= unit_slot_count(self.units)
        &&& self.task_map().dom().finite()
        &&& self.task_map().len() == task_slot_count(self.tasks)
        &&& forall|k: u64| #[trigger] self.task_map().contains_key(k) ==> live_key(k)
    }

    /// Every task queued on a unit is one the world holds.
    pub open spec fn task_refs_valid(&self) -> bool {
        forall|k: u64, i: int|
            #![trigger self.unit_map()[k]@.tasks[i]]
            self.unit_map().contains_key(k) && 0 <= i < self.unit_map()[k]@.tasks.len()
                ==> self.task_map().contains_key(self.unit_map()[k]@.tasks[i].key())
    }

    /// `after` is `before` after `task` was stored under `t` and `t` was queued on
    /// the units that `ids` names, once per time it names them.
    pub open spec fn entasked(before: World, after: World, ids: Seq<UnitID>, task: Task, t: TaskID) -> bool {
        &&& live_key(t.key())
        &&& !before.task_map().contains_key(t.key())
        &&& after.task_map() == before.task_map().insert(t.key(), task)
        &&& after.unit_map().dom() == before.unit_map().dom()
        &&& forall|k: u64| #[trigger]
            before.unit_map().contains_key(k) ==> after.unit_map()[k]@ == before.unit_map()[k]@.with_tasks(
                before.unit_map()[k]@.tasks + repeat(t, occurrences(ids, k)),
            )
    }

    /// An empty world of the given size.
    pub fn new(size: (u32, u32)) -> (w: World)
        ensures
            w.wf(),
            w.unit_map().dom() == Set::<u64>::empty(),
            w.task_map().dom() == Set::<u64>::empty(),
            w.dimensions() == size,
    {
        World { units: units_new(), tasks: tasks_new(), size }
    }

    /// The world's width and height.
    pub fn size(&self) -> (s: (u32, u32))
        ensures
            s == self.dimensions(),
    {
        self.size
    }

    /// The slot map that holds the units.
    pub fn get_units(&self) -> (m: &Slots<Unit>)
        ensures
            unit_slots(*m) == self.unit_map(),
    {
        &self.units
    }

    /// Adds `unit` to the world under a key that no unit had, and returns
    /// its id. Units are never removed, so the new unit's slot comes after
    /// every other unit's: `unit_ids` lists units in spawn order.
    pub fn spawn_unit(&mut self, unit: Unit) -> (id: UnitID)
        requires
            old(self).wf(),
            old(self).unit_map().len() + 1 < 0xFFFF_FFFF,
        ensures
            final(self).wf(),
            !old(self).unit_map().contains_key(id.key()),
            final(self).unit_map() == old(self).unit_map().insert(id.key(), unit),
            final(self).unit_map().len() == old(self).unit_map().len() + 1,
            forall|j: u64| #[trigger]
                old(self).unit_map().contains_key(j) ==> slot_index(j) < slot_index(id.key()),
            final(self).task_map() == old(self).task_map(),
            final(self).dimensions() == old(self).dimensions(),
            old(self).task_refs_valid() && (forall|i: int|
                0 <= i < unit@.tasks.len() ==> old(self).task_map().contains_key(
                    #[trigger] unit@.tasks[i].key(),
                )) ==> final(self).task_refs_valid(),
    {
        let ghost before = *self;
        let k = units_insert(&mut self.units, unit);
        proof {
            if before.task_refs_valid() && (forall|i: int|
                0 <= i < unit@.tasks.len() ==> before.task_map().contains_key(
                    #[trigger] unit@.tasks[i].key(),
                )) {
                assert forall|k2: u64, j: int|
                    self.unit_map().contains_key(k2) && 0 <= j < self.unit_map()[k2]@.tasks.len()
                        implies self.task_map().contains_key(
                        #[trigger] self.unit_map()[k2]@.tasks[j].key(),
                    ) by {
                    if k2 != k {
                        assert(self.unit_map()[k2] == before.unit_map()[k2]);
                    }
                }
            }
        }
        UnitID::from_key(k)
    }

    /// How many units the world holds.
    pub fn unit_count(&self) -> (n: usize)
        ensures
            n == self.unit_map().len(),
    {
        units_len(&self.units)
    }

    /// How many tasks the world holds.
    pub fn task_count(&self) -> (n: usize)
        ensures
            n == self.task_map().len(),
    {
        tasks_len(&self.tasks)
    }

    /// The unit that `id` names, if the world holds it.
    pub fn get_unit(&self, id: UnitID) -> (r: Option<&Unit>)
        ensures
            r is Some <==> self.unit_map().contains_key(id.key()),
            r is Some ==> *r.unwrap() == self.unit_map()[id.key()],
    {
        units_get(&self.units, id.ffi())
    }

    /// A mutable borrow of the unit that `id` names; what is written
    /// through it is what the world holds afterwards.
    pub fn get_unit_mut(&mut self, id: UnitID) -> (r: Option<&mut Unit>)
        requires
            old(self).wf(),
        ensures
            r is Some <==> old(self).unit_map().contains_key(id.key()),
            r is None ==> *final(self) == *old(self),
            r is Some ==> *r.unwrap() == old(self).unit_map()[id.key()],
            r is Some ==> final(self).unit_map() == old(self).unit_map().insert(
                id.key(),
                *final(r.unwrap()),
            ),
            r is Some ==> final(self).task_map() == old(self).task_map(),
            r is Some ==> final(self).dimensions() == old(self).dimensions(),
            r is Some ==> final(self).wf(),
    {
        units_get_mut(&mut self.units, id.ffi())
    }

    /// The task that `taskid` names, if the world holds it.
    pub fn get_task(&self, taskid: TaskID) -> (r: Option<&Task>)
        ensures
            r is Some <==> self.task_map().contains_key(taskid.key()),
            r is Some ==> *r.unwrap() == self.task_map()[taskid.key()],
    {
        tasks_get(&self.tasks, taskid.ffi())
    }

    /// Stores `task`, and queues it on each unit that `units` names, once
    /// per time it is named; ids of units the world does not hold are
    /// passed over.
    pub fn entask_units(&mut self, units: &[UnitID], task: Task)
        requires
            old(self).wf(),
            old(self).task_map().len() + 1 < 0xFFFF_FFFF,
        ensures
            final(self).wf(),
            final(self).dimensions() == old(self).dimensions(),
            exists|t: TaskID| #[trigger] World::entasked(*old(self), *final(self), units@, task, t),
            forall|i: int|
                0 <= i < units.len() && old(self).unit_map().contains_key(#[trigger] units[i].key())
                    ==> ({
                    let k = units[i].key();
                    let bq = old(self).unit_map()[k]@.tasks;
                    let aq = final(self).unit_map()[k]@.tasks;
                    &&& aq.len() == bq.len() + units@.filter(names_unit(k)).len()
                    &&& aq.subrange(0, bq.len() as int) == bq
                    &&& final(self).task_map().contains_key(aq.last().key())
                    &&& final(self).task_map()[aq.last().key()] == task
                    &&& forall|m: int| bq.len() <= m < aq.len() ==> aq[m] == aq.last()
                    &&& final(self).unit_map()[k]@ == old(self).unit_map()[k]@.with_tasks(aq)
                }),
            forall|k: u64|
                #![trigger final(self).unit_map()[k]]
                old(self).unit_map().contains_key(k) && (forall|i: int|
                    0 <= i < units.len() ==> units[i].key() != k) ==> final(self).unit_map()[k]@
                    == old(self).unit_map()[k]@,
            old(self).task_refs_valid() ==> final(self).task_refs_valid(),
    {
        let ghost before = *self;
        let k = tasks_insert(&mut self.tasks, task);
        let taskid = TaskID::from_key(k);
        let mut i: usize = 0;
        while i < units.len()
            invariant
                0 <= i <= units.len(),
                before.wf(),
                self.wf(),
                self.dimensions() == before.dimensions(),
                live_key(taskid.key()),
                !before.task_map().contains_key(taskid.key()),
                self.task_map() == before.task_map().insert(taskid.key(), task),
                self.unit_map().dom() == before.unit_map().dom(),
                forall|k: u64| #[trigger]
                    before.unit_map().contains_key(k) ==> self.unit_map()[k]@
                        == before.unit_map()[k]@.with_tasks(
                        before.unit_map()[k]@.tasks + repeat(taskid, occurrences(units@.take(i as int), k)),
                    ),
            decreases units.len() - i,
        {
            let id = units[i];
            proof {
                assert(units@.take(i + 1).drop_last() =~= units@.take(i as int));
            }
            let ghost mid = *self;
            match self.get_unit_mut(id) {
                Some(unit) => {
                    unit.add_task(taskid);
                },
                None => {},
            }
            proof {
                assert forall|k: u64| #[trigger] before.unit_map().contains_key(k) implies self.unit_map()[k]@
                    == before.unit_map()[k]@.with_tasks(
                    before.unit_map()[k]@.tasks + repeat(taskid, occurrences(units@.take(i + 1), k)),
                ) by {
                    let n = occurrences(units@.take(i as int), k);
                    if k == id.key() {
                        assert(before.unit_map()[k]@.tasks + repeat(taskid, n + 1) =~= (
                        before.unit_map()[k]@.tasks + repeat(taskid, n)).push(taskid));
                    }
                }
            }
            i = i + 1;
        }
        proof {
            assert(units@.take(units.len() as int) =~= units@);
            assert(World::entasked(before, *self, units@, task, taskid));
            assert forall|i: int|
                0 <= i < units.len() && before.unit_map().contains_key(#[trigger] units[i].key())
                    implies ({
                    let k = units[i].key();
                    let bq = before.unit_map()[k]@.tasks;
                    let aq = self.unit_map()[k]@.tasks;
                    &&& aq.len() == bq.len() + units@.filter(names_unit(k)).len()
                    &&& aq.subrange(0, bq.len() as int) == bq
                    &&& self.task_map().contains_key(aq.last().key())
                    &&& self.task_map()[aq.last().key()] == task
                    &&& forall|m: int| bq.len() <= m < aq.len() ==> aq[m] == aq.last()
                    &&& self.unit_map()[k]@ == before.unit_map()[k]@.with_tasks(aq)
                }) by {
                let k = units[i].key();
                law_occurrences_counts_names(units@, k);
                law_named_unit_occurs(units@, i);
                let bq = before.unit_map()[k]@.tasks;
                let aq = self.unit_map()[k]@.tasks;
                assert(aq == bq + repeat(taskid, occurrences(units@, k)));
                assert(aq.subrange(0, bq.len() as int) =~= bq);
                assert(aq.last() == taskid);
            }
            assert forall|k: u64|
                #![trigger self.unit_map()[k]]
                before.unit_map().contains_key(k) && (forall|i: int|
                    0 <= i < units.len() ==> units[i].key() != k) implies self.unit_map()[k]@
                    == before.unit_map()[k]@ by {
                assert forall|i: int| 0 <= i < units@.len() implies #[trigger] units@[i].key() != k by {
                    assert(units[i].key() != k);
                }
                law_unnamed_unit_does_not_occur(units@, k);
                assert(before.unit_map()[k]@.tasks + repeat(taskid, 0) =~= before.unit_map()[k]@.tasks);
            }
            if before.task_refs_valid() {
                assert forall|k: u64, j: int|
                    self.unit_map().contains_key(k) && 0 <= j < self.unit_map()[k]@.tasks.len()
                        implies self.task_map().contains_key(
                        #[trigger] self.unit_map()[k]@.tasks[j].key(),
                    ) by {
                    let old_len = before.unit_map()[k]@.tasks.len();
                    if j < old_len {
                        assert(self.unit_map()[k]@.tasks[j] == before.unit_map()[k]@.tasks[j]);
                    } else {
                        assert(self.unit_map()[k]@.tasks[j] == taskid);
                    }
                }
            }
        }
    }

    /// Drops all tasks of each unit that `units` names; ids of units the
    /// world does not hold are passed over.
    pub fn detask_units(&mut self, units: &[UnitID])
        requires
            old(self).wf(),
        ensures
            final(self).wf(),
            final(self).dimensions() == old(self).dimensions(),
            final(self).task_map() == old(self).task_map(),
            final(self).unit_map().dom() == old(self).unit_map().dom(),
            forall|k: u64| #[trigger]
                old(self).unit_map().contains_key(k) ==> if occurrences(units@, k) > 0 {
                    final(self).unit_map()[k]@ == old(self).unit_map()[k]@.with_tasks(Seq::empty())
                } else {
                    final(self).unit_map()[k] == old(self).unit_map()[k]
                },
            forall|i: int|
                0 <= i < units.len() && old(self).unit_map().contains_key(#[trigger] units[i].key())
                    ==> final(self).unit_map()[units[i].key()]@.tasks.len() == 0,
            forall|k: u64|
                #![trigger final(self).unit_map()[k]]
                old(self).unit_map().contains_key(k) && (forall|i: int|
                    0 <= i < units.len() ==> units[i].key() != k) ==> final(self).unit_map()[k]
                    == old(self).unit_map()[k],
            old(self).task_refs_valid() ==> final(self).task_refs_valid(),
    {
        let ghost before = *self;
        let mut i: usize = 0;
        while i < units.len()
            invariant
                0 <= i <= units.len(),
                self.wf(),
                self.dimensions() == before.dimensions(),
                self.task_map() == before.task_map(),
                self.unit_map().dom() == before.unit_map().dom(),
                forall|k: u64| #[trigger]
                    before.unit_map().contains_key(k) ==> if occurrences(units@.take(i as int), k) > 0 {
                        self.unit_map()[k]@ == before.unit_map()[k]@.with_tasks(Seq::empty())
                    } else {
                        self.unit_map()[k] == before.unit_map()[k]
                    },
            decreases units.len() - i,
        {
            let id = units[i];
            proof {
                assert(units@.take(i + 1).drop_last() =~= units@.take(i as int));
            }
            match self.get_unit_mut(id) {
                Some(unit) => {
                    unit.clear_tasks();
                },
                None => {},
            }
            i = i + 1;
        }
        proof {
            assert(units@.take(units.len() as int) =~= units@);
            assert forall|i: int|
                0 <= i < units.len() && before.unit_map().contains_key(#[trigger] units[i].key())
                    implies self.unit_map()[units[i].key()]@.tasks.len() == 0 by {
                law_named_unit_occurs(units@, i);
            }
            assert forall|k: u64|
                #![trigger self.unit_map()[k]]
                before.unit_map().contains_key(k) && (forall|i: int|
                    0 <= i < units.len() ==> units[i].key() != k) implies self.unit_map()[k]
                    == before.unit_map()[k] by {
                assert forall|i: int| 0 <= i < units@.len() implies #[trigger] units@[i].key() != k by {
                    assert(units[i].key() != k);
                }
                law_unnamed_unit_does_not_occur(units@, k);
            }
            if before.task_refs_valid() {
                assert forall|k: u64, j: int|
                    self.unit_map().contains_key(k) && 0 <= j < self.unit_map()[k]@.tasks.len()
                        implies self.task_map().contains_key(
                        #[trigger] self.unit_map()[k]@.tasks[j].key(),
                    ) by {
                    if occurrences(units@, k) == 0 {
                        assert(self.unit_map()[k]@.tasks[j] == before.unit_map()[k]@.tasks[j]);
                    }
                }
            }
        }
    }

    /// Drops from each listed unit's queue the tasks its update completed,
    /// in the order of `updates`; ids of units the world does not hold are
    /// passed over. The units' motion, floating-point work, is integrated by
    /// the caller.
    pub fn apply_updates(&mut self, updates: &[(UnitID, UnitUpdateResult)])
        requires
            old(self).wf(),
        ensures
            final(self).wf(),
            final(self).dimensions() == old(self).dimensions(),
            final(self).task_map() == old(self).task_map(),
            final(self).unit_map().dom() == old(self).unit_map().dom(),
            forall|k: u64| #[trigger]
                old(self).unit_map().contains_key(k) ==> final(self).unit_map()[k]@ == old(
                    self,
                ).unit_map()[k]@.with_tasks(
                    crate::unit::drop_front(old(self).unit_map()[k]@.tasks, completed_for(updates@, k)),
                ),
            forall|i: int|
                0 <= i < updates.len() && old(self).unit_map().contains_key(
                    #[trigger] updates[i].0.key(),
                ) && (forall|j: int|
                    0 <= j < updates.len() && j != i ==> updates[j].0.key() != updates[i].0.key())
                    ==> ({
                    let k = updates[i].0.key();
                    let c = updates[i].1.completed_tasks as int;
                    let bq = old(self).unit_map()[k]@.tasks;
                    let aq = final(self).unit_map()[k]@.tasks;
                    &&& aq.len() == if c < bq.len() {
                        bq.len() - c
                    } else {
                        0
                    }
                    &&& forall|m: int| 0 <= m < aq.len() ==> aq[m] == bq[m + c]
                    &&& final(self).unit_map()[k]@ == old(self).unit_map()[k]@.with_tasks(aq)
                }),
            forall|k: u64|
                #![trigger final(self).unit_map()[k]]
                old(self).unit_map().contains_key(k) && (forall|i: int|
                    0 <= i < updates.len() ==> updates[i].0.key() != k) ==> final(self).unit_map()[k]@
                    == old(self).unit_map()[k]@,
            old(self).task_refs_valid() ==> final(self).task_refs_valid(),
    {
        let ghost before = *self;
        let mut i: usize = 0;
        proof {
            assert(updates@.take(0) =~= Seq::<(UnitID, UnitUpdateResult)>::empty());
            assert forall|k: u64| #[trigger] before.unit_map().contains_key(k) implies self.unit_map()[k]@
                == before.unit_map()[k]@.with_tasks(
                crate::unit::drop_front(before.unit_map()[k]@.tasks, completed_for(updates@.take(0), k)),
            ) by {
                crate::unit::lemma_drop_front_zero(before.unit_map()[k]@.tasks);
            }
        }
        while i < updates.len()
            invariant
                0 <= i <= updates.len(),
                self.wf(),
                self.dimensions() == before.dimensions(),
                self.task_map() == before.task_map(),
                self.unit_map().dom() == before.unit_map().dom(),
                forall|k: u64| #[trigger]
                    before.unit_map().contains_key(k) ==> self.unit_map()[k]@
                        == before.unit_map()[k]@.with_tasks(
                        crate::unit::drop_front(
                            before.unit_map()[k]@.tasks,
                            completed_for(updates@.take(i as int), k),
                        ),
                    ),
            decreases updates.len() - i,
        {
            let (id, update) = updates[i];
            proof {
                assert(updates@.take(i + 1).drop_last() =~= updates@.take(i as int));
            }
            match self.get_unit_mut(id) {
                Some(unit) => {
                    unit.drop_completed_tasks(&update);
                },
                None => {},
            }
            proof {
                assert forall|k: u64| #[trigger] before.unit_map().contains_key(k) implies self.unit_map()[k]@
                    == before.unit_map()[k]@.with_tasks(
                    crate::unit::drop_front(
                        before.unit_map()[k]@.tasks,
                        completed_for(updates@.take(i + 1), k),
                    ),
                ) by {
                    let n = completed_for(updates@.take(i as int), k);
                    crate::unit::lemma_drop_front_twice(
                        before.unit_map()[k]@.tasks,
                        n,
                        update.completed_tasks as nat,
                    );
                }
            }
            i = i + 1;
        }
        proof {
            assert(updates@.take(updates.len() as int) =~= updates@);
            assert forall|i: int|
                0 <= i < updates.len() && before.unit_map().contains_key(
                    #[trigger] updates[i].0.key(),
                ) && (forall|j: int|
                    0 <= j < updates.len() && j != i ==> updates[j].0.key() != updates[i].0.key())
                    implies ({
                    let k = updates[i].0.key();
                    let c = updates[i].1.completed_tasks as int;
                    let bq = before.unit_map()[k]@.tasks;
                    let aq = self.unit_map()[k]@.tasks;
                    &&& aq.len() == if c < bq.len() {
                        bq.len() - c
                    } else {
                        0
                    }
                    &&& forall|m: int| 0 <= m < aq.len() ==> aq[m] == bq[m + c]
                    &&& self.unit_map()[k]@ == before.unit_map()[k]@.with_tasks(aq)
                }) by {
                let k = updates[i].0.key();
                assert forall|j: int| 0 <= j < updates@.len() && j != i implies #[trigger] updates@[j].0.key()
                    != updates@[i].0.key() by {
                    assert(updates[j].0.key() != updates[i].0.key());
                }
                law_completed_for_named_once(updates@, i);
                crate::unit::law_drop_front_keeps_the_rest(
                    before.unit_map()[k]@.tasks,
                    updates[i].1.completed_tasks as nat,
                );
            }
            assert forall|k: u64|
                #![trigger self.unit_map()[k]]
                before.unit_map().contains_key(k) && (forall|i: int|
                    0 <= i < updates.len() ==> updates[i].0.key() != k) implies self.unit_map()[k]@
                    == before.unit_map()[k]@ by {
                assert forall|i: int| 0 <= i < updates@.len() implies #[trigger] updates@[i].0.key() != k by {
                    assert(updates[i].0.key() != k);
                }
                law_completed_for_unnamed(updates@, k);
                crate::unit::lemma_drop_front_zero(before.unit_map()[k]@.tasks);
            }
            if before.task_refs_valid() {
                assert forall|k: u64, j: int|
                    self.unit_map().contains_key(k) && 0 <= j < self.unit_map()[k]@.tasks.len()
                        implies self.task_map().contains_key(
                        #[trigger] self.unit_map()[k]@.tasks[j].key(),
                    ) by {
                    let n = completed_for(updates@, k);
                    assert(self.unit_map()[k]@.tasks[j] == before.unit_map()[k]@.tasks[j + n]);
                }
            }
        }
    }

    /// The ids of all units but the one `unitid` names, by ascending slot
    /// index. The world must hold that unit.
    pub fn other_unit_ids(&self, unitid: UnitID) -> (ids: Vec<UnitID>)
        requires
            self.unit_map().contains_key(unitid.key()),
        ensures
            forall|i: int|
                0 <= i < ids.len() ==> self.unit_map().contains_key(#[trigger] ids[i].key())
                    && ids[i].key() != unitid.key(),
            forall|k: u64|
                self.unit_map().contains_key(k) && k != unitid.key() ==> exists|i: int|
                    0 <= i < ids.len() && #[trigger] ids[i].key() == k,
            forall|i: int, j: int|
                0 <= i < j < ids.len() ==> slot_index(#[trigger] ids[i].key()) < slot_index(
                    #[trigger] ids[j].key(),
                ),
    {
        let all = self.unit_ids();
        let mut ids: Vec<UnitID> = Vec::new();
        let mut i: usize = 0;
        while i < all.len()
            invariant
                0 <= i <= all.len(),
                forall|a: int| 0 <= a < all.len() ==> self.unit_map().contains_key(#[trigger] all[a].key()),
                forall|a: int, b: int|
                    0 <= a < b < all.len() ==> slot_index(#[trigger] all[a].key()) < slot_index(
                        #[trigger] all[b].key(),
                    ),
                forall|m: int|
                    0 <= m < ids.len() ==> self.unit_map().contains_key(#[trigger] ids[m].key())
                        && ids[m].key() != unitid.key(),
                forall|a: int|
                    0 <= a < i && #[trigger] all[a].key() != unitid.key() ==> exists|m: int|
                        0 <= m < ids.len() && #[trigger] ids[m].key() == all[a].key(),
                forall|m: int, b: int|
                    0 <= m < ids.len() && i <= b < all.len() ==> slot_index(#[trigger] ids[m].key())
                        < slot_index(#[trigger] all[b].key()),
                forall|m: int, n: int|
                    0 <= m < n < ids.len() ==> slot_index(#[trigger] ids[m].key()) < slot_index(
                        #[trigger] ids[n].key(),
                    ),
            decreases all.len() - i,
        {
            let id = all[i];
            if !id.same_unit(&unitid) {
                let ghost prev = ids@;
                ids.push(id);
                proof {
                    assert forall|a: int|
                        0 <= a < i + 1 && #[trigger] all[a].key() != unitid.key() implies exists|m: int|
                        0 <= m < ids.len() && #[trigger] ids[m].key() == all[a].key() by {
                        if a == i {
                            assert(ids[ids.len() - 1].key() == all[a].key());
                        } else {
                            let m = choose|m: int|
                                0 <= m < prev.len() && #[trigger] prev[m].key() == all[a].key();
                            assert(ids[m] == prev[m]);
                        }
                    }
                }
            }
            i = i + 1;
        }
        proof {
            assert forall|k: u64|
                self.unit_map().contains_key(k) && k != unitid.key() implies exists|m: int|
                0 <= m < ids.len() && #[trigger] ids[m].key() == k by {
                let a = choose|a: int| 0 <= a < all.len() && #[trigger] all[a].key() == k;
                assert(all[a].key() != unitid.key());
            }
        }
        ids
    }

    /// The ids of all units, by ascending slot index.
    pub fn unit_ids(&self) -> (ids: Vec<UnitID>)
        ensures
            forall|i: int| 0 <= i < ids.len() ==> self.unit_map().contains_key(#[trigger] ids[i].key()),
            forall|k: u64| self.unit_map().contains_key(k) ==> exists|i: int|
                0 <= i < ids.len() && #[trigger] ids[i].key() == k,
            forall|i: int, j: int|
                0 <= i < j < ids.len() ==> slot_index(#[trigger] ids[i].key()) < slot_index(
                    #[trigger] ids[j].key(),
                ),
    {
        self.units.keys()
    }
}

/// In a world where every queued task is stored, a unit that has tasks has
/// a current task: `Unit::current_task` finds it.
pub proof fn law_queued_task_is_stored(w: World, k: u64)
    requires
        w.task_refs_valid(),
        w.unit_map().contains_key(k),
        w.unit_map()[k]@.tasks.len() > 0,
    ensures
        w.task_map().contains_key(w.unit_map()[k]@.tasks[0].key()),
{
}

/// A unit named in `entask_units` whose queue was empty works on the new
/// task next, and the world gives back that task under its id.
pub proof fn law_entasked_idle_unit_works_on_task(
    before: World,
    after: World,
    ids: Seq<UnitID>,
    task: Task,
    t: TaskID,
    k: u64,
)
    requires
        World::entasked(before, after, ids, task, t),
        before.unit_map().contains_key(k),
        before.unit_map()[k]@.tasks.len() == 0,
        occurrences(ids, k) > 0,
    ensures
        after.unit_map().contains_key(k),
        after.unit_map()[k]@.tasks.len() > 0,
        after.unit_map()[k]@.tasks[0] == t,
        after.task_map().contains_key(after.unit_map()[k]@.tasks[0].key()),
        after.task_map()[after.unit_map()[k]@.tasks[0].key()] == task,
{
    assert(after.unit_map()[k]@.tasks =~= repeat(t, occurrences(ids, k)));
}

/// Whether an id names the unit with key `k`.
pub open spec fn names_unit(k: u64) -> spec_fn(UnitID) -> bool {
    |id: UnitID| id.key() == k
}

/// `occurrences` counts the entries of `ids` that name the unit.
pub proof fn law_occurrences_counts_names(ids: Seq<UnitID>, k: u64)
    ensures
        occurrences(ids, k) == ids.filter(names_unit(k)).len(),
    decreases ids.len(),
{
    reveal(Seq::filter);
    if ids.len() > 0 {
        law_occurrences_counts_names(ids.drop_last(), k);
    }
}

/// A unit that `ids` names at some index occurs in it.
pub proof fn law_named_unit_occurs(ids: Seq<UnitID>, i: int)
    requires
        0 <= i < ids.len(),
    ensures
        occurrences(ids, ids[i].key()) > 0,
{
    law_occurrences_counts_names(ids, ids[i].key());
    ids.lemma_filter_contains(names_unit(ids[i].key()), i);
}

/// A unit that no entry of `ids` names does not occur in it.
pub proof fn law_unnamed_unit_does_not_occur(ids: Seq<UnitID>, k: u64)
    requires
        forall|i: int| 0 <= i < ids.len() ==> #[trigger] ids[i].key() != k,
    ensures
        occurrences(ids, k) == 0,
    decreases ids.len(),
{
    if ids.len() > 0 {
        assert(ids.last().key() != k);
        assert forall|i: int| 0 <= i < ids.drop_last().len() implies #[trigger] ids.drop_last()[i].key()
            != k by {
            assert(ids.drop_last()[i] == ids[i]);
        }
        law_unnamed_unit_does_not_occur(ids.drop_last(), k);
    }
}

/// Updates that name no entry for the unit complete none of its tasks.
pub proof fn law_completed_for_unnamed(updates: Seq<(UnitID, UnitUpdateResult)>, k: u64)
    requires
        forall|i: int| 0 <= i < updates.len() ==> #[trigger] updates[i].0.key() != k,
    ensures
        completed_for(updates, k) == 0,
    decreases updates.len(),
{
    if updates.len() > 0 {
        assert(updates.last().0.key() != k);
        assert forall|i: int| 0 <= i < updates.drop_last().len() implies #[trigger] updates.drop_last()[i].0.key()
            != k by {
            assert(updates.drop_last()[i] == updates[i]);
        }
        law_completed_for_unnamed(updates.drop_last(), k);
    }
}

/// When a unit is named by the update at index `i` alone, the updates
/// complete exactly the tasks that update completes, wherever it stands.
pub proof fn law_completed_for_named_once(updates: Seq<(UnitID, UnitUpdateResult)>, i: int)
    requires
        0 <= i < updates.len(),
        forall|j: int|
            0 <= j < updates.len() && j != i ==> #[trigger] updates[j].0.key() != updates[i].0.key(),
    ensures
        completed_for(updates, updates[i].0.key()) == updates[i].1.completed_tasks,
    decreases updates.len(),
{
    let k = updates[i].0.key();
    let rest = updates.drop_last();
    if i == updates.len() - 1 {
        assert forall|j: int| 0 <= j < rest.len() implies #[trigger] rest[j].0.key() != k by {
            assert(rest[j] == updates[j]);
        }
        law_completed_for_unnamed(rest, k);
    } else {
        assert(updates.last().0.key() != k);
        assert(rest[i] == updates[i]);
        assert forall|j: int| 0 <= j < rest.len() && j != i implies #[trigger] rest[j].0.key()
            != rest[i].0.key() by {
            assert(rest[j] == updates[j]);
        }
        law_completed_for_named_once(rest, i);
    }
}

/// Completions add up over consecutive lists of updates: applying `a`
/// and then `b` completes, for each unit, what each completes.
pub proof fn law_completed_for_adds_up(a: Seq<(UnitID, UnitUpdateResult)>, b: Seq<(UnitID, UnitUpdateResult)>, k: u64)
    ensures
        completed_for(a + b, k) == completed_for(a, k) + completed_for(b, k),
    decreases b.len(),
{
    if b.len() == 0 {
        assert(a + b =~= a);
    } else {
        assert((a + b).drop_last() =~= a + b.drop_last());
        assert((a + b).last() == b.last());
        law_completed_for_adds_up(a, b.drop_last(), k);
    }
}

} // verus!
