//! A world whose units are numbered in the order they are spawned and
//! whose tasks are numbered in the order they are given; units steer by
//! separation, cohesion with units on the same task, and their task.
use std::collections::{HashMap, VecDeque};
use vstd::prelude::*;

use crate::unit::drop_front;
use crate::vec2::Vec2Bits;

verus! {

broadcast use vstd::std_specs::hash::group_hash_axioms;

/// How fast a unit moves and how big it is; each field is the bit pattern
/// of an `f32`.
#[derive(Clone, Copy, PartialEq, Eq, Structural, Debug)]
pub struct UnitStats {
    pub speed: u32,
    pub acc: u32,
    pub drag: u32,
    pub radius: u32,
}

impl UnitStats {
    /// The statistics every spawned unit has: speed 50, acceleration 100,
    /// drag 0.3, radius 5.
    pub fn basic() -> (s: UnitStats)
        ensures
            s.speed == 0x4248_0000,
            s.acc == 0x42C8_0000,
            s.drag == 0x3E99_999A,
            s.radius == 0x40A0_0000,
    {
        UnitStats { speed: 0x4248_0000, acc: 0x42C8_0000, drag: 0x3E99_999A, radius: 0x40A0_0000 }
    }
}

/// Something a unit can be told to do.
#[derive(Clone, Copy, PartialEq, Eq, Structural, Debug)]
pub enum UnitTask {
    /// Walk until within the completion range of `destination`.
    Walk { destination: Vec2Bits },
}

/// What one world update asks of a unit.
#[derive(Clone, Copy, PartialEq, Eq, Structural, Debug)]
pub enum UnitUpdateResult {
    /// The unit reached the goal of its current task.
    TaskCompleted,
    /// The unit is to change its velocity by this much.
    Accelerate(Vec2Bits),
}

/// A unit: its number, where it is, how it moves, and its task queue (of
/// task numbers), the one it works on first.
#[derive(Debug)]
pub struct Unit {
    id: usize,
    position: Vec2Bits,
    velocity: Vec2Bits,
    tasks: VecDeque<usize>,
    stats: UnitStats,
}

/// A unit as a mathematical value.
pub struct UnitView {
    pub id: usize,
    pub position: Vec2Bits,
    pub velocity: Vec2Bits,
    pub tasks: Seq<usize>,
    pub stats: UnitStats,
}

impl UnitView {
    /// The same unit with another task queue.
    pub open spec fn with_tasks(self, tasks: Seq<usize>) -> UnitView {
        UnitView { tasks, ..self }
    }

    /// The same unit at another place with another velocity.
    pub open spec fn with_motion(self, position: Vec2Bits, velocity: Vec2Bits) -> UnitView {
        UnitView { position, velocity, ..self }
    }
}

impl View for Unit {
    type V = UnitView;

    closed spec fn view(&self) -> UnitView {
        UnitView {
            id: self.id,
            position: self.position,
            velocity: self.velocity,
            tasks: self.tasks@,
            stats: self.stats,
        }
    }
}

/// How many tasks an update completes: one for `TaskCompleted`.
pub open spec fn completes(update: UnitUpdateResult) -> nat {
    match update {
        UnitUpdateResult::TaskCompleted => 1,
        UnitUpdateResult::Accelerate(_) => 0,
    }
}

impl Unit {
    /// Unit number `id`, at rest at `position`, with the basic statistics
    /// and no tasks.
    pub fn new(id: usize, position: Vec2Bits) -> (u: Unit)
        ensures
            u@.id == id,
            u@.position == position,
            u@.velocity == (Vec2Bits { x: 0, y: 0 }),
            u@.tasks == Seq::<usize>::empty(),
            u@.stats.speed == 0x4248_0000,
            u@.stats.acc == 0x42C8_0000,
            u@.stats.drag == 0x3E99_999A,
            u@.stats.radius == 0x40A0_0000,
    {
        Unit {
            id,
            position,
            velocity: Vec2Bits::zero(),
            stats: UnitStats::basic(),
            tasks: VecDeque::new(),
        }
    }

    /// The number of the task the unit works on, the first of its queue.
    pub fn get_current_taskid(&self) -> (r: Option<&usize>)
        ensures
            r is None <==> self@.tasks.len() == 0,
            r is Some ==> *r.unwrap() == self@.tasks[0],
    {
        if self.tasks.len() > 0 {
            Some(&self.tasks[0])
        } else {
            None
        }
    }

    /// Whether both units work on a task and it is the same task: the
    /// units that steer together.
    pub fn shares_task(&self, other: &Unit) -> (b: bool)
        ensures
            b == (self@.tasks.len() > 0 && other@.tasks.len() > 0 && self@.tasks[0]
                == other@.tasks[0]),
    {
        let mine = self.get_current_taskid();
        mine.is_some() && mine == other.get_current_taskid()
    }

    /// Queues task number `taskid` after the tasks the unit has.
    pub fn add_task(&mut self, taskid: usize)
        ensures
            final(self)@ == old(self)@.with_tasks(old(self)@.tasks.push(taskid)),
    {
        self.tasks.push_back(taskid);
    }

    /// Drops all of the unit's tasks.
    pub fn clear_tasks(&mut self)
        ensures
            final(self)@ == old(self)@.with_tasks(Seq::empty()),
    {
        self.tasks.clear();
    }

    /// Drops the current task when `update` says it is completed. Changing
    /// the velocity and integrating the motion is floating-point work, left
    /// to the caller, which writes the result back with [`Unit::set_motion`].
    pub fn drop_completed_tasks(&mut self, update: &UnitUpdateResult)
        ensures
            final(self)@ == old(self)@.with_tasks(drop_front(old(self)@.tasks, completes(*update))),
            *update is TaskCompleted && old(self)@.tasks.len() > 0 ==> final(self)@.tasks == old(
                self,
            )@.tasks.subrange(1, old(self)@.tasks.len() as int),
            *update is TaskCompleted && old(self)@.tasks.len() == 0 ==> final(self)@.tasks.len() == 0,
            *update is Accelerate ==> final(self)@ == old(self)@,
    {
        match update {
            UnitUpdateResult::TaskCompleted => {
                self.tasks.pop_front();
                assert(self@.tasks =~= drop_front(old(self)@.tasks, 1));
            },
            UnitUpdateResult::Accelerate(_) => {
                assert(self@.tasks =~= drop_front(old(self)@.tasks, 0));
                assert(self@.tasks =~= old(self)@.tasks);
            },
        }
    }

    /// The unit's number.
    pub fn id(&self) -> (id: usize)
        ensures
            id == self@.id,
    {
        self.id
    }

    /// Where the unit is.
    pub fn position(&self) -> (p: Vec2Bits)
        ensures
            p == self@.position,
    {
        self.position
    }

    /// How the unit moves.
    pub fn velocity(&self) -> (v: Vec2Bits)
        ensures
            v == self@.velocity,
    {
        self.velocity
    }

    /// The unit's statistics.
    pub fn stats(&self) -> (s: UnitStats)
        ensures
            s == self@.stats,
    {
        self.stats
    }

    /// Moves the unit to `position` with `velocity`.
    pub fn set_motion(&mut self, position: Vec2Bits, velocity: Vec2Bits)
        ensures
            final(self)@ == old(self)@.with_motion(position, velocity),
    {
        self.position = position;
        self.velocity = velocity;
    }
}

/// How many times `ids` holds `k`.
pub open spec fn count_of(ids: Seq<usize>, k: usize) -> nat
    decreases ids.len(),
{
    if ids.len() == 0 {
        0
    } else {
        count_of(ids.drop_last(), k) + if ids.last() == k {
            1nat
        } else {
            0nat
        }
    }
}

/// How many tasks the updates in `updates` addressed to unit `k` complete.
pub open spec fn completions_for(updates: Seq<(usize, UnitUpdateResult)>, k: usize) -> nat
    decreases updates.len(),
{
    if updates.len() == 0 {
        0
    } else {
        completions_for(updates.drop_last(), k) + if updates.last().0 == k {
            completes(updates.last().1)
        } else {
            0nat
        }
    }
}

/// A world of numbered units and numbered tasks.
pub struct World {
    units: HashMap<usize, Unit>,
    last_unit_id: usize,
    tasks: HashMap<usize, UnitTask>,
    last_task_id: usize,
    size: (u32, u32),
}

impl World {
    /// The units, by number.
    pub closed spec fn unit_map(&self) -> Map<usize, Unit> {
        self.units@
    }

    /// The tasks, by number.
    pub closed spec fn task_map(&self) -> Map<usize, UnitTask> {
        self.tasks@
    }

    /// The number the next spawned unit gets.
    pub closed spec fn next_unit_id(&self) -> usize {
        self.last_unit_id
    }

    /// The number the next task gets.
    pub closed spec fn next_task_id(&self) -> usize {
        self.last_task_id
    }

    /// The world's width and height.
    pub closed spec fn dimensions(&self) -> (u32, u32) {
        self.size
    }

    /// Both maps are finite, and every unit's and every task's number is
    /// below the next one to hand out.
    pub open spec fn wf(&self) -> bool {
        &&& self.unit_map().dom().finite()
        &&& self.task_map().dom().finite()
        &&& forall|k: usize| #[trigger] self.unit_map().contains_key(k) ==> k < self.next_unit_id()
        &&& forall|t: usize| #[trigger] self.task_map().contains_key(t) ==> t < self.next_task_id()
    }

    /// Every task queued on a unit is one the world holds.
    pub open spec fn task_refs_valid(&self) -> bool {
        forall|k: usize, i: int|
            #![trigger self.unit_map()[k]@.tasks[i]]
            self.unit_map().contains_key(k) && 0 <= i < self.unit_map()[k]@.tasks.len()
                ==> self.task_map().contains_key(self.unit_map()[k]@.tasks[i])
    }

    /// Inserting under the old next number and advancing it keeps every
    /// unit number below the next one.
    proof fn lemma_units_below_after_insert(&self, before: World, id: usize)
        requires
            before.wf(),
            id == before.next_unit_id(),
            self.next_unit_id() == id + 1,
            self.unit_map().dom() == before.unit_map().dom().insert(id),
            self.task_map() == before.task_map(),
            self.next_task_id() == before.next_task_id(),
        ensures
            self.wf(),
    {
        assert forall|k: usize| #[trigger] self.unit_map().contains_key(k) implies k
            < self.next_unit_id() by {
            if k != id {
                assert(before.unit_map().contains_key(k));
            }
        }
    }

    /// An empty world of the given size; numbering starts at 0.
    pub fn new(size: (u32, u32)) -> (w: World)
        ensures
            w.wf(),
            w.unit_map().dom() == Set::<usize>::empty(),
            w.task_map().dom() == Set::<usize>::empty(),
            w.next_unit_id() == 0,
            w.next_task_id() == 0,
            w.dimensions() == size,
    {
        World {
            units: HashMap::new(),
            last_unit_id: 0,
            tasks: HashMap::new(),
            last_task_id: 0,
            size,
        }
    }

    /// The world's width and height.
    pub fn size(&self) -> (s: (u32, u32))
        ensures
            s == self.dimensions(),
    {
        self.size
    }

    /// The number the next spawned unit gets.
    pub fn last_unit_id(&self) -> (n: usize)
        ensures
            n == self.next_unit_id(),
    {
        self.last_unit_id
    }

    /// The number the next task gets.
    pub fn last_task_id(&self) -> (n: usize)
        ensures
            n == self.next_task_id(),
    {
        self.last_task_id
    }

    /// Adds `unit` under the next unit number, which no unit had.
    pub fn spawn_unit(&mut self, unit: Unit)
        requires
            old(self).wf(),
            old(self).next_unit_id() < usize::MAX,
        ensures
            final(self).wf(),
            !old(self).unit_map().contains_key(old(self).next_unit_id()),
            final(self).unit_map() == old(self).unit_map().insert(old(self).next_unit_id(), unit),
            final(self).unit_map().len() == old(self).unit_map().len() + 1,
            final(self).next_unit_id() == old(self).next_unit_id() + 1,
            final(self).task_map() == old(self).task_map(),
            final(self).next_task_id() == old(self).next_task_id(),
            final(self).dimensions() == old(self).dimensions(),
    {
        let id = self.last_unit_id;
        self.units.insert(id, unit);
        self.last_unit_id = id + 1;
        proof {
            self.lemma_units_below_after_insert(*old(self), id);
        }
    }

    /// Adds a new unit at `position`, numbered with the next unit number,
    /// which no unit had: the spawn never replaces a unit.
    pub fn spawn_random_bih(&mut self, position: Vec2Bits)
        requires
            old(self).wf(),
            old(self).next_unit_id() < usize::MAX,
        ensures
            final(self).wf(),
            !old(self).unit_map().contains_key(old(self).next_unit_id()),
            final(self).unit_map().dom() == old(self).unit_map().dom().insert(old(self).next_unit_id()),
            final(self).unit_map().len() == old(self).unit_map().len() + 1,
            forall|k: usize| #[trigger]
                old(self).unit_map().contains_key(k) ==> final(self).unit_map()[k] == old(
                    self,
                ).unit_map()[k],
            final(self).unit_map()[old(self).next_unit_id() as usize]@ == (UnitView {
                id: old(self).next_unit_id(),
                position,
                velocity: Vec2Bits { x: 0, y: 0 },
                tasks: Seq::empty(),
                stats: UnitStats {
                    speed: 0x4248_0000,
                    acc: 0x42C8_0000,
                    drag: 0x3E99_999A,
                    radius: 0x40A0_0000,
                },
            }),
            final(self).next_unit_id() == old(self).next_unit_id() + 1,
            final(self).task_map() == old(self).task_map(),
            final(self).next_task_id() == old(self).next_task_id(),
            final(self).dimensions() == old(self).dimensions(),
    {
        let id = self.last_unit_id;
        proof {
            law_next_unit_number_is_free(*self);
        }
        let result = self.units.insert(id, Unit::new(id, position));
        // The number was never handed out, so nothing was replaced.
        assert(result is None);
        self.last_unit_id = id + 1;
        proof {
            self.lemma_units_below_after_insert(*old(self), id);
        }
    }

    /// How many units the world holds.
    pub fn unit_count(&self) -> (n: usize)
        ensures
            n == self.unit_map().len(),
    {
        self.units.len()
    }

    /// Unit number `id`, if the world holds it.
    pub fn get_unit(&self, id: usize) -> (r: Option<&Unit>)
        ensures
            r is Some <==> self.unit_map().contains_key(id),
            r is Some ==> *r.unwrap() == self.unit_map()[id],
    {
        self.units.get(&id)
    }

    /// Task number `taskid`, if the world holds it.
    pub fn get_task(&self, taskid: usize) -> (r: Option<&UnitTask>)
        ensures
            r is Some <==> self.task_map().contains_key(taskid),
            r is Some ==> *r.unwrap() == self.task_map()[taskid],
    {
        self.tasks.get(&taskid)
    }

    /// The numbers of all units, ascending.
    pub fn unit_ids(&self) -> (ids: Vec<usize>)
        requires
            self.wf(),
        ensures
            forall|i: int| 0 <= i < ids.len() ==> self.unit_map().contains_key(#[trigger] ids[i]),
            forall|k: usize| self.unit_map().contains_key(k) ==> ids@.contains(k),
            forall|i: int, j: int| 0 <= i < j < ids.len() ==> #[trigger] ids[i] < #[trigger] ids[j],
    {
        let mut ids: Vec<usize> = Vec::new();
        let mut k: usize = 0;
        while k < self.last_unit_id
            invariant
                self.wf(),
                k <= self.next_unit_id(),
                forall|i: int| 0 <= i < ids.len() ==> self.unit_map().contains_key(#[trigger] ids[i]),
                forall|i: int| 0 <= i < ids.len() ==> #[trigger] ids[i] < k,
                forall|j: usize| j < k && self.unit_map().contains_key(j) ==> ids@.contains(j),
                forall|i: int, j: int| 0 <= i < j < ids.len() ==> #[trigger] ids[i] < #[trigger] ids[j],
            decreases self.next_unit_id() - k,
        {
            if self.units.contains_key(&k) {
                let ghost prev = ids@;
                ids.push(k);
                proof {
                    assert forall|j: usize| j < k + 1 && self.unit_map().contains_key(j) implies ids@.contains(j) by {
                        if j == k {
                            assert(ids@[ids.len() - 1] == k);
                        } else {
                            assert(prev.contains(j));
                            let m = choose|m: int| 0 <= m < prev.len() && prev[m] == j;
                            assert(ids@[m] == j);
                        }
                    }
                }
            }
            k = k + 1;
        }
        ids
    }

    /// Moves unit number `id` to `position` with `velocity`, if the world
    /// holds it.
    pub fn set_unit_motion(&mut self, id: usize, position: Vec2Bits, velocity: Vec2Bits)
        requires
            old(self).wf(),
        ensures
            final(self).wf(),
            final(self).unit_map().dom() == old(self).unit_map().dom(),
            forall|k: usize| #[trigger]
                old(self).unit_map().contains_key(k) && k != id ==> final(self).unit_map()[k] == old(
                    self,
                ).unit_map()[k],
            old(self).unit_map().contains_key(id) ==> final(self).unit_map()[id]@ == old(
                self,
            ).unit_map()[id]@.with_motion(position, velocity),
            final(self).task_map() == old(self).task_map(),
            final(self).next_unit_id() == old(self).next_unit_id(),
            final(self).next_task_id() == old(self).next_task_id(),
            final(self).dimensions() == old(self).dimensions(),
    {
        match self.units.remove(&id) {
            Some(mut unit) => {
                unit.set_motion(position, velocity);
                self.units.insert(id, unit);
            },
            None => {},
        }
        proof {
            assert(self.unit_map().dom() =~= old(self).unit_map().dom());
            assert forall|k: usize| #[trigger] self.unit_map().contains_key(k) implies k
                < self.next_unit_id() by {
                assert(old(self).unit_map().contains_key(k));
            }
            assert(self.task_map() == old(self).task_map());
            assert(self.wf());
        }
    }

    /// Stores `task` under the next task number, which no task had, and
    /// queues that number on each unit that `units` names, once per time it
    /// is named; numbers of units the world does not hold are passed over.
    pub fn entask_units(&mut self, units: &Vec<usize>, task: UnitTask)
        requires
            old(self).wf(),
            old(self).next_task_id() < usize::MAX,
        ensures
            final(self).wf(),
            !old(self).task_map().contains_key(old(self).next_task_id()),
            final(self).task_map() == old(self).task_map().insert(old(self).next_task_id(), task),
            final(self).next_task_id() == old(self).next_task_id() + 1,
            final(self).next_unit_id() == old(self).next_unit_id(),
            final(self).dimensions() == old(self).dimensions(),
            final(self).unit_map().dom() == old(self).unit_map().dom(),
            forall|k: usize| #[trigger]
                old(self).unit_map().contains_key(k) ==> final(self).unit_map()[k]@ == old(
                    self,
                ).unit_map()[k]@.with_tasks(
                    old(self).unit_map()[k]@.tasks + Seq::new(
                        count_of(units@, k),
                        |i: int| old(self).next_task_id(),
                    ),
                ),
            forall|i: int|
                0 <= i < units.len() && old(self).unit_map().contains_key(#[trigger] units[i]) ==> ({
                    let k = units[i];
                    let bq = old(self).unit_map()[k]@.tasks;
                    let aq = final(self).unit_map()[k]@.tasks;
                    &&& aq.len() == bq.len() + units@.filter(is_number(k)).len()
                    &&& aq.subrange(0, bq.len() as int) == bq
                    &&& forall|m: int| bq.len() <= m < aq.len() ==> aq[m] == old(self).next_task_id()
                    &&& final(self).unit_map()[k]@ == old(self).unit_map()[k]@.with_tasks(aq)
                }),
            forall|k: usize|
                #![trigger final(self).unit_map()[k]]
                old(self).unit_map().contains_key(k) && (forall|i: int|
                    0 <= i < units.len() ==> units[i] != k) ==> final(self).unit_map()[k]@ == old(
                    self,
                ).unit_map()[k]@,
            old(self).task_refs_valid() ==> final(self).task_refs_valid(),
    {
        let ghost before = *self;
        let t = self.last_task_id;
        self.tasks.insert(t, task);
        assert(self.unit_map() == before.unit_map());
        let mut i: usize = 0;
        while i < units.len()
            invariant
                0 <= i <= units.len(),
                before.wf(),
                t == before.next_task_id(),
                self.task_map() == before.task_map().insert(t, task),
                self.last_task_id == t,
                self.next_unit_id() == before.next_unit_id(),
                self.dimensions() == before.dimensions(),
                self.unit_map().dom() == before.unit_map().dom(),
                forall|k: usize| #[trigger] self.unit_map().contains_key(k) ==> k < self.next_unit_id(),
                forall|k: usize| #[trigger]
                    before.unit_map().contains_key(k) ==> self.unit_map()[k]@
                        == before.unit_map()[k]@.with_tasks(
                        before.unit_map()[k]@.tasks + Seq::new(
                            count_of(units@.take(i as int), k),
                            |j: int| t,
                        ),
                    ),
            decreases units.len() - i,
        {
            let id = units[i];
            proof {
                assert(units@.take(i + 1).drop_last() =~= units@.take(i as int));
            }
            match self.units.remove(&id) {
                Some(mut unit) => {
                    unit.add_task(t);
                    self.units.insert(id, unit);
                },
                None => {},
            }
            proof {
                assert forall|k: usize| #[trigger] before.unit_map().contains_key(k) implies self.unit_map()[k]@
                    == before.unit_map()[k]@.with_tasks(
                    before.unit_map()[k]@.tasks + Seq::new(
                        count_of(units@.take(i + 1), k),
                        |j: int| t,
                    ),
                ) by {
                    let n = count_of(units@.take(i as int), k);
                    if k == id {
                        assert(before.unit_map()[k]@.tasks + Seq::new(n + 1, |j: int| t) =~= (
                        before.unit_map()[k]@.tasks + Seq::new(n, |j: int| t)).push(t));
                    }
                }
            }
            i = i + 1;
        }
        self.last_task_id = t + 1;
        proof {
            assert(units@.take(units.len() as int) =~= units@);
            assert forall|i: int|
                0 <= i < units.len() && before.unit_map().contains_key(#[trigger] units[i]) implies ({
                    let k = units[i];
                    let bq = before.unit_map()[k]@.tasks;
                    let aq = self.unit_map()[k]@.tasks;
                    &&& aq.len() == bq.len() + units@.filter(is_number(k)).len()
                    &&& aq.subrange(0, bq.len() as int) == bq
                    &&& forall|m: int| bq.len() <= m < aq.len() ==> aq[m] == t
                    &&& self.unit_map()[k]@ == before.unit_map()[k]@.with_tasks(aq)
                }) by {
                let k = units[i];
                law_count_of_counts_entries(units@, k);
                let bq = before.unit_map()[k]@.tasks;
                let aq = self.unit_map()[k]@.tasks;
                assert(aq.subrange(0, bq.len() as int) =~= bq);
            }
            assert forall|k: usize|
                #![trigger self.unit_map()[k]]
                before.unit_map().contains_key(k) && (forall|i: int|
                    0 <= i < units.len() ==> units[i] != k) implies self.unit_map()[k]@
                    == before.unit_map()[k]@ by {
                assert forall|i: int| 0 <= i < units@.len() implies #[trigger] units@[i] != k by {
                    assert(units[i] != k);
                }
                law_unlisted_number_does_not_count(units@, k);
                assert(before.unit_map()[k]@.tasks + Seq::new(0, |j: int| t) =~= before.unit_map()[k]@.tasks);
            }
            if before.task_refs_valid() {
                assert forall|k: usize, j: int|
                    self.unit_map().contains_key(k) && 0 <= j < self.unit_map()[k]@.tasks.len()
                        implies self.task_map().contains_key(
                        #[trigger] self.unit_map()[k]@.tasks[j],
                    ) by {
                    let old_len = before.unit_map()[k]@.tasks.len();
                    if j < old_len {
                        assert(self.unit_map()[k]@.tasks[j] == before.unit_map()[k]@.tasks[j]);
                    } else {
                        assert(self.unit_map()[k]@.tasks[j] == t);
                    }
                }
            }
        }
    }

    /// Drops all tasks of each unit that `units` names; numbers of units
    /// the world does not hold are passed over.
    pub fn detask_units(&mut self, units: &Vec<usize>)
        requires
            old(self).wf(),
        ensures
            final(self).wf(),
            final(self).task_map() == old(self).task_map(),
            final(self).next_task_id() == old(self).next_task_id(),
            final(self).next_unit_id() == old(self).next_unit_id(),
            final(self).dimensions() == old(self).dimensions(),
            final(self).unit_map().dom() == old(self).unit_map().dom(),
            forall|k: usize| #[trigger]
                old(self).unit_map().contains_key(k) ==> if count_of(units@, k) > 0 {
                    final(self).unit_map()[k]@ == old(self).unit_map()[k]@.with_tasks(Seq::empty())
                } else {
                    final(self).unit_map()[k] == old(self).unit_map()[k]
                },
            forall|i: int|
                0 <= i < units.len() && old(self).unit_map().contains_key(#[trigger] units[i])
                    ==> final(self).unit_map()[units[i]]@.tasks.len() == 0,
            forall|k: usize|
                #![trigger final(self).unit_map()[k]]
                old(self).unit_map().contains_key(k) && (forall|i: int|
                    0 <= i < units.len() ==> units[i] != k) ==> final(self).unit_map()[k]
                    == old(self).unit_map()[k],
            old(self).task_refs_valid() ==> final(self).task_refs_valid(),
    {
        let ghost before = *self;
        let mut i: usize = 0;
        while i < units.len()
            invariant
                0 <= i <= units.len(),
                self.wf(),
                self.task_map() == before.task_map(),
                self.next_task_id() == before.next_task_id(),
                self.next_unit_id() == before.next_unit_id(),
                self.dimensions() == before.dimensions(),
                self.unit_map().dom() == before.unit_map().dom(),
                forall|k: usize| #[trigger]
                    before.unit_map().contains_key(k) ==> if count_of(units@.take(i as int), k) > 0 {
                        self.unit_map()[k]@ == before.unit_map()[k]@.with_tasks(Seq::empty())
                    } else {
                        self.unit_map()[k] == before.unit_map()[k]
                    },
            decreases units.len() - i,
        {
            let id = units[i];
            proof {
                assert(units@.take(i + 1).drop_last() =~= units@.take(i as int));
            }
            match self.units.remove(&id) {
                Some(mut unit) => {
                    unit.clear_tasks();
                    self.units.insert(id, unit);
                },
                None => {},
            }
            i = i + 1;
        }
        proof {
            assert(units@.take(units.len() as int) =~= units@);
            assert forall|i: int|
                0 <= i < units.len() && before.unit_map().contains_key(#[trigger] units[i])
                    implies self.unit_map()[units[i]]@.tasks.len() == 0 by {
                law_listed_number_counts(units@, i);
            }
            assert forall|k: usize|
                #![trigger self.unit_map()[k]]
                before.unit_map().contains_key(k) && (forall|i: int|
                    0 <= i < units.len() ==> units[i] != k) implies self.unit_map()[k]
                    == before.unit_map()[k] by {
                assert forall|i: int| 0 <= i < units@.len() implies #[trigger] units@[i] != k by {
                    assert(units[i] != k);
                }
                law_unlisted_number_does_not_count(units@, k);
            }
            if before.task_refs_valid() {
                assert forall|k: usize, j: int|
                    self.unit_map().contains_key(k) && 0 <= j < self.unit_map()[k]@.tasks.len()
                        implies self.task_map().contains_key(
                        #[trigger] self.unit_map()[k]@.tasks[j],
                    ) by {
                    if count_of(units@, k) == 0 {
                        assert(self.unit_map()[k]@.tasks[j] == before.unit_map()[k]@.tasks[j]);
                    }
                }
            }
        }
    }

    /// Applies to each listed unit the task part of its update, in the
    /// order of `updates`: a `TaskCompleted` drops the unit's current task.
    /// Numbers of units the world does not hold are passed over. The
    /// velocity change and the motion, floating-point work, are done by the
    /// caller.
    pub fn apply_updates(&mut self, updates: &[(usize, UnitUpdateResult)])
        requires
            old(self).wf(),
        ensures
            final(self).wf(),
            final(self).task_map() == old(self).task_map(),
            final(self).next_task_id() == old(self).next_task_id(),
            final(self).next_unit_id() == old(self).next_unit_id(),
            final(self).dimensions() == old(self).dimensions(),
            final(self).unit_map().dom() == old(self).unit_map().dom(),
            forall|k: usize| #[trigger]
                old(self).unit_map().contains_key(k) ==> final(self).unit_map()[k]@ == old(
                    self,
                ).unit_map()[k]@.with_tasks(
                    drop_front(old(self).unit_map()[k]@.tasks, completions_for(updates@, k)),
                ),
            forall|i: int|
                0 <= i < updates.len() && old(self).unit_map().contains_key(#[trigger] updates[i].0)
                    && (forall|j: int| 0 <= j < updates.len() && j != i ==> updates[j].0 != updates[i].0)
                    ==> ({
                    let k = updates[i].0;
                    let bq = old(self).unit_map()[k]@.tasks;
                    let aq = final(self).unit_map()[k]@.tasks;
                    &&& updates[i].1 is TaskCompleted && bq.len() > 0 ==> aq == bq.subrange(
                        1,
                        bq.len() as int,
                    )
                    &&& updates[i].1 is TaskCompleted && bq.len() == 0 ==> aq.len() == 0
                    &&& updates[i].1 is Accelerate ==> aq == bq
                    &&& final(self).unit_map()[k]@ == old(self).unit_map()[k]@.with_tasks(aq)
                }),
            forall|k: usize|
                #![trigger final(self).unit_map()[k]]
                old(self).unit_map().contains_key(k) && (forall|i: int|
                    0 <= i < updates.len() ==> updates[i].0 != k) ==> final(self).unit_map()[k]@
                    == old(self).unit_map()[k]@,
            old(self).task_refs_valid() ==> final(self).task_refs_valid(),
    {
        let ghost before = *self;
        let mut i: usize = 0;
        proof {
            assert(updates@.take(0) =~= Seq::<(usize, UnitUpdateResult)>::empty());
            assert forall|k: usize| #[trigger] before.unit_map().contains_key(k) implies self.unit_map()[k]@
                == before.unit_map()[k]@.with_tasks(
                drop_front(before.unit_map()[k]@.tasks, completions_for(updates@.take(0), k)),
            ) by {
                crate::unit::lemma_drop_front_zero(before.unit_map()[k]@.tasks);
            }
        }
        while i < updates.len()
            invariant
                0 <= i <= updates.len(),
                self.wf(),
                self.task_map() == before.task_map(),
                self.next_task_id() == before.next_task_id(),
                self.next_unit_id() == before.next_unit_id(),
                self.dimensions() == before.dimensions(),
                self.unit_map().dom() == before.unit_map().dom(),
                forall|k: usize| #[trigger]
                    before.unit_map().contains_key(k) ==> self.unit_map()[k]@
                        == before.unit_map()[k]@.with_tasks(
                        drop_front(
                            before.unit_map()[k]@.tasks,
                            completions_for(updates@.take(i as int), k),
                        ),
                    ),
            decreases updates.len() - i,
        {
            let (id, update) = updates[i];
            proof {
                assert(updates@.take(i + 1).drop_last() =~= updates@.take(i as int));
            }
            match self.units.remove(&id) {
                Some(mut unit) => {
                    unit.drop_completed_tasks(&update);
                    self.units.insert(id, unit);
                },
                None => {},
            }
            proof {
                assert forall|k: usize| #[trigger] before.unit_map().contains_key(k) implies self.unit_map()[k]@
                    == before.unit_map()[k]@.with_tasks(
                    drop_front(
                        before.unit_map()[k]@.tasks,
                        completions_for(updates@.take(i + 1), k),
                    ),
                ) by {
                    let n = completions_for(updates@.take(i as int), k);
                    crate::unit::lemma_drop_front_twice(
                        before.unit_map()[k]@.tasks,
                        n,
                        completes(update),
                    );
                }
            }
            i = i + 1;
        }
        proof {
            assert(updates@.take(updates.len() as int) =~= updates@);
            assert forall|i: int|
                0 <= i < updates.len() && before.unit_map().contains_key(#[trigger] updates[i].0)
                    && (forall|j: int| 0 <= j < updates.len() && j != i ==> updates[j].0 != updates[i].0)
                    implies ({
                    let k = updates[i].0;
                    let bq = before.unit_map()[k]@.tasks;
                    let aq = self.unit_map()[k]@.tasks;
                    &&& updates[i].1 is TaskCompleted && bq.len() > 0 ==> aq == bq.subrange(
                        1,
                        bq.len() as int,
                    )
                    &&& updates[i].1 is TaskCompleted && bq.len() == 0 ==> aq.len() == 0
                    &&& updates[i].1 is Accelerate ==> aq == bq
                    &&& self.unit_map()[k]@ == before.unit_map()[k]@.with_tasks(aq)
                }) by {
                let k = updates[i].0;
                let bq = before.unit_map()[k]@.tasks;
                assert forall|j: int| 0 <= j < updates@.len() && j != i implies #[trigger] updates@[j].0
                    != updates@[i].0 by {
                    assert(updates[j].0 != updates[i].0);
                }
                law_completions_for_named_once(updates@, i);
                crate::unit::law_drop_front_keeps_the_rest(bq, completes(updates[i].1));
                assert(drop_front(bq, 0) =~= bq);
                if bq.len() > 0 {
                    assert(drop_front(bq, 1) =~= bq.subrange(1, bq.len() as int));
                }
            }
            assert forall|k: usize|
                #![trigger self.unit_map()[k]]
                before.unit_map().contains_key(k) && (forall|i: int|
                    0 <= i < updates.len() ==> updates[i].0 != k) implies self.unit_map()[k]@
                    == before.unit_map()[k]@ by {
                assert forall|i: int| 0 <= i < updates@.len() implies #[trigger] updates@[i].0 != k by {
                    assert(updates[i].0 != k);
                }
                law_completions_for_unnamed(updates@, k);
                crate::unit::lemma_drop_front_zero(before.unit_map()[k]@.tasks);
            }
            if before.task_refs_valid() {
                assert forall|k: usize, j: int|
                    self.unit_map().contains_key(k) && 0 <= j < self.unit_map()[k]@.tasks.len()
                        implies self.task_map().contains_key(
                        #[trigger] self.unit_map()[k]@.tasks[j],
                    ) by {
                    let n = completions_for(updates@, k);
                    assert(self.unit_map()[k]@.tasks[j] == before.unit_map()[k]@.tasks[j + n]);
                }
            }
        }
    }
}

/// In a world where every queued task is stored, the task lookup that
/// steering makes for a unit's current task finds it.
pub proof fn law_queued_task_is_stored(w: World, k: usize)
    requires
        w.task_refs_valid(),
        w.unit_map().contains_key(k),
        w.unit_map()[k]@.tasks.len() > 0,
    ensures
        w.task_map().contains_key(w.unit_map()[k]@.tasks[0]),
{
}

/// Spawning keeps every unit number below the next one, so the number a
/// spawn uses is always free: no spawn replaces a unit.
pub proof fn law_next_unit_number_is_free(w: World)
    requires
        w.wf(),
    ensures
        !w.unit_map().contains_key(w.next_unit_id()),
{
}

/// Whether a number is `k`.
pub open spec fn is_number(k: usize) -> spec_fn(usize) -> bool {
    |n: usize| n == k
}

/// A `TaskCompleted` completes one task; an `Accelerate` completes none.
pub proof fn law_completes_one_for_task_completed(update: UnitUpdateResult)
    ensures
        update is TaskCompleted ==> completes(update) == 1,
        update is Accelerate ==> completes(update) == 0,
{
}

/// `count_of` counts the entries of `ids` that are `k`.
pub proof fn law_count_of_counts_entries(ids: Seq<usize>, k: usize)
    ensures
        count_of(ids, k) == ids.filter(is_number(k)).len(),
    decreases ids.len(),
{
    reveal(Seq::filter);
    if ids.len() > 0 {
        law_count_of_counts_entries(ids.drop_last(), k);
    }
}

/// A number that `ids` lists at some index counts in it.
pub proof fn law_listed_number_counts(ids: Seq<usize>, i: int)
    requires
        0 <= i < ids.len(),
    ensures
        count_of(ids, ids[i]) > 0,
{
    law_count_of_counts_entries(ids, ids[i]);
    ids.lemma_filter_contains(is_number(ids[i]), i);
}

/// A number that `ids` does not list does not count in it.
pub proof fn law_unlisted_number_does_not_count(ids: Seq<usize>, k: usize)
    requires
        forall|i: int| 0 <= i < ids.len() ==> #[trigger] ids[i] != k,
    ensures
        count_of(ids, k) == 0,
    decreases ids.len(),
{
    if ids.len() > 0 {
        assert(ids.last() != k);
        assert forall|i: int| 0 <= i < ids.drop_last().len() implies #[trigger] ids.drop_last()[i] != k by {
            assert(ids.drop_last()[i] == ids[i]);
        }
        law_unlisted_number_does_not_count(ids.drop_last(), k);
    }
}

/// Updates with no entry for the unit complete none of its tasks.
pub proof fn law_completions_for_unnamed(updates: Seq<(usize, UnitUpdateResult)>, k: usize)
    requires
        forall|i: int| 0 <= i < updates.len() ==> #[trigger] updates[i].0 != k,
    ensures
        completions_for(updates, k) == 0,
    decreases updates.len(),
{
    if updates.len() > 0 {
        assert(updates.last().0 != k);
        assert forall|i: int| 0 <= i < updates.drop_last().len() implies #[trigger] updates.drop_last()[i].0
            != k by {
            assert(updates.drop_last()[i] == updates[i]);
        }
        law_completions_for_unnamed(updates.drop_last(), k);
    }
}

/// When a unit is named by the update at index `i` alone, the updates
/// complete exactly what that update completes (one task for
/// `TaskCompleted`, none for `Accelerate`), wherever it stands.
pub proof fn law_completions_for_named_once(updates: Seq<(usize, UnitUpdateResult)>, i: int)
    requires
        0 <= i < updates.len(),
        forall|j: int| 0 <= j < updates.len() && j != i ==> #[trigger] updates[j].0 != updates[i].0,
    ensures
        completions_for(updates, updates[i].0) == completes(updates[i].1),
        updates[i].1 is TaskCompleted ==> completions_for(updates, updates[i].0) == 1,
        updates[i].1 is Accelerate ==> completions_for(updates, updates[i].0) == 0,
    decreases updates.len(),
{
    let k = updates[i].0;
    let rest = updates.drop_last();
    if i == updates.len() - 1 {
        assert forall|j: int| 0 <= j < rest.len() implies #[trigger] rest[j].0 != k by {
            assert(rest[j] == updates[j]);
        }
        law_completions_for_unnamed(rest, k);
    } else {
        assert(updates.last().0 != k);
        assert(rest[i] == updates[i]);
        assert forall|j: int| 0 <= j < rest.len() && j != i implies #[trigger] rest[j].0 != rest[i].0 by {
            assert(rest[j] == updates[j]);
        }
        law_completions_for_named_once(rest, i);
    }
}

/// Completions add up over consecutive lists of updates: applying `a`
/// and then `b` completes, for each unit, what each completes.
pub proof fn law_completions_for_adds_up(a: Seq<(usize, UnitUpdateResult)>, b: Seq<(usize, UnitUpdateResult)>, k: usize)
    ensures
        completions_for(a + b, k) == completions_for(a, k) + completions_for(b, k),
    decreases b.len(),
{
    if b.len() == 0 {
        assert(a + b =~= a);
    } else {
        assert((a + b).drop_last() =~= a + b.drop_last());
        assert((a + b).last() == b.last());
        law_completions_for_adds_up(a, b.drop_last(), k);
    }
}

} // verus!
