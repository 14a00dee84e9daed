//! Units, their statistics, their task queues, and the tasks they walk to.
use std::collections::VecDeque;
use vstd::prelude::*;

use crate::slots::{canonical_key, live_key};
use crate::vec2::Vec2Bits;
use crate::world::World;

verus! {

/// The key of a unit in a [`World`].
#[derive(Clone, Copy, PartialEq, Eq, Structural, Debug, Hash)]
pub struct UnitID {
    ffi: u64,
}

/// The key of a task in a [`World`].
#[derive(Clone, Copy, PartialEq, Eq, Structural, Debug, Hash)]
pub struct TaskID {
    ffi: u64,
}

impl UnitID {
    /// An id is only ever made from a key a slot map handed out.
    #[verifier::type_invariant]
    spec fn made_from_live_key(self) -> bool {
        live_key(self.ffi)
    }

    /// The slot-map key this id names, in 64-bit form.
    pub closed spec fn key(self) -> u64 {
        canonical_key(self.ffi)
    }

    pub(crate) fn from_key(k: u64) -> (id: UnitID)
        requires
            live_key(k),
        ensures
            id.key() == k,
    {
        UnitID { ffi: k }
    }

    /// The id's 64-bit form, as handed to the slot map: the key it names.
    pub fn ffi(&self) -> (k: u64)
        ensures
            k == self.key(),
            live_key(k),
    {
        proof {
            use_type_invariant(self);
        }
        self.ffi
    }

    /// Whether the two ids name the same unit.
    pub fn same_unit(&self, other: &UnitID) -> (b: bool)
        ensures
            b == (self.key() == other.key()),
    {
        canonical(self.ffi) == canonical(other.ffi)
    }
}

/// The key that `KeyData::from_ffi` makes of `k`, in 64-bit form.
fn canonical(k: u64) -> (c: u64)
    ensures
        c == canonical_key(k),
{
    if (k / 0x1_0000_0000) % 2 == 1 {
        k
    } else {
        k + 0x1_0000_0000
    }
}

impl TaskID {
    /// An id is only ever made from a key a slot map handed out.
    #[verifier::type_invariant]
    spec fn made_from_live_key(self) -> bool {
        live_key(self.ffi)
    }

    /// The slot-map key this id names, in 64-bit form.
    pub closed spec fn key(self) -> u64 {
        canonical_key(self.ffi)
    }

    pub(crate) fn from_key(k: u64) -> (id: TaskID)
        requires
            live_key(k),
        ensures
            id.key() == k,
    {
        TaskID { ffi: k }
    }

    /// The id's 64-bit form, as handed to the slot map: the key it names.
    pub fn ffi(&self) -> (k: u64)
        ensures
            k == self.key(),
            live_key(k),
    {
        proof {
            use_type_invariant(self);
        }
        self.ffi
    }
}

/// How fast a unit moves and how big it is; each field is the bit pattern
/// of an `f32`.
#[derive(Clone, Copy, PartialEq, Eq, Structural, Debug)]
pub struct UnitStats {
    pub speed: u32,
    pub acc: u32,
    pub drag: u32,
    pub radius: u32,
    pub flocking_range: u32,
}

/// Something a unit can be told to do.
#[derive(Clone, Copy, PartialEq, Eq, Structural, Debug)]
pub enum Task {
    /// Walk until within the completion range of `destination`.
    Walk { destination: Vec2Bits },
}

/// What one world update asks of a unit: the direction to accelerate in,
/// and how many tasks at the front of its queue it has completed.
#[derive(Clone, Copy, PartialEq, Eq, Structural, Debug, Default)]
pub struct UnitUpdateResult {
    pub movement: Vec2Bits,
    pub completed_tasks: u8,
}

/// A unit: where it is, how it moves, and the tasks it has been given, the
/// one it works on first.
#[derive(Debug)]
pub struct Unit {
    position: Vec2Bits,
    velocity: Vec2Bits,
    tasks: VecDeque<TaskID>,
    stats: UnitStats,
}

impl UnitStats {
    /// The statistics of the units the program spawns: speed 120,
    /// acceleration 500, drag 6, radius 5, flocking range 64.
    pub fn test0() -> (s: UnitStats)
        ensures
            s.speed == 0x42F0_0000,
            s.acc == 0x43FA_0000,
            s.drag == 0x40C0_0000,
            s.radius == 0x40A0_0000,
            s.flocking_range == 0x4280_0000,
    {
        UnitStats {
            speed: 0x42F0_0000,
            acc: 0x43FA_0000,
            drag: 0x40C0_0000,
            radius: 0x40A0_0000,
            flocking_range: 0x4280_0000,
        }
    }
}

/// A unit as a mathematical value.
pub struct UnitView {
    pub position: Vec2Bits,
    pub velocity: Vec2Bits,
    pub tasks: Seq<TaskID>,
    pub stats: UnitStats,
}

impl UnitView {
    /// The same unit with another task queue.
    pub open spec fn with_tasks(self, tasks: Seq<TaskID>) -> UnitView {
        UnitView { tasks, ..self }
    }

    /// The same unit at another place with another velocity.
    pub open spec fn with_motion(self, position: Vec2Bits, velocity: Vec2Bits) -> UnitView {
        UnitView { position, velocity, ..self }
    }
}

impl View for Unit {
    type V = UnitView;

    closed spec fn view(&self) -> UnitView {
        UnitView {
            position: self.position,
            velocity: self.velocity,
            tasks: self.tasks@,
            stats: self.stats,
        }
    }
}

/// `s` without its first `n` items (empty when it has no more than `n`).
pub open spec fn drop_front<A>(s: Seq<A>, n: nat) -> Seq<A> {
    if n >= s.len() {
        Seq::empty()
    } else {
        s.skip(n as int)
    }
}

/// Dropping `a` items and then `b` more drops `a + b`.
pub proof fn lemma_drop_front_twice<A>(s: Seq<A>, a: nat, b: nat)
    ensures
        drop_front(drop_front(s, a), b) == drop_front(s, a + b),
{
    if a + b < s.len() {
        assert(drop_front(drop_front(s, a), b) =~= drop_front(s, a + b));
    } else {
        assert(drop_front(drop_front(s, a), b) =~= Seq::<A>::empty());
    }
}

/// Dropping no items leaves the sequence as it is.
pub proof fn lemma_drop_front_zero<A>(s: Seq<A>)
    ensures
        drop_front(s, 0) == s,
{
    assert(drop_front(s, 0) =~= s);
}

/// Dropping `n` items from the front of `s` leaves its items `n..` in
/// order: `s.len() - n` of them, or none when `s` has no more than `n`.
pub proof fn law_drop_front_keeps_the_rest<A>(s: Seq<A>, n: nat)
    ensures
        drop_front(s, n).len() == if n < s.len() {
            s.len() - n
        } else {
            0
        },
        forall|m: int| 0 <= m < drop_front(s, n).len() ==> #[trigger] drop_front(s, n)[m] == s[m + n],
{
}

impl Unit {
    /// A unit at rest at `position`, with no tasks.
    pub fn new(position: Vec2Bits, stats: UnitStats) -> (u: Unit)
        ensures
            u@ == (UnitView {
                position,
                velocity: Vec2Bits { x: 0, y: 0 },
                tasks: Seq::empty(),
                stats,
            }),
    {
        Unit { position, velocity: Vec2Bits::zero(), stats, tasks: VecDeque::new() }
    }

    /// The id of the task the unit works on, the first of its queue.
    pub fn get_current_taskid(&self) -> (r: Option<&TaskID>)
        ensures
            r is None <==> self@.tasks.len() == 0,
            r is Some ==> *r.unwrap() == self@.tasks[0],
    {
        if self.tasks.len() > 0 {
            Some(&self.tasks[0])
        } else {
            None
        }
    }

    /// Queues `taskid` after the tasks the unit has.
    pub fn add_task(&mut self, taskid: TaskID)
        ensures
            final(self)@ == old(self)@.with_tasks(old(self)@.tasks.push(taskid)),
    {
        self.tasks.push_back(taskid);
    }

    /// Drops all of the unit's tasks.
    pub fn clear_tasks(&mut self)
        ensures
            final(self)@ == old(self)@.with_tasks(Seq::empty()),
    {
        self.tasks.clear();
    }

    /// Drops from the front of the queue the tasks that `update` completed
    /// (all of them when it completed more than there are). Integrating the
    /// unit's motion over the frame is floating-point work, left to the
    /// caller, which writes the result back with [`Unit::set_motion`].
    pub fn drop_completed_tasks(&mut self, update: &UnitUpdateResult)
        ensures
            final(self)@ == old(self)@.with_tasks(
                drop_front(old(self)@.tasks, update.completed_tasks as nat),
            ),
            final(self)@.tasks.len() == if (update.completed_tasks as int) < old(self)@.tasks.len() {
                old(self)@.tasks.len() - update.completed_tasks
            } else {
                0
            },
            forall|m: int|
                0 <= m < final(self)@.tasks.len() ==> #[trigger] final(self)@.tasks[m] == old(
                    self,
                )@.tasks[m + update.completed_tasks],
    {
        proof {
            law_drop_front_keeps_the_rest(old(self)@.tasks, update.completed_tasks as nat);
        }
        let n = update.completed_tasks;
        let mut i: u8 = 0;
        proof {
            lemma_drop_front_zero(old(self)@.tasks);
        }
        while i < n
            invariant
                i <= n,
                n == update.completed_tasks,
                self@ == old(self)@.with_tasks(drop_front(old(self)@.tasks, i as nat)),
            decreases n - i,
        {
            let ghost before = self@.tasks;
            self.tasks.pop_front();
            proof {
                lemma_drop_front_twice(old(self)@.tasks, i as nat, 1);
                assert(self@.tasks =~= drop_front(before, 1));
            }
            i = i + 1;
        }
    }

    /// The task the unit works on, when the world still holds it.
    pub fn current_task<'a>(&self, world: &'a World) -> (r: Option<&'a Task>)
        ensures
            self@.tasks.len() == 0 ==> r is None,
            self@.tasks.len() > 0 ==> (r is Some <==> world.task_map().contains_key(
                self@.tasks[0].key(),
            )),
            r is Some ==> *r.unwrap() == world.task_map()[self@.tasks[0].key()],
    {
        match self.get_current_taskid() {
            Some(taskid) => world.get_task(*taskid),
            None => None,
        }
    }

    /// Where the unit is.
    pub fn position(&self) -> (p: Vec2Bits)
        ensures
            p == self@.position,
    {
        self.position
    }

    /// How the unit moves.
    pub fn velocity(&self) -> (v: Vec2Bits)
        ensures
            v == self@.velocity,
    {
        self.velocity
    }

    /// The unit's statistics.
    pub fn stats(&self) -> (s: UnitStats)
        ensures
            s == self@.stats,
    {
        self.stats
    }

    /// Moves the unit to `position` with `velocity`.
    pub fn set_motion(&mut self, position: Vec2Bits, velocity: Vec2Bits)
        ensures
            final(self)@ == old(self)@.with_motion(position, velocity),
    {
        self.position = position;
        self.velocity = velocity;
    }
}

} // verus!
