use swarm::unit::{Task, Unit, UnitStats, UnitUpdateResult};
use swarm::vec2::Vec2Bits;
use swarm::world::World;

fn v(x: f32, y: f32) -> Vec2Bits {
    Vec2Bits { x: x.to_bits(), y: y.to_bits() }
}

fn test_stats() -> UnitStats {
    UnitStats {
        speed: 120.0f32.to_bits(),
        acc: 500.0f32.to_bits(),
        drag: 6.0f32.to_bits(),
        radius: 5.0f32.to_bits(),
        flocking_range: 64.0f32.to_bits(),
    }
}

fn walk(x: f32, y: f32) -> Task {
    Task::Walk { destination: v(x, y) }
}

#[test]
fn new_world_is_empty_and_sized() {
    let world = World::new((960, 720));
    assert_eq!(world.unit_count(), 0);
    assert_eq!(world.size(), (960, 720));
    assert!(world.unit_ids().is_empty());
}

#[test]
fn new_unit_is_at_rest_without_tasks() {
    let unit = Unit::new(v(3.0, 4.0), test_stats());
    assert_eq!(unit.position(), v(3.0, 4.0));
    assert_eq!(unit.velocity(), Vec2Bits::zero());
    assert_eq!(unit.stats(), test_stats());
    assert!(unit.get_current_taskid().is_none());
}

#[test]
fn spawned_units_get_distinct_ids_and_keep_their_values() {
    let mut world = World::new((100, 100));
    let a = world.spawn_unit(Unit::new(v(1.0, 2.0), test_stats()));
    let b = world.spawn_unit(Unit::new(v(5.0, 6.0), test_stats()));
    assert_ne!(a, b);
    assert!(!a.same_unit(&b));
    assert!(a.same_unit(&a));
    assert_eq!(world.unit_count(), 2);
    assert_eq!(world.get_unit(a).unwrap().position(), v(1.0, 2.0));
    assert_eq!(world.get_unit(b).unwrap().position(), v(5.0, 6.0));
}

#[test]
fn unit_ids_come_in_slot_order() {
    let mut world = World::new((100, 100));
    let a = world.spawn_unit(Unit::new(v(0.0, 0.0), test_stats()));
    let b = world.spawn_unit(Unit::new(v(1.0, 0.0), test_stats()));
    let c = world.spawn_unit(Unit::new(v(2.0, 0.0), test_stats()));
    assert_eq!(world.unit_ids(), vec![a, b, c]);
    assert_eq!(world.other_unit_ids(b), vec![a, c]);
    assert_eq!(world.other_unit_ids(a), vec![b, c]);
}

#[test]
fn entasked_units_work_on_the_task() {
    let mut world = World::new((100, 100));
    let a = world.spawn_unit(Unit::new(v(0.0, 0.0), test_stats()));
    let b = world.spawn_unit(Unit::new(v(1.0, 0.0), test_stats()));
    world.entask_units(&[a], walk(10.0, 20.0));
    let ua = world.get_unit(a).unwrap();
    let taskid = *ua.get_current_taskid().unwrap();
    assert_eq!(world.get_task(taskid), Some(&walk(10.0, 20.0)));
    assert_eq!(ua.current_task(&world), Some(&walk(10.0, 20.0)));
    assert!(world.get_unit(b).unwrap().get_current_taskid().is_none());
    assert!(world.get_unit(b).unwrap().current_task(&world).is_none());
}

#[test]
fn tasks_queue_in_order_and_complete_from_the_front() {
    let mut world = World::new((100, 100));
    let a = world.spawn_unit(Unit::new(v(0.0, 0.0), test_stats()));
    world.entask_units(&[a], walk(1.0, 1.0));
    world.entask_units(&[a], walk(2.0, 2.0));
    assert_eq!(world.get_unit(a).unwrap().current_task(&world), Some(&walk(1.0, 1.0)));
    let done = UnitUpdateResult { movement: Vec2Bits::zero(), completed_tasks: 1 };
    world.apply_updates(&[(a, done)]);
    assert_eq!(world.get_unit(a).unwrap().current_task(&world), Some(&walk(2.0, 2.0)));
    world.apply_updates(&[(a, done)]);
    assert!(world.get_unit(a).unwrap().get_current_taskid().is_none());
}

#[test]
fn completing_more_tasks_than_queued_empties_the_queue() {
    let mut world = World::new((100, 100));
    let a = world.spawn_unit(Unit::new(v(0.0, 0.0), test_stats()));
    world.entask_units(&[a], walk(1.0, 1.0));
    let many = UnitUpdateResult { movement: Vec2Bits::zero(), completed_tasks: 5 };
    world.apply_updates(&[(a, many)]);
    assert!(world.get_unit(a).unwrap().get_current_taskid().is_none());
    assert_eq!(world.unit_count(), 1);
}

#[test]
fn naming_a_unit_twice_queues_the_task_twice() {
    let mut world = World::new((100, 100));
    let a = world.spawn_unit(Unit::new(v(0.0, 0.0), test_stats()));
    world.entask_units(&[a, a], walk(3.0, 3.0));
    let first = *world.get_unit(a).unwrap().get_current_taskid().unwrap();
    let one = UnitUpdateResult { movement: Vec2Bits::zero(), completed_tasks: 1 };
    world.apply_updates(&[(a, one)]);
    let second = *world.get_unit(a).unwrap().get_current_taskid().unwrap();
    assert_eq!(first, second);
    world.apply_updates(&[(a, one)]);
    assert!(world.get_unit(a).unwrap().get_current_taskid().is_none());
}

#[test]
fn detasked_units_have_no_task_and_others_keep_theirs() {
    let mut world = World::new((100, 100));
    let a = world.spawn_unit(Unit::new(v(0.0, 0.0), test_stats()));
    let b = world.spawn_unit(Unit::new(v(1.0, 0.0), test_stats()));
    world.entask_units(&[a, b], walk(4.0, 4.0));
    world.detask_units(&[a]);
    assert!(world.get_unit(a).unwrap().get_current_taskid().is_none());
    assert_eq!(world.get_unit(b).unwrap().current_task(&world), Some(&walk(4.0, 4.0)));
    assert_eq!(world.unit_count(), 2);
}

#[test]
fn unit_mut_writes_back_motion() {
    let mut world = World::new((100, 100));
    let a = world.spawn_unit(Unit::new(v(0.0, 0.0), test_stats()));
    world.get_unit_mut(a).unwrap().set_motion(v(7.0, 8.0), v(1.0, -1.0));
    let u = world.get_unit(a).unwrap();
    assert_eq!(u.position(), v(7.0, 8.0));
    assert_eq!(u.velocity(), v(1.0, -1.0));
}

#[test]
fn unit_task_queue_operations() {
    let mut world = World::new((100, 100));
    let a = world.spawn_unit(Unit::new(v(0.0, 0.0), test_stats()));
    world.entask_units(&[a], walk(1.0, 1.0));
    world.entask_units(&[a], walk(2.0, 2.0));
    let ids: Vec<_> = {
        let mut u = Unit::new(v(0.0, 0.0), test_stats());
        let t1 = *world.get_unit(a).unwrap().get_current_taskid().unwrap();
        u.add_task(t1);
        assert_eq!(u.get_current_taskid(), Some(&t1));
        u.clear_tasks();
        assert!(u.get_current_taskid().is_none());
        vec![t1]
    };
    assert_eq!(ids.len(), 1);
    let mut u = Unit::new(v(0.0, 0.0), test_stats());
    u.add_task(ids[0]);
    u.drop_completed_tasks(&UnitUpdateResult { movement: Vec2Bits::zero(), completed_tasks: 0 });
    assert_eq!(u.get_current_taskid(), Some(&ids[0]));
    u.drop_completed_tasks(&UnitUpdateResult { movement: Vec2Bits::zero(), completed_tasks: 1 });
    assert!(u.get_current_taskid().is_none());
}

#[test]
fn updates_for_units_not_held_are_passed_over() {
    let mut world = World::new((100, 100));
    let mut other = World::new((100, 100));
    let a = world.spawn_unit(Unit::new(v(0.0, 0.0), test_stats()));
    let _ = other.spawn_unit(Unit::new(v(0.0, 0.0), test_stats()));
    let b = other.spawn_unit(Unit::new(v(0.0, 0.0), test_stats()));
    world.entask_units(&[a, b], walk(1.0, 1.0));
    world.detask_units(&[b]);
    assert_eq!(world.get_unit(a).unwrap().current_task(&world), Some(&walk(1.0, 1.0)));
    assert!(world.get_unit(b).is_none());
}

#[test]
fn task_count_grows_with_each_entask() {
    let mut world = World::new((100, 100));
    assert_eq!(world.task_count(), 0);
    world.entask_units(&[], walk(1.0, 1.0));
    world.entask_units(&[], walk(2.0, 2.0));
    assert_eq!(world.task_count(), 2);
}

#[test]
fn test0_stats_are_the_program_defaults() {
    let s = UnitStats::test0();
    assert_eq!(s, test_stats());
    assert_eq!(f32::from_bits(s.speed), 120.0);
    assert_eq!(f32::from_bits(s.flocking_range), 64.0);
}

#[test]
fn the_unit_map_answers_reads() {
    let mut world = World::new((100, 100));
    let mut other = World::new((100, 100));
    let a = world.spawn_unit(Unit::new(v(1.0, 0.0), test_stats()));
    let b = world.spawn_unit(Unit::new(v(2.0, 0.0), test_stats()));
    let _ = other.spawn_unit(Unit::new(v(0.0, 0.0), test_stats()));
    let _ = other.spawn_unit(Unit::new(v(0.0, 0.0), test_stats()));
    let c = other.spawn_unit(Unit::new(v(0.0, 0.0), test_stats()));
    let units = world.get_units();
    assert_eq!(units.len(), 2);
    assert!(units.contains_key(a));
    assert!(!units.contains_key(c));
    assert_eq!(units.get(b).unwrap().position(), v(2.0, 0.0));
    assert!(units.get(c).is_none());
    assert_eq!(units.keys(), vec![a, b]);
    assert_ne!(a.ffi(), b.ffi());
}
