use swarm::flocking::{Unit, UnitStats, UnitTask, UnitUpdateResult, World};
use swarm::vec2::Vec2Bits;

fn v(x: f32, y: f32) -> Vec2Bits {
    Vec2Bits { x: x.to_bits(), y: y.to_bits() }
}

#[test]
fn basic_stats_are_the_spawn_defaults() {
    let s = UnitStats::basic();
    assert_eq!(f32::from_bits(s.speed), 50.0);
    assert_eq!(f32::from_bits(s.acc), 100.0);
    assert_eq!(f32::from_bits(s.drag), 0.3);
    assert_eq!(f32::from_bits(s.radius), 5.0);
}

#[test]
fn units_are_numbered_in_spawn_order() {
    let mut world = World::new((960, 720));
    world.spawn_random_bih(v(1.0, 1.0));
    world.spawn_random_bih(v(2.0, 2.0));
    world.spawn_unit(Unit::new(7, v(3.0, 3.0)));
    assert_eq!(world.unit_count(), 3);
    assert_eq!(world.unit_ids(), vec![0, 1, 2]);
    assert_eq!(world.get_unit(1).unwrap().position(), v(2.0, 2.0));
    assert_eq!(world.get_unit(1).unwrap().id(), 1);
    assert_eq!(world.get_unit(2).unwrap().id(), 7);
    assert!(world.get_unit(3).is_none());
    assert_eq!(world.size(), (960, 720));
}

#[test]
fn spawned_unit_is_at_rest_without_tasks() {
    let mut world = World::new((10, 10));
    world.spawn_random_bih(v(4.0, 5.0));
    let u = world.get_unit(0).unwrap();
    assert_eq!(u.velocity(), Vec2Bits::zero());
    assert_eq!(u.stats(), UnitStats::basic());
    assert!(u.get_current_taskid().is_none());
}

#[test]
fn tasks_are_numbered_and_queued_on_named_units() {
    let mut world = World::new((10, 10));
    world.spawn_random_bih(v(0.0, 0.0));
    world.spawn_random_bih(v(0.0, 0.0));
    world.entask_units(&vec![0, 5], UnitTask::Walk { destination: v(9.0, 9.0) });
    world.entask_units(&vec![0, 1], UnitTask::Walk { destination: v(1.0, 1.0) });
    assert_eq!(world.get_unit(0).unwrap().get_current_taskid(), Some(&0));
    assert_eq!(world.get_unit(1).unwrap().get_current_taskid(), Some(&1));
    assert_eq!(world.get_task(0), Some(&UnitTask::Walk { destination: v(9.0, 9.0) }));
    assert_eq!(world.get_task(1), Some(&UnitTask::Walk { destination: v(1.0, 1.0) }));
    assert!(world.get_task(2).is_none());
}

#[test]
fn task_completion_advances_the_queue() {
    let mut world = World::new((10, 10));
    world.spawn_random_bih(v(0.0, 0.0));
    world.entask_units(&vec![0], UnitTask::Walk { destination: v(1.0, 1.0) });
    world.entask_units(&vec![0], UnitTask::Walk { destination: v(2.0, 2.0) });
    world.apply_updates(&[(0, UnitUpdateResult::Accelerate(v(1.0, 0.0)))]);
    assert_eq!(world.get_unit(0).unwrap().get_current_taskid(), Some(&0));
    world.apply_updates(&[(0, UnitUpdateResult::TaskCompleted)]);
    assert_eq!(world.get_unit(0).unwrap().get_current_taskid(), Some(&1));
    world.apply_updates(&[(0, UnitUpdateResult::TaskCompleted), (0, UnitUpdateResult::TaskCompleted)]);
    assert!(world.get_unit(0).unwrap().get_current_taskid().is_none());
}

#[test]
fn detask_clears_only_named_units() {
    let mut world = World::new((10, 10));
    world.spawn_random_bih(v(0.0, 0.0));
    world.spawn_random_bih(v(0.0, 0.0));
    world.entask_units(&vec![0, 1], UnitTask::Walk { destination: v(1.0, 1.0) });
    world.detask_units(&vec![1, 3]);
    assert_eq!(world.get_unit(0).unwrap().get_current_taskid(), Some(&0));
    assert!(world.get_unit(1).unwrap().get_current_taskid().is_none());
}

#[test]
fn motion_is_written_back() {
    let mut world = World::new((10, 10));
    world.spawn_random_bih(v(0.0, 0.0));
    world.set_unit_motion(0, v(3.0, 4.0), v(0.5, 0.5));
    world.set_unit_motion(9, v(3.0, 4.0), v(0.5, 0.5));
    let u = world.get_unit(0).unwrap();
    assert_eq!(u.position(), v(3.0, 4.0));
    assert_eq!(u.velocity(), v(0.5, 0.5));
    assert_eq!(world.unit_count(), 1);
}

#[test]
fn unit_queue_operations() {
    let mut u = Unit::new(3, v(0.0, 0.0));
    assert_eq!(u.id(), 3);
    u.add_task(4);
    u.add_task(6);
    assert_eq!(u.get_current_taskid(), Some(&4));
    u.drop_completed_tasks(&UnitUpdateResult::TaskCompleted);
    assert_eq!(u.get_current_taskid(), Some(&6));
    u.clear_tasks();
    assert!(u.get_current_taskid().is_none());
    u.drop_completed_tasks(&UnitUpdateResult::TaskCompleted);
    assert!(u.get_current_taskid().is_none());
}

#[test]
fn each_spawn_adds_one_unit() {
    let mut world = World::new((10, 10));
    assert_eq!(world.last_unit_id(), 0);
    world.spawn_random_bih(v(0.0, 0.0));
    assert_eq!(world.unit_count(), 1);
    world.spawn_unit(Unit::new(0, v(1.0, 1.0)));
    assert_eq!(world.unit_count(), 2);
    assert_eq!(world.last_unit_id(), 2);
    assert_eq!(world.last_task_id(), 0);
}

#[test]
fn units_share_a_task_only_when_both_work_on_it() {
    let mut a = Unit::new(0, v(0.0, 0.0));
    let mut b = Unit::new(1, v(0.0, 0.0));
    assert!(!a.shares_task(&b));
    a.add_task(3);
    assert!(!a.shares_task(&b));
    b.add_task(4);
    assert!(!a.shares_task(&b));
    b.clear_tasks();
    b.add_task(3);
    assert!(a.shares_task(&b));
    assert!(b.shares_task(&a));
}
