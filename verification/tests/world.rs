use bevy_local_commands::{
    Delay, ExitStatus, LocalCommand, ProcessDone, ProcessExit, ProcessState, SpawnOutcome, Unit,
    World,
};

fn unit(entity: u64) -> Unit {
    Unit::new(entity).with_command(LocalCommand::new("cat"))
}

fn world_with_running(entity: u64, pid: u32) -> World {
    let mut world = World::new();
    assert!(world.spawn(unit(entity)));
    assert_eq!(world.begin_tick(0), vec![entity]);
    world.finish_tick(&vec![SpawnOutcome { entity, pid: Some(pid) }], vec![], &vec![]);
    world
}

#[test]
fn new_world_is_empty() {
    let world = World::new();
    assert!(world.units().is_empty());
    assert!(world.get(1).is_none());
}

#[test]
fn spawn_takes_fresh_units_in_order() {
    let mut world = World::new();
    assert!(world.spawn(unit(5)));
    assert!(world.spawn(unit(3)));
    let entities: Vec<u64> = world.units().iter().map(|u| u.entity).collect();
    assert_eq!(entities, vec![5, 3]);
    assert_eq!(world.get(3), Some(&unit(3)));
    assert_eq!(world.get(4), None);
}

#[test]
fn spawn_refuses_a_known_identifier() {
    let mut world = World::new();
    assert!(world.spawn(unit(1)));
    assert!(!world.spawn(unit(1).with_delay(Delay::Fixed(1))));
    assert_eq!(world.units(), &vec![unit(1)]);
}

#[test]
fn spawn_refuses_a_unit_that_has_run() {
    let mut world = World::new();
    let mut used = unit(1);
    used.state = ProcessState::Done(ProcessDone::Succeeded);
    assert!(!world.spawn(used));
    let mut used = unit(2);
    used.exit_status = Some(ExitStatus::from_code(0));
    assert!(!world.spawn(used));
    assert!(world.units().is_empty());
}

#[test]
fn despawn_takes_the_unit_out() {
    let mut world = World::new();
    world.spawn(unit(1));
    world.spawn(unit(2));
    world.spawn(unit(3));
    assert_eq!(world.despawn(2), Some(unit(2)));
    assert_eq!(world.despawn(2), None);
    assert_eq!(world.units(), &vec![unit(1), unit(3)]);
}

#[test]
fn kill_marks_the_live_process_and_keeps_the_state() {
    let mut world = world_with_running(1, 10);
    assert!(world.kill(1));
    let unit = world.get(1).unwrap();
    assert_eq!(unit.state, ProcessState::Running);
    assert!(unit.process.as_ref().unwrap().kill_requested());
    assert_eq!(unit.process.as_ref().unwrap().id(), 10);
}

#[test]
fn kill_needs_a_live_process() {
    let mut world = World::new();
    world.spawn(unit(1));
    assert!(!world.kill(1));
    assert!(!world.kill(2));
    assert_eq!(world.units(), &vec![unit(1)]);
}

#[test]
fn println_hands_out_the_line() {
    let mut world = world_with_running(1, 10);
    assert_eq!(world.println(1, "Hello world!"), Some(b"Hello world!\n".to_vec()));
    assert_eq!(world.print(1, "abc"), Some(b"abc".to_vec()));
    assert!(world.get(1).unwrap().process.as_ref().unwrap().input.is_empty());
}

#[test]
fn print_needs_a_live_process() {
    let mut world = World::new();
    world.spawn(unit(1));
    assert_eq!(world.print(1, "x"), None);
    assert_eq!(world.println(1, "x"), None);
    assert_eq!(world.println(9, "x"), None);
}

#[test]
fn units_do_not_affect_each_other() {
    let mut alone = World::new();
    alone.spawn(unit(2));
    let mut crowd = World::new();
    crowd.spawn(unit(1));
    crowd.spawn(unit(2));
    crowd.spawn(unit(3));
    let outcomes = vec![
        SpawnOutcome { entity: 1, pid: None },
        SpawnOutcome { entity: 2, pid: Some(20) },
        SpawnOutcome { entity: 3, pid: Some(30) },
    ];
    let exits = vec![
        ProcessExit { entity: 3, exit_status: ExitStatus::from_code(1) },
        ProcessExit { entity: 2, exit_status: ExitStatus::from_code(0) },
    ];
    for _ in 0..3 {
        alone.begin_tick(7);
        crowd.begin_tick(7);
        alone.finish_tick(&outcomes, vec![], &exits);
        crowd.finish_tick(&outcomes, vec![], &exits);
        assert_eq!(alone.get(2), crowd.get(2));
    }
    assert_eq!(crowd.get(1).unwrap().state, ProcessState::Done(ProcessDone::Failed));
    assert_eq!(crowd.get(2).unwrap().state, ProcessState::Done(ProcessDone::Succeeded));
    assert_eq!(crowd.get(3).unwrap().state, ProcessState::Done(ProcessDone::Failed));
}

#[test]
fn world_write_buffers_until_flush() {
    let mut world = world_with_running(1, 10);
    assert!(world.write(1, b"Hello "));
    assert!(world.write(1, b"world"));
    assert_eq!(world.get(1).unwrap().process.as_ref().unwrap().input, b"Hello world".to_vec());
    assert_eq!(world.get(1).unwrap().state, ProcessState::Running);
    assert_eq!(world.flush(1), Some(b"Hello world".to_vec()));
    assert_eq!(world.flush(1), Some(Vec::new()));
}

#[test]
fn world_println_flushes_what_was_written_before() {
    let mut world = world_with_running(1, 10);
    world.write(1, b"a");
    assert_eq!(world.println(1, "b"), Some(b"ab\n".to_vec()));
}

#[test]
fn write_needs_a_live_process() {
    let mut world = World::new();
    world.spawn(unit(1));
    assert!(!world.write(1, b"x"));
    assert!(!world.write(2, b"x"));
    assert_eq!(world.flush(1), None);
    assert_eq!(world.flush(2), None);
    assert_eq!(world.units(), &vec![unit(1)]);
}

#[test]
fn default_world_is_empty() {
    assert_eq!(World::default(), World::new());
}
