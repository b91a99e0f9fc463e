use bevy_local_commands::addons::chain::advance_chain;
use bevy_local_commands::addons::cleanup::clean_unit;
use bevy_local_commands::addons::delay::arm_delay;
use bevy_local_commands::addons::retry::retry_unit;
use bevy_local_commands::events::{find_exit, find_outcome};
use bevy_local_commands::systems::{check_completion, decide_spawn, is_live, record_spawn};
use bevy_local_commands::{
    Chain, ChainCompletedEvent, Cleanup, Countdown, Delay, ExitStatus, LocalCommand, Process,
    ProcessCompleted, ProcessDone, ProcessError, ProcessErrorInfo, ProcessExit, ProcessStarted,
    ProcessState, Retry, RetryEvent, SpawnOutcome, Unit,
};

fn unit(entity: u64) -> Unit {
    Unit::new(entity).with_command(LocalCommand::new("true"))
}

#[test]
fn builders_set_one_slot_each() {
    let command = LocalCommand::new("ls").arg("-l");
    let chain = Chain::new(vec![LocalCommand::new("a")]);
    let built = Unit::new(8)
        .with_command(command.clone())
        .with_delay(Delay::Fixed(5))
        .with_retry(Retry::Attempts(2))
        .with_chain(chain.clone())
        .with_cleanup(Cleanup::DespawnUnit);
    assert_eq!(
        built,
        Unit {
            entity: 8,
            command: Some(command),
            state: ProcessState::Pending,
            timer: None,
            process: None,
            exit_status: None,
            delay: Some(Delay::Fixed(5)),
            retry: Some(Retry::Attempts(2)),
            chain: Some(chain),
            cleanup: Some(Cleanup::DespawnUnit),
        }
    );
    assert!(built.is_fresh());
}

#[test]
fn arm_delay_needs_a_policy_and_a_pending_command() {
    let mut delayed = unit(1).with_delay(Delay::Fixed(7));
    arm_delay(&mut delayed);
    assert_eq!(delayed.timer, Some(Countdown { duration: 7, elapsed: 0, finished: false }));
    let mut plain = unit(1);
    arm_delay(&mut plain);
    assert_eq!(plain, unit(1));
    let mut idle = Unit::new(1).with_delay(Delay::Fixed(7));
    arm_delay(&mut idle);
    assert_eq!(idle.timer, None);
}

#[test]
fn decide_spawn_counts_down_before_it_asks() {
    let mut delayed = unit(1).with_delay(Delay::Fixed(10));
    arm_delay(&mut delayed);
    assert!(!decide_spawn(&mut delayed, 4));
    assert_eq!(delayed.timer.unwrap().elapsed, 4);
    assert!(!decide_spawn(&mut delayed, 6));
    assert!(delayed.timer.unwrap().finished());
    assert!(decide_spawn(&mut delayed, 1_000));
    assert_eq!(delayed.timer, None);
    assert_eq!(delayed.state, ProcessState::Pending);
}

#[test]
fn decide_spawn_asks_at_once_without_delay() {
    let mut plain = unit(1);
    assert!(decide_spawn(&mut plain, 0));
    assert_eq!(plain, unit(1));
    let mut idle = Unit::new(2);
    assert!(!decide_spawn(&mut idle, 0));
}

#[test]
fn record_spawn_tells_what_to_announce() {
    let mut started = unit(1);
    assert_eq!(
        record_spawn(&mut started, Some(Some(9))),
        Some(Ok(ProcessStarted { entity: 1, pid: 9 }))
    );
    assert_eq!(started.state, ProcessState::Running);
    assert_eq!(started.process, Some(Process::new(9)));

    let mut failed = unit(2);
    assert_eq!(
        record_spawn(&mut failed, Some(None)),
        Some(Err(ProcessError { entity: 2, info: ProcessErrorInfo::FailedToStart }))
    );
    assert_eq!(failed.state, ProcessState::Error);

    let mut unanswered = unit(3);
    assert_eq!(record_spawn(&mut unanswered, None), None);
    assert_eq!(unanswered, unit(3));

    assert_eq!(record_spawn(&mut started, Some(Some(10))), None);
    assert_eq!(started.process, Some(Process::new(9)));
}

#[test]
fn check_completion_follows_the_exit_code() {
    let mut running = unit(1);
    record_spawn(&mut running, Some(Some(5)));
    assert_eq!(check_completion(&mut running, None), None);
    assert_eq!(running.state, ProcessState::Running);

    let mut killed = running.clone();
    assert_eq!(
        check_completion(&mut killed, Some(ExitStatus::signalled())),
        Some(ProcessCompleted { entity: 1, exit_status: ExitStatus::signalled() })
    );
    assert_eq!(killed.state, ProcessState::Done(ProcessDone::Killed));

    let mut failed = running.clone();
    assert_eq!(check_completion(&mut failed, Some(ExitStatus::from_code(-3))), None);
    assert_eq!(failed.state, ProcessState::Error);
    assert_eq!(failed.process, None);
    assert_eq!(
        check_completion(&mut failed, Some(ExitStatus::from_code(0))),
        Some(ProcessCompleted { entity: 1, exit_status: ExitStatus::from_code(-3) })
    );
    assert_eq!(failed.state, ProcessState::Done(ProcessDone::Failed));
    assert_eq!(check_completion(&mut failed, Some(ExitStatus::from_code(0))), None);
    assert_eq!(failed.state, ProcessState::Done(ProcessDone::Failed));
}

#[test]
fn retry_unit_counts_down_to_removal() {
    let mut failing = unit(1).with_retry(Retry::Attempts(1));
    failing.state = ProcessState::Error;
    failing.exit_status = Some(ExitStatus::from_code(1));
    assert_eq!(retry_unit(&mut failing), Some(RetryEvent { entity: 1, retries_left: 0 }));
    assert_eq!(failing, unit(1).with_retry(Retry::Attempts(0)));
    failing.state = ProcessState::Error;
    failing.exit_status = Some(ExitStatus::from_code(1));
    assert_eq!(retry_unit(&mut failing), None);
    assert_eq!(failing.retry, None);
    assert_eq!(failing.state, ProcessState::Error);
}

#[test]
fn advance_chain_pops_the_queue_in_order() {
    let specs = vec![LocalCommand::new("a"), LocalCommand::new("b")];
    let mut chained = Unit::new(1).with_chain(Chain::new(specs.clone()));
    assert_eq!(advance_chain(&mut chained), None);
    assert_eq!(chained.command, Some(specs[0].clone()));
    assert_eq!(advance_chain(&mut chained), None);
    assert_eq!(chained.command, Some(specs[0].clone()));
    chained.state = ProcessState::Done(ProcessDone::Succeeded);
    assert_eq!(advance_chain(&mut chained), None);
    assert_eq!(chained.command, Some(specs[1].clone()));
    assert_eq!(chained.state, ProcessState::Pending);
    chained.state = ProcessState::Done(ProcessDone::Succeeded);
    assert_eq!(
        advance_chain(&mut chained),
        Some(ChainCompletedEvent { entity: 1, success: true })
    );
    assert_eq!(chained.chain, None);
    assert_eq!(advance_chain(&mut chained), None);
}

#[test]
fn clean_unit_says_when_to_remove() {
    let mut despawn = unit(1).with_cleanup(Cleanup::DespawnUnit);
    assert!(!clean_unit(&mut despawn));
    despawn.state = ProcessState::Done(ProcessDone::Killed);
    let before = despawn.clone();
    assert!(clean_unit(&mut despawn));
    assert_eq!(despawn, before);

    let mut keep = unit(2).with_cleanup(Cleanup::RemoveRuntimeData);
    keep.state = ProcessState::Done(ProcessDone::Succeeded);
    assert!(!clean_unit(&mut keep));
    assert_eq!(keep.command, None);
    assert_eq!(keep.cleanup, None);
    assert_eq!(keep.state, ProcessState::Done(ProcessDone::Succeeded));
}

#[test]
fn find_takes_the_first_match() {
    let outcomes = vec![
        SpawnOutcome { entity: 1, pid: None },
        SpawnOutcome { entity: 2, pid: Some(20) },
        SpawnOutcome { entity: 2, pid: Some(21) },
    ];
    assert_eq!(find_outcome(&outcomes, 1), Some(None));
    assert_eq!(find_outcome(&outcomes, 2), Some(Some(20)));
    assert_eq!(find_outcome(&outcomes, 3), None);
    let exits = vec![
        ProcessExit { entity: 5, exit_status: ExitStatus::from_code(1) },
        ProcessExit { entity: 5, exit_status: ExitStatus::from_code(0) },
    ];
    assert_eq!(find_exit(&exits, 5), Some(ExitStatus::from_code(1)));
    assert_eq!(find_exit(&exits, 6), None);
    assert_eq!(find_exit(&vec![], 5), None);
}

#[test]
fn is_live_needs_a_process() {
    let mut running = unit(1);
    record_spawn(&mut running, Some(Some(5)));
    let units = vec![unit(2), running];
    assert!(is_live(&units, 1));
    assert!(!is_live(&units, 2));
    assert!(!is_live(&units, 3));
}
