use bevy_local_commands::addons::chain::chain_execution_system;
use bevy_local_commands::addons::cleanup::cleanup_completed_process;
use bevy_local_commands::addons::delay::apply_delay;
use bevy_local_commands::addons::retry::retry_failed_process;

use bevy_local_commands::systems::{
    handle_completed_process, handle_new_command, handle_process_output, handle_spawn_outcome,
};
use bevy_local_commands::{
    Chain, ChainCompletedEvent, Cleanup, Countdown, Delay, ExitStatus, LocalCommand, Process,
    ProcessCompleted, ProcessDone, ProcessError, ProcessErrorInfo, ProcessExit, ProcessOutput,
    ProcessStarted, ProcessState, Retry, RetryEvent, SpawnOutcome, Unit,
};

fn pending(entity: u64) -> Unit {
    Unit::new(entity).with_command(LocalCommand::new("sh").args(vec!["-c", "exit 0"]))
}

fn running(entity: u64, pid: u32) -> Unit {
    let mut unit = pending(entity);
    unit.state = ProcessState::Running;
    unit.process = Some(Process::new(pid));
    unit
}

fn failed_run(entity: u64, code: i32) -> Unit {
    let mut unit = pending(entity);
    unit.state = ProcessState::Error;
    unit.exit_status = Some(ExitStatus::from_code(code));
    unit
}

fn done(entity: u64, how: ProcessDone, status: ExitStatus) -> Unit {
    let mut unit = pending(entity);
    unit.state = ProcessState::Done(how);
    unit.exit_status = Some(status);
    unit
}

#[test]
fn apply_delay_arms_a_fresh_countdown() {
    let mut units = vec![pending(1).with_delay(Delay::Fixed(3_000_000_000)), pending(2)];
    apply_delay(&mut units);
    assert_eq!(units[0].timer, Some(Countdown::new(3_000_000_000)));
    assert_eq!(units[0].state, ProcessState::Pending);
    assert_eq!(units[1].timer, None);
}

#[test]
fn apply_delay_leaves_a_running_countdown() {
    let mut unit = pending(1).with_delay(Delay::Fixed(100));
    unit.timer = Some(Countdown { duration: 100, elapsed: 40, finished: false });
    let mut units = vec![unit.clone()];
    apply_delay(&mut units);
    assert_eq!(units, vec![unit]);
}

#[test]
fn apply_delay_skips_units_that_are_not_pending() {
    let before = vec![
        running(1, 10).with_delay(Delay::Fixed(5)),
        failed_run(2, 1).with_delay(Delay::Fixed(5)),
        done(3, ProcessDone::Succeeded, ExitStatus::from_code(0)).with_delay(Delay::Fixed(5)),
        Unit::new(4).with_delay(Delay::Fixed(5)),
    ];
    let mut units = before.clone();
    apply_delay(&mut units);
    assert_eq!(units, before);
}

#[test]
fn handle_new_command_asks_for_pending_units() {
    let mut units = vec![pending(1), running(2, 20), pending(3), Unit::new(4)];
    let before = units.clone();
    let requests = handle_new_command(&mut units, 16);
    assert_eq!(requests, vec![1, 3]);
    assert_eq!(units, before);
}

#[test]
fn handle_new_command_ticks_an_unfinished_countdown() {
    let mut unit = pending(1).with_delay(Delay::Fixed(100));
    unit.timer = Some(Countdown::new(100));
    let mut units = vec![unit];
    assert!(handle_new_command(&mut units, 30).is_empty());
    assert_eq!(units[0].timer, Some(Countdown { duration: 100, elapsed: 30, finished: false }));
    assert!(handle_new_command(&mut units, 70).is_empty());
    assert_eq!(units[0].timer, Some(Countdown { duration: 100, elapsed: 100, finished: true }));
    assert_eq!(units[0].state, ProcessState::Pending);
}

#[test]
fn handle_new_command_consumes_a_finished_countdown() {
    let mut unit = pending(1).with_delay(Delay::Fixed(100));
    unit.timer = Some(Countdown { duration: 100, elapsed: 100, finished: true });
    let mut units = vec![unit];
    assert_eq!(handle_new_command(&mut units, 5), vec![1]);
    assert_eq!(units[0].timer, None);
    assert_eq!(units[0].state, ProcessState::Pending);
}

#[test]
fn handle_spawn_outcome_attaches_the_process() {
    let mut units = vec![pending(1), pending(2)];
    let outcomes = vec![SpawnOutcome { entity: 2, pid: Some(77) }];
    let (started, errors) = handle_spawn_outcome(&mut units, &outcomes);
    assert_eq!(started, vec![ProcessStarted { entity: 2, pid: 77 }]);
    assert!(errors.is_empty());
    assert_eq!(units[0], pending(1));
    assert_eq!(units[1], running(2, 77));
}

#[test]
fn handle_spawn_outcome_records_a_failed_start() {
    let mut units = vec![pending(1)];
    let outcomes = vec![SpawnOutcome { entity: 1, pid: None }];
    let (started, errors) = handle_spawn_outcome(&mut units, &outcomes);
    assert!(started.is_empty());
    assert_eq!(errors, vec![ProcessError { entity: 1, info: ProcessErrorInfo::FailedToStart }]);
    assert_eq!(units[0].state, ProcessState::Error);
    assert_eq!(units[0].process, None);
    assert_eq!(units[0].exit_status, None);
}

#[test]
fn handle_spawn_outcome_takes_the_first_answer() {
    let mut units = vec![pending(1)];
    let outcomes =
        vec![SpawnOutcome { entity: 1, pid: Some(5) }, SpawnOutcome { entity: 1, pid: None }];
    let (started, errors) = handle_spawn_outcome(&mut units, &outcomes);
    assert_eq!(started, vec![ProcessStarted { entity: 1, pid: 5 }]);
    assert!(errors.is_empty());
}

#[test]
fn handle_spawn_outcome_ignores_units_that_did_not_ask() {
    let mut waiting = pending(3).with_delay(Delay::Fixed(9));
    waiting.timer = Some(Countdown::new(9));
    let before = vec![
        running(1, 10),
        done(2, ProcessDone::Failed, ExitStatus::from_code(1)),
        waiting,
        Unit::new(4),
    ];
    let mut units = before.clone();
    let outcomes = vec![
        SpawnOutcome { entity: 1, pid: Some(11) },
        SpawnOutcome { entity: 2, pid: Some(12) },
        SpawnOutcome { entity: 3, pid: None },
        SpawnOutcome { entity: 4, pid: Some(14) },
        SpawnOutcome { entity: 5, pid: Some(15) },
    ];
    let (started, errors) = handle_spawn_outcome(&mut units, &outcomes);
    assert!(started.is_empty());
    assert!(errors.is_empty());
    assert_eq!(units, before);
}

#[test]
fn handle_process_output_passes_text_of_live_units() {
    let units = vec![running(1, 10), pending(2), running(3, 30)];
    let drained = vec![
        ProcessOutput::new(3, "three\n".to_string()),
        ProcessOutput::new(1, String::new()),
        ProcessOutput::new(2, "two\n".to_string()),
        ProcessOutput::new(9, "nine\n".to_string()),
        ProcessOutput::new(1, "one\n".to_string()),
    ];
    let events = handle_process_output(&units, drained);
    assert_eq!(
        events,
        vec![
            ProcessOutput::new(3, "three\n".to_string()),
            ProcessOutput::new(1, "one\n".to_string()),
        ]
    );
}

#[test]
fn handle_completed_process_success() {
    let mut units = vec![running(1, 10)];
    let exits = vec![ProcessExit { entity: 1, exit_status: ExitStatus::from_code(0) }];
    let events = handle_completed_process(&mut units, &exits);
    assert_eq!(
        events,
        vec![ProcessCompleted { entity: 1, exit_status: ExitStatus::from_code(0) }]
    );
    assert_eq!(units[0].state, ProcessState::Done(ProcessDone::Succeeded));
    assert_eq!(units[0].process, None);
    assert_eq!(units[0].exit_status, Some(ExitStatus::from_code(0)));
}

#[test]
fn handle_completed_process_killed() {
    let mut units = vec![running(1, 10)];
    let exits = vec![ProcessExit { entity: 1, exit_status: ExitStatus::signalled() }];
    let events = handle_completed_process(&mut units, &exits);
    assert_eq!(events, vec![ProcessCompleted { entity: 1, exit_status: ExitStatus::signalled() }]);
    assert_eq!(units[0].state, ProcessState::Done(ProcessDone::Killed));
    assert_eq!(units[0].process, None);
}

#[test]
fn handle_completed_process_failure_is_silent_at_first() {
    let mut units = vec![running(1, 10)];
    let exits = vec![ProcessExit { entity: 1, exit_status: ExitStatus::from_code(2) }];
    let events = handle_completed_process(&mut units, &exits);
    assert!(events.is_empty());
    assert_eq!(units[0], failed_run(1, 2));
    let events = handle_completed_process(&mut units, &vec![]);
    assert_eq!(
        events,
        vec![ProcessCompleted { entity: 1, exit_status: ExitStatus::from_code(2) }]
    );
    assert_eq!(units[0].state, ProcessState::Done(ProcessDone::Failed));
    assert_eq!(units[0].exit_status, Some(ExitStatus::from_code(2)));
}

#[test]
fn handle_completed_process_ends_a_failed_start_without_completion() {
    let mut unit = pending(1);
    unit.state = ProcessState::Error;
    let mut units = vec![unit];
    let events = handle_completed_process(&mut units, &vec![]);
    assert!(events.is_empty());
    assert_eq!(units[0].state, ProcessState::Done(ProcessDone::Failed));
}

#[test]
fn handle_completed_process_leaves_the_rest() {
    let before = vec![
        running(1, 10),
        pending(2),
        done(3, ProcessDone::Killed, ExitStatus::signalled()),
    ];
    let mut units = before.clone();
    let exits = vec![
        ProcessExit { entity: 2, exit_status: ExitStatus::from_code(0) },
        ProcessExit { entity: 3, exit_status: ExitStatus::from_code(0) },
    ];
    let events = handle_completed_process(&mut units, &exits);
    assert!(events.is_empty());
    assert_eq!(units, before);
}

#[test]
fn cleanup_despawns_terminal_units() {
    let mut units = vec![
        done(1, ProcessDone::Succeeded, ExitStatus::from_code(0)).with_cleanup(Cleanup::DespawnUnit),
        running(2, 20).with_cleanup(Cleanup::DespawnUnit),
        done(3, ProcessDone::Killed, ExitStatus::signalled()).with_cleanup(Cleanup::DespawnUnit),
        done(4, ProcessDone::Failed, ExitStatus::from_code(1)),
    ];
    let removed = cleanup_completed_process(&mut units);
    assert_eq!(removed, vec![1, 3]);
    assert_eq!(
        units,
        vec![
            running(2, 20).with_cleanup(Cleanup::DespawnUnit),
            done(4, ProcessDone::Failed, ExitStatus::from_code(1)),
        ]
    );
}

#[test]
fn cleanup_removes_runtime_data_and_keeps_the_outcome() {
    let mut units = vec![done(1, ProcessDone::Failed, ExitStatus::from_code(3))
        .with_cleanup(Cleanup::RemoveRuntimeData)
        .with_delay(Delay::Fixed(1))];
    let removed = cleanup_completed_process(&mut units);
    assert!(removed.is_empty());
    assert_eq!(units.len(), 1);
    assert_eq!(units[0].entity, 1);
    assert_eq!(units[0].state, ProcessState::Done(ProcessDone::Failed));
    assert_eq!(units[0].exit_status, Some(ExitStatus::from_code(3)));
    assert_eq!(units[0].command, None);
    assert_eq!(units[0].process, None);
    assert_eq!(units[0].timer, None);
    assert_eq!(units[0].cleanup, None);
    assert_eq!(units[0].delay, Some(Delay::Fixed(1)));
}

#[test]
fn cleanup_waits_for_error_to_resolve() {
    let before = vec![failed_run(1, 1).with_cleanup(Cleanup::DespawnUnit)];
    let mut units = before.clone();
    assert!(cleanup_completed_process(&mut units).is_empty());
    assert_eq!(units, before);
}

#[test]
fn cleanup_skips_a_failed_unit_with_retry_attached() {
    let before = vec![done(1, ProcessDone::Failed, ExitStatus::from_code(1))
        .with_cleanup(Cleanup::DespawnUnit)
        .with_retry(Retry::Attempts(1))];
    let mut units = before.clone();
    assert!(cleanup_completed_process(&mut units).is_empty());
    assert_eq!(units, before);
}

#[test]
fn cleanup_takes_a_succeeded_unit_with_retry_attached() {
    let mut units = vec![done(1, ProcessDone::Succeeded, ExitStatus::from_code(0))
        .with_cleanup(Cleanup::DespawnUnit)
        .with_retry(Retry::Attempts(1))];
    assert_eq!(cleanup_completed_process(&mut units), vec![1]);
    assert!(units.is_empty());
}

#[test]
fn cleanup_waits_for_a_chain() {
    let before = vec![done(1, ProcessDone::Succeeded, ExitStatus::from_code(0))
        .with_cleanup(Cleanup::DespawnUnit)
        .with_chain(Chain::new(vec![LocalCommand::new("next")]))];
    let mut units = before.clone();
    assert!(cleanup_completed_process(&mut units).is_empty());
    assert_eq!(units, before);
}

#[test]
fn retry_sends_a_failed_command_back() {
    let mut units = vec![failed_run(1, 1).with_retry(Retry::Attempts(2))];
    let events = retry_failed_process(&mut units);
    assert_eq!(events, vec![RetryEvent { entity: 1, retries_left: 1 }]);
    assert_eq!(units[0], pending(1).with_retry(Retry::Attempts(1)));
}

#[test]
fn retry_keeps_the_command_verbatim() {
    let command = LocalCommand::new("prog")
        .args(vec!["a", "b"])
        .env("K", "v")
        .env_remove("X")
        .current_dir("/work");
    let mut unit = Unit::new(1).with_command(command.clone()).with_retry(Retry::Attempts(1));
    unit.state = ProcessState::Error;
    unit.exit_status = Some(ExitStatus::from_code(9));
    let mut units = vec![unit];
    retry_failed_process(&mut units);
    assert_eq!(units[0].command, Some(command));
    assert_eq!(units[0].exit_status, None);
}

#[test]
fn retry_without_attempts_leaves_the_unit_to_fail() {
    let mut units = vec![failed_run(1, 1).with_retry(Retry::Attempts(0))];
    let events = retry_failed_process(&mut units);
    assert!(events.is_empty());
    assert_eq!(units[0], failed_run(1, 1));
    assert_eq!(units[0].retry, None);
}

#[test]
fn retry_ignores_what_is_not_a_failed_run() {
    let mut failed_start = pending(4).with_retry(Retry::Attempts(3));
    failed_start.state = ProcessState::Error;
    let before = vec![
        failed_run(1, 1),
        running(2, 20).with_retry(Retry::Attempts(3)),
        done(3, ProcessDone::Killed, ExitStatus::signalled()).with_retry(Retry::Attempts(3)),
        failed_start,
        pending(5).with_retry(Retry::Attempts(3)),
    ];
    let mut units = before.clone();
    let events = retry_failed_process(&mut units);
    assert!(events.is_empty());
    assert_eq!(units, before);
}

#[test]
fn chain_starts_its_first_command() {
    let first = LocalCommand::new("first");
    let second = LocalCommand::new("second");
    let mut units =
        vec![Unit::new(1).with_chain(Chain::new(vec![first.clone(), second.clone()]))];
    let events = chain_execution_system(&mut units);
    assert!(events.is_empty());
    assert_eq!(units[0].command, Some(first));
    assert_eq!(units[0].chain, Some(Chain::new(vec![second])));
    assert_eq!(units[0].state, ProcessState::Pending);
}

#[test]
fn chain_moves_on_after_success() {
    let second = LocalCommand::new("second");
    let mut units = vec![done(1, ProcessDone::Succeeded, ExitStatus::from_code(0))
        .with_chain(Chain::new(vec![second.clone()]))];
    let events = chain_execution_system(&mut units);
    assert!(events.is_empty());
    assert_eq!(units[0].command, Some(second));
    assert_eq!(units[0].chain, Some(Chain::new(vec![])));
    assert_eq!(units[0].state, ProcessState::Pending);
    assert_eq!(units[0].exit_status, None);
}

#[test]
fn chain_completes_after_the_last_success() {
    let mut units = vec![done(1, ProcessDone::Succeeded, ExitStatus::from_code(0))
        .with_chain(Chain::new(vec![]))];
    let events = chain_execution_system(&mut units);
    assert_eq!(events, vec![ChainCompletedEvent { entity: 1, success: true }]);
    assert_eq!(units[0].command, None);
    assert_eq!(units[0].chain, None);
    assert_eq!(units[0].state, ProcessState::Done(ProcessDone::Succeeded));
}

#[test]
fn chain_gives_up_after_failure() {
    let mut units = vec![
        done(1, ProcessDone::Failed, ExitStatus::from_code(1))
            .with_chain(Chain::new(vec![LocalCommand::new("never")])),
        done(2, ProcessDone::Killed, ExitStatus::signalled())
            .with_chain(Chain::new(vec![LocalCommand::new("never")])),
    ];
    let events = chain_execution_system(&mut units);
    assert_eq!(
        events,
        vec![
            ChainCompletedEvent { entity: 1, success: false },
            ChainCompletedEvent { entity: 2, success: false },
        ]
    );
    for unit in &units {
        assert_eq!(unit.command, None);
        assert_eq!(unit.chain, None);
    }
    assert_eq!(units[0].state, ProcessState::Done(ProcessDone::Failed));
    assert_eq!(units[1].state, ProcessState::Done(ProcessDone::Killed));
}

#[test]
fn chain_waits_while_its_command_is_under_way() {
    let chain = Chain::new(vec![LocalCommand::new("next")]);
    let before = vec![
        pending(1).with_chain(chain.clone()),
        running(2, 20).with_chain(chain.clone()),
        failed_run(3, 1).with_chain(chain.clone()),
        Unit::new(4).with_chain(Chain::new(vec![])),
        done(5, ProcessDone::Succeeded, ExitStatus::from_code(0)),
    ];
    let mut units = before.clone();
    let events = chain_execution_system(&mut units);
    assert!(events.is_empty());
    assert_eq!(units, before);
}

#[test]
fn policies_tell_their_numbers() {
    assert_eq!(Delay::Fixed(1_500).duration(), 1_500);
    assert_eq!(Retry::Attempts(4).attempts(), 4);
}

#[test]
fn fresh_unit_is_recognised() {
    assert!(Unit::new(1).is_fresh());
    assert!(pending(1).with_retry(Retry::Attempts(1)).is_fresh());
    assert!(!running(1, 2).is_fresh());
    assert!(!failed_run(1, 1).is_fresh());
    let mut counting = pending(1);
    counting.timer = Some(Countdown::new(1));
    assert!(!counting.is_fresh());
}
