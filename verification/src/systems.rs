//! The steps of a tick that start processes and follow them to their end.

use crate::countdown::Countdown;
use crate::events::exit_for;
use crate::events::find_exit;
use crate::events::find_outcome;
use crate::events::lemma_present_step;
use crate::events::outcome_for;
use crate::events::present;
use crate::events::ProcessCompleted;
use crate::events::ProcessError;
use crate::events::ProcessErrorInfo;
use crate::events::ProcessExit;
use crate::events::ProcessStarted;
use crate::events::SpawnOutcome;
use crate::output::ProcessOutput;
use crate::output::ProcessOutputView;
use crate::process::ExitStatus;
use crate::process::Pid;
use crate::process::Process;
use crate::process::ProcessDone;
use crate::process::ProcessState;
use crate::process::ProcessView;
use crate::unit::lemma_map_keeps_wf;
use crate::unit::Unit;
use crate::unit::units_wf;
use crate::unit::UnitView;
use vstd::prelude::*;

verus! {

/// The unit has a command that is waiting to be started.
pub open spec fn awaits_spawn(u: UnitView) -> bool {
    &&& u.state == ProcessState::Pending
    &&& u.command is Some
    &&& u.process is None
}

/// The unit's start is withheld by a countdown that has not finished.
pub open spec fn counting_down(u: UnitView) -> bool {
    &&& awaits_spawn(u)
    &&& u.timer is Some
    &&& !u.timer->0.finished
}

/// The unit's command is to be started now.
pub open spec fn spawn_due(u: UnitView) -> bool {
    awaits_spawn(u) && !counting_down(u)
}

/// A unit after the step that decides on its start, `delta` nanoseconds
/// after the previous tick: an unfinished countdown advances; otherwise the
/// countdown is consumed, and the start is asked for.
pub open spec fn after_new_command(u: UnitView, delta: u64) -> UnitView {
    if counting_down(u) {
        UnitView { timer: Some(u.timer->0.spec_tick(delta)), ..u }
    } else if spawn_due(u) {
        UnitView { timer: None, ..u }
    } else {
        u
    }
}

/// What the step asks the host to start, if anything: the process of the unit.
pub open spec fn spawn_request(u: UnitView) -> Option<u64> {
    if spawn_due(u) {
        Some(u.entity)
    } else {
        None
    }
}

/// The unit's start was asked for, and the host's answer is awaited.
pub open spec fn awaits_outcome(u: UnitView) -> bool {
    awaits_spawn(u) && u.timer is None
}

/// A unit after the host's answer to the request to start its process:
/// with a live process and `Running`, or `Error` where the process could not
/// be started. Without an answer, and for a unit whose start was not asked
/// for, nothing changes.
pub open spec fn after_spawn(u: UnitView, outcome: Option<Option<Pid>>) -> UnitView {
    if awaits_outcome(u) {
        match outcome {
            Some(Some(pid)) => UnitView {
                process: Some(ProcessView::started(pid)),
                state: ProcessState::Running,
                ..u
            },
            Some(None) => UnitView { state: ProcessState::Error, ..u },
            None => u,
        }
    } else {
        u
    }
}

/// The start that is announced for a unit.
pub open spec fn started_event(u: UnitView, outcome: Option<Option<Pid>>) -> Option<
    ProcessStarted,
> {
    if awaits_outcome(u) && outcome is Some && outcome->0 is Some {
        Some(ProcessStarted { entity: u.entity, pid: outcome->0->0 })
    } else {
        None
    }
}

/// The failure to start that is announced for a unit.
pub open spec fn error_event(u: UnitView, outcome: Option<Option<Pid>>) -> Option<ProcessError> {
    if awaits_outcome(u) && outcome == Some(None::<Pid>) {
        Some(ProcessError { entity: u.entity, info: ProcessErrorInfo::FailedToStart })
    } else {
        None
    }
}

/// A unit after the completion check, for which the host reports `exit` if
/// it saw the unit's process end.
///
/// A running command whose process has ended gives its process up, keeps the
/// exit status and moves on: without exit code to `Done(Killed)`, with code 0
/// to `Done(Succeeded)`, with another code to `Error`. A command found in
/// `Error`, which no retry has taken up, becomes `Done(Failed)`.
pub open spec fn after_completion(u: UnitView, exit: Option<ExitStatus>) -> UnitView {
    match u.state {
        ProcessState::Error => UnitView { state: ProcessState::Done(ProcessDone::Failed), ..u },
        ProcessState::Running => match exit {
            Some(status) => UnitView {
                state: status.spec_next_state(),
                process: None,
                exit_status: Some(status),
                ..u
            },
            None => u,
        },
        _ => u,
    }
}

/// The completion that the check announces for a unit: when its command
/// reaches a terminal state, with the exit status of its process. A command
/// whose process never started ends without one.
pub open spec fn completed_event(u: UnitView, exit: Option<ExitStatus>) -> Option<
    ProcessCompleted,
> {
    match u.state {
        ProcessState::Error => match u.exit_status {
            Some(status) => Some(ProcessCompleted { entity: u.entity, exit_status: status }),
            None => None,
        },
        ProcessState::Running => match exit {
            Some(status) => if status.spec_next_state() is Done {
                Some(ProcessCompleted { entity: u.entity, exit_status: status })
            } else {
                None
            },
            None => None,
        },
        _ => None,
    }
}

/// The units after the step that decides on the starts.
pub open spec fn commanded(units: Seq<UnitView>, delta: u64) -> Seq<UnitView> {
    units.map_values(|u: UnitView| after_new_command(u, delta))
}

/// The units after the host's answers to the requests to start processes.
pub open spec fn spawned(units: Seq<UnitView>, outcomes: Seq<SpawnOutcome>) -> Seq<UnitView> {
    units.map_values(|u: UnitView| after_spawn(u, outcome_for(outcomes, u.entity)))
}

/// The units after the completion check.
pub open spec fn completed(units: Seq<UnitView>, exits: Seq<ProcessExit>) -> Seq<UnitView> {
    units.map_values(|u: UnitView| after_completion(u, exit_for(exits, u.entity)))
}

/// The entities whose processes the host is asked to start, in the order of
/// the units.
pub open spec fn spawn_requests(units: Seq<UnitView>) -> Seq<u64> {
    present(units.map_values(|u: UnitView| spawn_request(u)))
}

/// The starts that are announced, in the order of the units.
pub open spec fn started_events(units: Seq<UnitView>, outcomes: Seq<SpawnOutcome>) -> Seq<
    ProcessStarted,
> {
    present(units.map_values(|u: UnitView| started_event(u, outcome_for(outcomes, u.entity))))
}

/// The failures to start that are announced, in the order of the units.
pub open spec fn error_events(units: Seq<UnitView>, outcomes: Seq<SpawnOutcome>) -> Seq<
    ProcessError,
> {
    present(units.map_values(|u: UnitView| error_event(u, outcome_for(outcomes, u.entity))))
}

/// The completions that are announced, in the order of the units.
pub open spec fn completed_events(units: Seq<UnitView>, exits: Seq<ProcessExit>) -> Seq<
    ProcessCompleted,
> {
    present(units.map_values(|u: UnitView| completed_event(u, exit_for(exits, u.entity))))
}

/// Decides on the start of one unit. The result says whether the host is to
/// start the unit's process now.
pub fn decide_spawn(unit: &mut Unit, delta: u64) -> (spawn: bool)
    ensures
        final(unit).deep_view() == after_new_command(old(unit).deep_view(), delta),
        spawn == spawn_due(old(unit).deep_view()),
{
    if !(unit.state == ProcessState::Pending && unit.command.is_some() && unit.process.is_none()) {
        return false;
    }
    match unit.timer {
        Some(countdown) => {
            if !countdown.finished() {
                let mut advanced: Countdown = countdown;
                advanced.tick(delta);
                unit.timer = Some(advanced);
                false
            } else {
                unit.timer = None;
                true
            }
        },
        None => true,
    }
}

/// A command is pending process creation.
///
/// Advances the countdowns of the delayed units by `delta` nanoseconds and
/// returns the entities whose processes the host is to start. The host
/// answers through [`handle_spawn_outcome`].
pub fn handle_new_command(units: &mut Vec<Unit>, delta: u64) -> (requests: Vec<u64>)
    ensures
        final(units).deep_view() == commanded(old(units).deep_view(), delta),
        requests@ == spawn_requests(old(units).deep_view()),
        units_wf(old(units).deep_view()) ==> units_wf(final(units).deep_view()),
{
    let ghost before = units.deep_view();
    let ghost asked = before.map_values(|u: UnitView| spawn_request(u));
    let mut requests: Vec<u64> = Vec::new();
    let mut i: usize = 0;
    while i < units.len()
        invariant
            i <= units.len(),
            units.len() == before.len(),
            asked == before.map_values(|u: UnitView| spawn_request(u)),
            forall|j: int| 0 <= j < i ==> units@[j].deep_view() == after_new_command(before[j], delta),
            forall|j: int| i <= j < units.len() ==> units@[j].deep_view() == before[j],
            requests@ == present(asked.take(i as int)),
        decreases units.len() - i,
    {
        let entity = units[i].entity;
        let spawn = decide_spawn(&mut units[i], delta);
        proof {
            lemma_present_step(asked, i as int);
        }
        if spawn {
            requests.push(entity);
        }
        i = i + 1;
    }
    proof {
        assert(asked.take(units.len() as int) =~= asked);
        assert(units.deep_view() =~= before.map_values(|u: UnitView| after_new_command(u, delta)));
        if units_wf(before) {
            lemma_map_keeps_wf(before, |u: UnitView| after_new_command(u, delta));
        }
    }
    requests
}

/// Records the host's answer for one unit. The result is what is to be
/// announced: the start, the failure to start, or nothing.
pub fn record_spawn(unit: &mut Unit, outcome: Option<Option<Pid>>) -> (event: Option<
    Result<ProcessStarted, ProcessError>,
>)
    ensures
        final(unit).deep_view() == after_spawn(old(unit).deep_view(), outcome),
        started_event(old(unit).deep_view(), outcome) == match event {
            Some(Ok(started)) => Some(started),
            _ => None,
        },
        error_event(old(unit).deep_view(), outcome) == match event {
            Some(Err(error)) => Some(error),
            _ => None,
        },
{
    if !(unit.state == ProcessState::Pending && unit.command.is_some() && unit.process.is_none()
        && unit.timer.is_none()) {
        return None;
    }
    match outcome {
        Some(Some(pid)) => {
            unit.process = Some(Process::new(pid));
            unit.state = ProcessState::Running;
            Some(Ok(ProcessStarted { entity: unit.entity, pid }))
        },
        Some(None) => {
            unit.state = ProcessState::Error;
            Some(Err(ProcessError { entity: unit.entity, info: ProcessErrorInfo::FailedToStart }))
        },
        None => None,
    }
}

/// Takes in what became of the processes that [`handle_new_command`] asked
/// for: a unit whose process was started gets its record and is `Running`;
/// a unit whose process could not be started is in `Error`, which is
/// announced. The announcements are in the order of the units.
pub fn handle_spawn_outcome(units: &mut Vec<Unit>, outcomes: &Vec<SpawnOutcome>) -> (events: (
    Vec<ProcessStarted>,
    Vec<ProcessError>,
))
    ensures
        final(units).deep_view() == spawned(old(units).deep_view(), outcomes@),
        events.0@ == started_events(old(units).deep_view(), outcomes@),
        events.1@ == error_events(old(units).deep_view(), outcomes@),
        units_wf(old(units).deep_view()) ==> units_wf(final(units).deep_view()),
{
    let ghost before = units.deep_view();
    let ghost starts = before.map_values(
        |u: UnitView| started_event(u, outcome_for(outcomes@, u.entity)),
    );
    let ghost errors = before.map_values(
        |u: UnitView| error_event(u, outcome_for(outcomes@, u.entity)),
    );
    let mut started: Vec<ProcessStarted> = Vec::new();
    let mut failed: Vec<ProcessError> = Vec::new();
    let mut i: usize = 0;
    assert(starts.take(0) =~= Seq::empty());
    while i < units.len()
        invariant
            i <= units.len(),
            units.len() == before.len(),
            starts == before.map_values(
                |u: UnitView| started_event(u, outcome_for(outcomes@, u.entity)),
            ),
            errors == before.map_values(
                |u: UnitView| error_event(u, outcome_for(outcomes@, u.entity)),
            ),
            forall|j: int|
                0 <= j < i ==> units@[j].deep_view() == after_spawn(
                    before[j],
                    outcome_for(outcomes@, before[j].entity),
                ),
            forall|j: int| i <= j < units.len() ==> units@[j].deep_view() == before[j],
            started@ == present(starts.take(i as int)),
            failed@ == present(errors.take(i as int)),
        decreases units.len() - i,
    {
        let outcome = find_outcome(outcomes, units[i].entity);
        let event = record_spawn(&mut units[i], outcome);
        proof {
            lemma_present_step(starts, i as int);
            lemma_present_step(errors, i as int);
        }
        match event {
            Some(Ok(start)) => {
                started.push(start);
            },
            Some(Err(error)) => {
                failed.push(error);
            },
            None => {},
        }
        i = i + 1;
    }
    proof {
        assert(starts.take(units.len() as int) =~= starts);
        assert(errors.take(units.len() as int) =~= errors);
        assert(units.deep_view() =~= before.map_values(
            |u: UnitView| after_spawn(u, outcome_for(outcomes@, u.entity)),
        ));
        if units_wf(before) {
            lemma_map_keeps_wf(
                before,
                |u: UnitView| after_spawn(u, outcome_for(outcomes@, u.entity)),
            );
        }
    }
    (started, failed)
}

/// The unit `entity` exists and has a live process.
pub open spec fn has_process(units: Seq<UnitView>, entity: u64) -> bool {
    exists|i: int| 0 <= i < units.len() && #[trigger] units[i].entity == entity && units[i].process is Some
}

/// What is announced of one drained buffer: its text, if there is any and
/// the unit has a live process.
pub open spec fn output_event(units: Seq<UnitView>, drained: ProcessOutputView) -> Option<
    ProcessOutputView,
> {
    if drained.output.len() > 0 && has_process(units, drained.entity) {
        Some(drained)
    } else {
        None
    }
}

/// What is announced of the drained buffers, in their order.
pub open spec fn output_events(units: Seq<UnitView>, drained: Seq<ProcessOutputView>) -> Seq<
    ProcessOutputView,
> {
    present(drained.map_values(|d: ProcessOutputView| output_event(units, d)))
}

/// Whether the unit `entity` exists and has a live process.
pub fn is_live(units: &Vec<Unit>, entity: u64) -> (r: bool)
    ensures
        r == has_process(units.deep_view(), entity),
{
    let mut i: usize = 0;
    while i < units.len()
        invariant
            i <= units.len(),
            forall|j: int|
                0 <= j < i ==> !(units.deep_view()[j].entity == entity && units.deep_view()[j].process is Some),
        decreases units.len() - i,
    {
        if units[i].entity == entity && units[i].process.is_some() {
            assert(units.deep_view()[i as int].entity == entity);
            return true;
        }
        i = i + 1;
    }
    false
}

/// Turns what the host drained from the output buffers into announcements.
///
/// `drained` holds, for each buffer that the host emptied, the unit and the
/// text. The announcements keep the order of `drained`: a buffer that was
/// empty is passed over, and so is one whose unit has no live process.
pub fn handle_process_output(units: &Vec<Unit>, drained: Vec<ProcessOutput>) -> (events: Vec<
    ProcessOutput,
>)
    ensures
        events.deep_view() == output_events(units.deep_view(), drained.deep_view()),
{
    let ghost items = drained@;
    let ghost all = drained.deep_view().map_values(
        |d: ProcessOutputView| output_event(units.deep_view(), d),
    );
    let mut events: Vec<ProcessOutput> = Vec::new();
    for item in it: drained
        invariant
            it.seq() == items,
            all.len() == items.len(),
            forall|j: int| 0 <= j < items.len() ==> all[j] == output_event(units.deep_view(), items[j]@),
            events.deep_view() == present(all.take(it.index() as int)),
    {
        proof {
            lemma_present_step(all, it.index() as int);
        }
        if !item.is_empty() && is_live(units, item.entity()) {
            events.push(item);
        }
    }
    assert(all.take(items.len() as int) =~= all);
    events
}

/// Checks one unit for the end of its command. The result is the completion
/// to announce, if the command has reached a terminal state.
pub fn check_completion(unit: &mut Unit, exit: Option<ExitStatus>) -> (event: Option<
    ProcessCompleted,
>)
    ensures
        final(unit).deep_view() == after_completion(old(unit).deep_view(), exit),
        event == completed_event(old(unit).deep_view(), exit),
{
    match unit.state {
        // Retries have had their turn: what is still in `Error` has failed for good.
        ProcessState::Error => {
            unit.state = ProcessState::Done(ProcessDone::Failed);
            match unit.exit_status {
                Some(status) => Some(ProcessCompleted { entity: unit.entity, exit_status: status }),
                None => None,
            }
        },
        ProcessState::Running => match exit {
            Some(status) => {
                let next = status.next_state();
                unit.state = next;
                unit.process = None;
                unit.exit_status = Some(status);
                match next {
                    ProcessState::Done(_) => Some(
                        ProcessCompleted { entity: unit.entity, exit_status: status },
                    ),
                    // The next tick turns `Error` into `Done(Failed)` if no retry steps in.
                    _ => None,
                }
            },
            None => None,
        },
        _ => None,
    }
}

/// Periodically check if any of the processes have finished.
///
/// `exits` holds the units whose process the host saw end, each with the
/// exit status collected from it. For the commands that reach a terminal
/// state a [`ProcessCompleted`] event is produced, in the order of the units.
pub fn handle_completed_process(units: &mut Vec<Unit>, exits: &Vec<ProcessExit>) -> (events: Vec<
    ProcessCompleted,
>)
    ensures
        final(units).deep_view() == completed(old(units).deep_view(), exits@),
        events@ == completed_events(old(units).deep_view(), exits@),
        units_wf(old(units).deep_view()) ==> units_wf(final(units).deep_view()),
{
    let ghost before = units.deep_view();
    let ghost all = before.map_values(
        |u: UnitView| completed_event(u, exit_for(exits@, u.entity)),
    );
    let mut events: Vec<ProcessCompleted> = Vec::new();
    let mut i: usize = 0;
    while i < units.len()
        invariant
            i <= units.len(),
            units.len() == before.len(),
            all == before.map_values(|u: UnitView| completed_event(u, exit_for(exits@, u.entity))),
            forall|j: int|
                0 <= j < i ==> units@[j].deep_view() == after_completion(
                    before[j],
                    exit_for(exits@, before[j].entity),
                ),
            forall|j: int| i <= j < units.len() ==> units@[j].deep_view() == before[j],
            events@ == present(all.take(i as int)),
        decreases units.len() - i,
    {
        let exit = find_exit(exits, units[i].entity);
        let event = check_completion(&mut units[i], exit);
        proof {
            lemma_present_step(all, i as int);
        }
        match event {
            Some(completed) => {
                events.push(completed);
            },
            None => {},
        }
        i = i + 1;
    }
    proof {
        assert(all.take(units.len() as int) =~= all);
        assert(units.deep_view() =~= before.map_values(
            |u: UnitView| after_completion(u, exit_for(exits@, u.entity)),
        ));
        if units_wf(before) {
            lemma_map_keeps_wf(
                before,
                |u: UnitView| after_completion(u, exit_for(exits@, u.entity)),
            );
        }
    }
    events
}

} // verus!
