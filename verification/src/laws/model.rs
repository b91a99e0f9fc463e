//! The life of one unit, tick by tick.
//!
//! The steps of a tick treat every unit by itself, so the life of one unit
//! can be followed alone: [`unit_tick`] is what a tick does to a unit, given
//! what the host reports for it, and [`run`] follows a unit through a
//! sequence of ticks.

use crate::addons::chain::after_chain;
use crate::addons::chain::chain_event;
use crate::addons::cleanup::after_cleanup;
use crate::addons::cleanup::Cleanup;
use crate::addons::cleanup::despawns;
use crate::addons::delay::delay_applied;
use crate::addons::retry::after_retry;
use crate::addons::retry::retry_event;
use crate::local_command::LocalCommandView;
use crate::process::ExitStatus;
use crate::process::Pid;
use crate::process::ProcessDone;
use crate::process::ProcessState;
use crate::systems::after_completion;
use crate::systems::after_new_command;
use crate::systems::after_spawn;
use crate::systems::started_event;
use crate::unit::UnitView;
use vstd::prelude::*;

verus! {

/// What the host reports for one unit in one tick.
pub struct Report {
    /// The nanoseconds since the previous tick.
    pub delta: u64,
    /// What became of the start of the unit's process, if the host answers
    /// a request for it.
    pub outcome: Option<Option<Pid>>,
    /// The exit status of the unit's process, if the host saw it end.
    pub exit: Option<ExitStatus>,
}

/// A unit when the host has answered the requests of a tick.
pub open spec fn at_start(u: UnitView, r: Report) -> UnitView {
    after_new_command(delay_applied(u), r.delta)
}

/// A unit after the completion check of a tick.
pub open spec fn at_check(u: UnitView, r: Report) -> UnitView {
    after_completion(after_spawn(at_start(u, r), r.outcome), r.exit)
}

/// A unit after a whole tick, or `None` if the tick removes it.
pub open spec fn unit_tick(u: UnitView, r: Report) -> Option<UnitView> {
    if despawns(at_check(u, r)) {
        None
    } else {
        Some(after_chain(after_retry(after_cleanup(at_check(u, r)))))
    }
}

/// The command for which the tick starts a process, if it starts one.
pub open spec fn started_in_tick(u: UnitView, r: Report) -> Option<LocalCommandView> {
    if started_event(at_start(u, r), r.outcome) is Some {
        at_start(u, r).command
    } else {
        None
    }
}

/// The attempts left that the tick announces with a retry, if it retries.
pub open spec fn retried_in_tick(u: UnitView, r: Report) -> Option<usize> {
    if despawns(at_check(u, r)) {
        None
    } else {
        match retry_event(after_cleanup(at_check(u, r))) {
            Some(event) => Some(event.retries_left),
            None => None,
        }
    }
}

/// The success flag with which the tick announces the end of the unit's
/// chain, if it announces one.
pub open spec fn chain_ended_in_tick(u: UnitView, r: Report) -> Option<bool> {
    if despawns(at_check(u, r)) {
        None
    } else {
        match chain_event(after_retry(after_cleanup(at_check(u, r)))) {
            Some(event) => Some(event.success),
            None => None,
        }
    }
}

/// What a run of ticks made of one unit.
pub struct Trace {
    /// The unit at the end, or `None` if it was removed.
    pub unit: Option<UnitView>,
    /// The commands for which a process was started, in order.
    pub started: Seq<LocalCommandView>,
    /// The attempts left that were announced with the retries, in order.
    pub retries: Seq<usize>,
    /// The success flags with which the end of the chain was announced, in
    /// order.
    pub chain_ends: Seq<bool>,
}

/// `s` with `x` at its end, if `x` is there.
pub open spec fn with<T>(s: Seq<T>, x: Option<T>) -> Seq<T> {
    match x {
        Some(v) => s.push(v),
        None => s,
    }
}

/// The run of the unit `u` through one tick for each report.
pub open spec fn run(u: UnitView, reports: Seq<Report>) -> Trace
    decreases reports.len(),
{
    if reports.len() == 0 {
        Trace { unit: Some(u), started: Seq::empty(), retries: Seq::empty(), chain_ends: Seq::empty() }
    } else {
        let before = run(u, reports.drop_last());
        match before.unit {
            Some(x) => Trace {
                unit: unit_tick(x, reports.last()),
                started: with(before.started, started_in_tick(x, reports.last())),
                retries: with(before.retries, retried_in_tick(x, reports.last())),
                chain_ends: with(before.chain_ends, chain_ended_in_tick(x, reports.last())),
            },
            None => before,
        }
    }
}

/// The time that passes over the ticks of `reports`, in nanoseconds.
pub open spec fn time_passed(reports: Seq<Report>) -> nat
    decreases reports.len(),
{
    if reports.len() == 0 {
        0
    } else {
        time_passed(reports.drop_last()) + reports.last().delta as nat
    }
}

/// Every tick keeps the invariant of a unit: in particular a unit has a
/// live process exactly while it is `Running`, so never more than one.
pub proof fn law_tick_keeps_unit_invariant(u: UnitView, r: Report)
    requires
        u.wf(),
    ensures
        match unit_tick(u, r) {
            Some(v) => v.wf() && v.entity == u.entity && (v.process is Some <==> v.state
                == ProcessState::Running),
            None => true,
        },
{
}

/// `Error` does not last: a unit that comes into a tick in `Error` leaves
/// it in `Done(Failed)`, or is removed by the cleanup that then applies. No
/// process is started for it in that tick.
pub proof fn law_error_is_transient(u: UnitView, r: Report)
    requires
        u.wf(),
        u.state == ProcessState::Error,
    ensures
        match unit_tick(u, r) {
            Some(v) => v.state == ProcessState::Done(ProcessDone::Failed),
            None => u.cleanup == Some(Cleanup::DespawnUnit),
        },
        started_in_tick(u, r) is None,
{
}

/// A command that is `Done` stays as it ended, unless a chain takes the
/// unit further: a tick leaves the state and the exit status of the unit
/// alone, or removes the unit.
pub proof fn law_done_is_terminal(u: UnitView, r: Report)
    requires
        u.wf(),
        u.state is Done,
        u.chain is None,
    ensures
        match unit_tick(u, r) {
            Some(v) => v.state == u.state && v.exit_status == u.exit_status && v.process is None,
            None => u.cleanup == Some(Cleanup::DespawnUnit),
        },
        started_in_tick(u, r) is None,
{
}

} // verus!
