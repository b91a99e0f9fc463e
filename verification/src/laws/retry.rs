//! Retries: how many processes a failing unit gets, and where it settles.

use crate::addons::cleanup::Cleanup;
use crate::addons::retry::Retry;
use crate::laws::model::Report;
use crate::laws::model::run;
use crate::laws::model::Trace;
use crate::local_command::LocalCommandView;
use crate::process::Pid;
use crate::process::ProcessDone;
use crate::process::ProcessState;
use crate::unit::UnitView;
use vstd::prelude::*;

verus! {

/// Every process that the host is asked to start does start, and every
/// process that ends exits with a nonzero code.
pub open spec fn every_run_fails(reports: Seq<Report>) -> bool {
    forall|i: int|
        0 <= i < reports.len() ==> {
            &&& (#[trigger] reports[i]).outcome != Some(None::<Pid>)
            &&& reports[i].exit is Some ==> reports[i].exit->0.code is Some
                && reports[i].exit->0.code != Some(0i32)
        }
}

/// The attempts that a retry policy still grants.
pub open spec fn retries_left(u: UnitView) -> nat {
    match u.retry {
        Some(retry) => retry.spec_attempts() as nat,
        None => 0,
    }
}

/// The processes that are still to be started for a unit whose every run
/// fails: one for a command that waits for its start, and one for each
/// attempt that its retry policy still grants.
pub open spec fn attempts_ahead(unit: Option<UnitView>) -> nat {
    match unit {
        None => 0,
        Some(u) => match u.state {
            ProcessState::Pending => if u.command is Some {
                1 + retries_left(u)
            } else {
                0
            },
            ProcessState::Running => retries_left(u),
            ProcessState::Error => retries_left(u),
            ProcessState::Done(_) => 0,
        },
    }
}

/// What holds all along the run of a unit with `n` retries whose every run
/// fails.
pub open spec fn retry_account(t: Trace, command: LocalCommandView, n: usize) -> bool {
    &&& t.started.len() + attempts_ahead(t.unit) == n + 1
    &&& forall|i: int| 0 <= i < t.started.len() ==> t.started[i] == command
    &&& forall|i: int| 0 <= i < t.retries.len() ==> t.retries[i] == n - 1 - i
    &&& match t.unit {
        Some(x) => {
            &&& x.wf()
            &&& x.chain is None
            &&& x.command is Some ==> x.command == Some(command)
            &&& x.state == ProcessState::Pending ==> x.command is Some
            &&& x.state == ProcessState::Error ==> x.exit_status is Some && x.retry is None
            &&& x.state is Done ==> x.state == ProcessState::Done(ProcessDone::Failed)
                && x.retry is None
            &&& x.retry is Some ==> t.retries.len() + retries_left(x) == n
            &&& x.retry is None ==> t.retries.len() == n
        },
        None => t.retries.len() == n,
    }
}

proof fn lemma_retry_account(u: UnitView, n: usize, reports: Seq<Report>)
    requires
        u.wf(),
        u.fresh(),
        u.command is Some,
        u.chain is None,
        u.retry == Some(Retry::Attempts(n)),
        every_run_fails(reports),
    ensures
        retry_account(run(u, reports), u.command->0, n),
    decreases reports.len(),
{
    if reports.len() > 0 {
        let earlier = reports.drop_last();
        assert forall|i: int| 0 <= i < earlier.len() implies {
            &&& (#[trigger] earlier[i]).outcome != Some(None::<Pid>)
            &&& earlier[i].exit is Some ==> earlier[i].exit->0.code is Some
                && earlier[i].exit->0.code != Some(0i32)
        } by {
            assert(earlier[i] == reports[i]);
        }
        lemma_retry_account(u, n, earlier);
    }
}

/// A unit with `n` retries whose every run fails has exactly `n + 1`
/// processes started for it, each for the same command, and then settles
/// in `Done(Failed)` without retry policy. The retries are announced with
/// `n - 1`, `n - 2`, and so on down to 0 attempts left.
///
/// At every point of the run the processes started and those still ahead
/// make `n + 1`; once the command is `Done`, or the unit is removed, none
/// is ahead.
pub proof fn law_retry_bounds_attempts(u: UnitView, n: usize, reports: Seq<Report>)
    requires
        u.wf(),
        u.fresh(),
        u.command is Some,
        u.chain is None,
        u.retry == Some(Retry::Attempts(n)),
        every_run_fails(reports),
    ensures
        run(u, reports).started.len() + attempts_ahead(run(u, reports).unit) == n + 1,
        forall|i: int|
            0 <= i < run(u, reports).started.len() ==> run(u, reports).started[i] == u.command->0,
        forall|i: int|
            0 <= i < run(u, reports).retries.len() ==> run(u, reports).retries[i] == n - 1 - i,
        run(u, reports).retries.len() <= n,
        match run(u, reports).unit {
            Some(x) => x.state is Done ==> {
                &&& x.state == ProcessState::Done(ProcessDone::Failed)
                &&& x.retry is None
                &&& run(u, reports).started.len() == n + 1
                &&& run(u, reports).retries.len() == n
            },
            None => run(u, reports).started.len() == n + 1 && run(u, reports).retries.len() == n,
        },
{
    lemma_retry_account(u, n, reports);
}

/// The host answers at once and every run fails at once: in each tick the
/// process that is asked for starts, and the process that runs exits with
/// a nonzero code.
pub open spec fn every_run_fails_at_once(reports: Seq<Report>) -> bool {
    forall|i: int|
        0 <= i < reports.len() ==> {
            &&& (#[trigger] reports[i]).outcome is Some
            &&& reports[i].outcome->0 is Some
            &&& reports[i].exit is Some
            &&& reports[i].exit->0.code is Some
            &&& reports[i].exit->0.code != Some(0i32)
        }
}

/// While attempts are left, a tick in which the run fails at once brings the
/// unit back to where it was, with one attempt less.
proof fn lemma_retry_round(u: UnitView, n: usize, reports: Seq<Report>, k: int)
    requires
        u.wf(),
        u.fresh(),
        u.command is Some,
        u.chain is None,
        u.delay is None,
        u.retry == Some(Retry::Attempts(n)),
        every_run_fails_at_once(reports),
        0 <= k <= n,
        k <= reports.len(),
    ensures
        run(u, reports.take(k)).unit == Some(
            UnitView { retry: Some(Retry::Attempts((n - k) as usize)), ..u },
        ),
        run(u, reports.take(k)).started.len() == k,
    decreases k,
{
    if k > 0 {
        lemma_retry_round(u, n, reports, k - 1);
        assert(reports.take(k).drop_last() =~= reports.take(k - 1));
        assert(reports.take(k).last() == reports[k - 1]);
    } else {
        assert(reports.take(0) =~= Seq::empty());
    }
}

/// With a host that answers at once, a unit with `n` retries whose every
/// run fails at once has settled after `n + 2` ticks: `n + 1` processes
/// were started, and the unit is in `Done(Failed)` without retry policy,
/// or its cleanup policy has removed it.
pub proof fn law_retry_settles(u: UnitView, n: usize, reports: Seq<Report>)
    requires
        u.wf(),
        u.fresh(),
        u.command is Some,
        u.chain is None,
        u.delay is None,
        u.retry == Some(Retry::Attempts(n)),
        every_run_fails_at_once(reports),
        reports.len() == n + 2,
    ensures
        run(u, reports).started.len() == n + 1,
        match run(u, reports).unit {
            Some(x) => x.state == ProcessState::Done(ProcessDone::Failed) && x.retry is None,
            None => u.cleanup == Some(Cleanup::DespawnUnit),
        },
{
    lemma_retry_round(u, n, reports, n as int);
    let last_attempt = reports.take(n + 1);
    assert(last_attempt.drop_last() =~= reports.take(n as int));
    assert(last_attempt.last() == reports[n as int]);
    assert(reports.drop_last() =~= last_attempt);
    assert(reports.last() == reports[n + 1]);
    let failed = run(u, last_attempt);
    assert(failed.unit is Some && failed.unit->0.state == ProcessState::Error);
    assert(failed.unit->0.retry is None);
    assert(failed.unit->0.cleanup == u.cleanup);
}

} // verus!
