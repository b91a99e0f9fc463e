//! Chains: the commands run in order, and the first failure ends the chain.

use crate::laws::model::Report;
use crate::laws::model::run;
use crate::laws::model::Trace;
use crate::local_command::LocalCommandView;
use crate::process::Pid;
use crate::process::ProcessDone;
use crate::process::ProcessState;
use crate::systems::awaits_spawn;
use crate::unit::UnitView;
use vstd::prelude::*;

verus! {

/// Every process that the host is asked to start does start, and every
/// process that ends exits with code 0.
pub open spec fn every_run_succeeds(reports: Seq<Report>) -> bool {
    forall|i: int|
        0 <= i < reports.len() ==> {
            &&& (#[trigger] reports[i]).outcome != Some(None::<Pid>)
            &&& reports[i].exit is Some ==> reports[i].exit->0.code == Some(0i32)
        }
}

/// Every process that the host is asked to start does start, and no process
/// that ends exits with code 0.
pub open spec fn no_run_succeeds(reports: Seq<Report>) -> bool {
    forall|i: int|
        0 <= i < reports.len() ==> {
            &&& (#[trigger] reports[i]).outcome != Some(None::<Pid>)
            &&& reports[i].exit is Some ==> reports[i].exit->0.code != Some(0i32)
        }
}

/// The commands of a unit for which a process is still to be started if
/// every run succeeds: the active one while it waits for its start, then
/// those of the chain.
pub open spec fn waiting(unit: Option<UnitView>) -> Seq<LocalCommandView> {
    match unit {
        None => Seq::empty(),
        Some(u) => {
            let active = if awaits_spawn(u) {
                seq![u.command->0]
            } else {
                Seq::empty()
            };
            match u.chain {
                Some(queue) => active + queue,
                None => active,
            }
        },
    }
}

/// The chain of the unit is over: it has left the unit, or the unit is gone.
pub open spec fn chain_over(unit: Option<UnitView>) -> bool {
    match unit {
        None => true,
        Some(u) => u.chain is None,
    }
}

/// What holds all along the run of a chain whose every run succeeds.
pub open spec fn chain_success_account(t: Trace, specs: Seq<LocalCommandView>) -> bool {
    &&& t.started + waiting(t.unit) == specs
    &&& t.chain_ends == if chain_over(t.unit) {
        seq![true]
    } else {
        Seq::empty()
    }
    &&& match t.unit {
        Some(x) => {
            &&& x.wf()
            &&& x.chain is Some ==> x.state == ProcessState::Pending || x.state
                == ProcessState::Running
            &&& x.chain is None ==> x.command is None && x.state == ProcessState::Done(
                ProcessDone::Succeeded,
            )
        },
        None => true,
    }
}

proof fn lemma_chain_success_account(u: UnitView, specs: Seq<LocalCommandView>, reports: Seq<Report>)
    requires
        u.wf(),
        u.fresh(),
        u.command is None,
        u.chain == Some(specs),
        every_run_succeeds(reports),
    ensures
        chain_success_account(run(u, reports), specs),
    decreases reports.len(),
{
    if reports.len() > 0 {
        let earlier = reports.drop_last();
        assert forall|i: int| 0 <= i < earlier.len() implies {
            &&& (#[trigger] earlier[i]).outcome != Some(None::<Pid>)
            &&& earlier[i].exit is Some ==> earlier[i].exit->0.code == Some(0i32)
        } by {
            assert(earlier[i] == reports[i]);
        }
        lemma_chain_success_account(u, specs, earlier);
        let r = reports.last();
        let before = run(u, earlier);
        let after = run(u, reports);
        match before.unit {
            Some(x) => {
                if x.chain is Some {
                    let queue = x.chain->0;
                    if queue.len() > 0 {
                        assert(queue =~= seq![queue[0]] + queue.skip(1));
                    }
                    assert(after.started + waiting(after.unit) =~= before.started + waiting(
                        before.unit,
                    ));
                } else {
                    assert(after.started + waiting(after.unit) =~= before.started + waiting(
                        before.unit,
                    ));
                }
            },
            None => {},
        }
    } else {
        assert(run(u, reports).started + waiting(run(u, reports).unit) =~= specs);
    }
}

/// A chain whose every run succeeds has a process started for each of its
/// commands, in order, and for nothing else; when the last of them has
/// succeeded the end of the chain is announced once, as a success.
///
/// At every point of the run the commands started and those still waiting
/// make up the chain; the end is announced exactly when the chain is over,
/// and then every command has been started.
pub proof fn law_chain_runs_in_order(u: UnitView, specs: Seq<LocalCommandView>, reports: Seq<Report>)
    requires
        u.wf(),
        u.fresh(),
        u.command is None,
        u.chain == Some(specs),
        every_run_succeeds(reports),
    ensures
        run(u, reports).started + waiting(run(u, reports).unit) == specs,
        chain_over(run(u, reports).unit) ==> run(u, reports).started == specs && run(
            u,
            reports,
        ).chain_ends == seq![true],
        !chain_over(run(u, reports).unit) ==> run(u, reports).chain_ends == Seq::<bool>::empty(),
{
    lemma_chain_success_account(u, specs, reports);
    let t = run(u, reports);
    if chain_over(t.unit) {
        assert(waiting(t.unit) =~= Seq::empty());
    }
}

/// What holds all along the run of a chain whose first run fails.
pub open spec fn chain_failure_account(t: Trace, specs: Seq<LocalCommandView>) -> bool {
    match t.unit {
        Some(x) => {
            &&& x.wf()
            &&& x.retry is None
            &&& if x.chain is Some {
                &&& t.chain_ends =~= Seq::<bool>::empty()
                &&& if t.started.len() == 0 {
                    &&& x.state == ProcessState::Pending
                    &&& x.command is None ==> x.chain == Some(specs)
                    &&& x.command is Some ==> x.command == Some(specs[0])
                } else {
                    &&& t.started =~= seq![specs[0]]
                    &&& x.state == ProcessState::Running || x.state == ProcessState::Error
                }
            } else {
                &&& t.chain_ends =~= seq![false]
                &&& t.started =~= seq![specs[0]]
                &&& x.command is None
                &&& x.state is Done
                &&& x.state != ProcessState::Done(ProcessDone::Succeeded)
            }
        },
        None => t.chain_ends =~= seq![false] && t.started =~= seq![specs[0]],
    }
}

proof fn lemma_chain_failure_account(u: UnitView, specs: Seq<LocalCommandView>, reports: Seq<Report>)
    requires
        u.wf(),
        u.fresh(),
        u.command is None,
        u.retry is None,
        u.chain == Some(specs),
        specs.len() > 0,
        no_run_succeeds(reports),
    ensures
        chain_failure_account(run(u, reports), specs),
    decreases reports.len(),
{
    if reports.len() > 0 {
        let earlier = reports.drop_last();
        assert forall|i: int| 0 <= i < earlier.len() implies {
            &&& (#[trigger] earlier[i]).outcome != Some(None::<Pid>)
            &&& earlier[i].exit is Some ==> earlier[i].exit->0.code != Some(0i32)
        } by {
            assert(earlier[i] == reports[i]);
        }
        lemma_chain_failure_account(u, specs, earlier);
    }
}

/// A chain whose first command fails, with no retry to take it up, has one
/// process started, for that command, and no other: the rest of the chain
/// never runs, and the end of the chain is announced once, as a failure.
pub proof fn law_chain_stops_at_failure(u: UnitView, specs: Seq<LocalCommandView>, reports: Seq<Report>)
    requires
        u.wf(),
        u.fresh(),
        u.command is None,
        u.retry is None,
        u.chain == Some(specs),
        specs.len() > 0,
        no_run_succeeds(reports),
    ensures
        run(u, reports).started.len() <= 1,
        run(u, reports).started.len() == 1 ==> run(u, reports).started[0] == specs[0],
        chain_over(run(u, reports).unit) ==> run(u, reports).started == seq![specs[0]] && run(
            u,
            reports,
        ).chain_ends == seq![false],
        !chain_over(run(u, reports).unit) ==> run(u, reports).chain_ends == Seq::<bool>::empty(),
{
    lemma_chain_failure_account(u, specs, reports);
}

/// The host answers at once and every run succeeds at once: in each tick
/// the process that is asked for starts, and the process that runs exits
/// with code 0.
pub open spec fn every_run_succeeds_at_once(reports: Seq<Report>) -> bool {
    forall|i: int|
        0 <= i < reports.len() ==> {
            &&& (#[trigger] reports[i]).outcome is Some
            &&& reports[i].outcome->0 is Some
            &&& reports[i].exit is Some
            &&& reports[i].exit->0.code == Some(0i32)
        }
}

/// The host answers at once and no run succeeds: in each tick the process
/// that is asked for starts, and the process that runs ends at once, not
/// with code 0.
pub open spec fn no_run_succeeds_at_once(reports: Seq<Report>) -> bool {
    forall|i: int|
        0 <= i < reports.len() ==> {
            &&& (#[trigger] reports[i]).outcome is Some
            &&& reports[i].outcome->0 is Some
            &&& reports[i].exit is Some
            &&& reports[i].exit->0.code != Some(0i32)
        }
}

/// With runs that succeed at once a chain takes up one command in each
/// tick: after `k` ticks its `k`-th command is waiting for its start.
proof fn lemma_chain_round(u: UnitView, specs: Seq<LocalCommandView>, reports: Seq<Report>, k: int)
    requires
        u.wf(),
        u.fresh(),
        u.command is None,
        u.delay is None,
        u.chain == Some(specs),
        every_run_succeeds_at_once(reports),
        1 <= k <= specs.len(),
        k <= reports.len(),
    ensures
        run(u, reports.take(k)).unit == Some(
            UnitView { command: Some(specs[k - 1]), chain: Some(specs.skip(k)), ..u },
        ),
        run(u, reports.take(k)).started == specs.take(k - 1),
        run(u, reports.take(k)).chain_ends == Seq::<bool>::empty(),
    decreases k,
{
    assert(reports.take(k).drop_last() =~= reports.take(k - 1));
    assert(reports.take(k).last() == reports[k - 1]);
    if k > 1 {
        lemma_chain_round(u, specs, reports, k - 1);
        assert(specs.skip(k - 1).skip(1) =~= specs.skip(k));
        assert(specs.take(k - 2).push(specs[k - 2]) =~= specs.take(k - 1));
    } else {
        assert(reports.take(0) =~= Seq::empty());
        assert(specs.take(0) =~= Seq::empty());
    }
}

/// With a host that answers at once, a chain of `k` commands whose every
/// run succeeds at once is over after `k + 1` ticks: a process was started
/// for each command, in order, the end of the chain was announced once, as
/// a success, and the unit is left in `Done(Succeeded)`.
pub proof fn law_chain_completes(u: UnitView, specs: Seq<LocalCommandView>, reports: Seq<Report>)
    requires
        u.wf(),
        u.fresh(),
        u.command is None,
        u.delay is None,
        u.chain == Some(specs),
        specs.len() > 0,
        every_run_succeeds_at_once(reports),
        reports.len() == specs.len() + 1,
    ensures
        run(u, reports).started == specs,
        run(u, reports).chain_ends == seq![true],
        run(u, reports).unit is Some,
        run(u, reports).unit->0.chain is None,
        run(u, reports).unit->0.state == ProcessState::Done(ProcessDone::Succeeded),
{
    let k = specs.len() as int;
    lemma_chain_round(u, specs, reports, k);
    assert(reports.drop_last() =~= reports.take(k));
    assert(reports.last() == reports[k]);
    assert(specs.skip(k) =~= Seq::empty());
    assert(specs.take(k - 1).push(specs[k - 1]) =~= specs);
}

/// With a host that answers at once, a chain whose first run does not
/// succeed is over after three ticks: one process was started, for the
/// first command, and the end of the chain was announced once, as a failure.
pub proof fn law_chain_failure_settles(
    u: UnitView,
    specs: Seq<LocalCommandView>,
    reports: Seq<Report>,
)
    requires
        u.wf(),
        u.fresh(),
        u.command is None,
        u.delay is None,
        u.retry is None,
        u.chain == Some(specs),
        specs.len() > 0,
        no_run_succeeds_at_once(reports),
        reports.len() == 3,
    ensures
        chain_over(run(u, reports).unit),
        run(u, reports).started == seq![specs[0]],
        run(u, reports).chain_ends == seq![false],
{
    assert(no_run_succeeds(reports));
    law_chain_stops_at_failure(u, specs, reports);
    let first = reports.take(1);
    let second = reports.take(2);
    assert(first.drop_last() =~= Seq::<Report>::empty());
    assert(first.last() == reports[0]);
    assert(second.drop_last() =~= first);
    assert(second.last() == reports[1]);
    assert(reports.drop_last() =~= second);
    assert(reports.last() == reports[2]);
    let none = run(u, Seq::<Report>::empty());
    assert(none.unit == Some(u) && none.started.len() == 0);
    let one = run(u, first);
    assert(one.unit == Some(
        UnitView { command: Some(specs[0]), chain: Some(specs.skip(1)), ..u },
    ));
    let two = run(u, second);
    assert(chain_over(two.unit) || (two.unit is Some && two.unit->0.state == ProcessState::Error
        && two.unit->0.command is Some));
}

} // verus!
