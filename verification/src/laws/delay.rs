//! Delays: no process starts before the time has passed, and it starts
//! when the time has passed.

use crate::addons::delay::Delay;
use crate::countdown::Countdown;
use crate::laws::model::Report;
use crate::laws::model::run;
use crate::laws::model::started_in_tick;
use crate::laws::model::time_passed;
use crate::laws::model::Trace;
use crate::unit::UnitView;
use vstd::prelude::*;

verus! {

/// A process is started only when the countdown of the delay has run its
/// whole time: a unit with a delay policy for which a tick starts a process
/// came into the tick with a finished countdown over the policy's time.
pub proof fn law_start_needs_finished_countdown(u: UnitView, r: Report)
    requires
        u.wf(),
        u.delay is Some,
        started_in_tick(u, r) is Some,
    ensures
        u.timer is Some,
        u.timer->0.finished,
        u.timer->0.elapsed == u.delay->0.spec_duration(),
{
}

/// What holds of a delayed unit all along a run: its countdown has counted
/// no more than the time that has passed.
pub open spec fn delay_respected(t: Trace, d: u64, passed: nat) -> bool {
    t.unit matches Some(x) ==> {
        &&& x.wf()
        &&& x.delay == Some(Delay::Fixed(d))
        &&& x.timer is Some ==> x.timer->0.elapsed <= passed
    }
}

proof fn lemma_delay_respected(u: UnitView, d: u64, reports: Seq<Report>)
    requires
        u.wf(),
        u.fresh(),
        u.delay == Some(Delay::Fixed(d)),
    ensures
        delay_respected(run(u, reports), d, time_passed(reports)),
    decreases reports.len(),
{
    if reports.len() > 0 {
        lemma_delay_respected(u, d, reports.drop_last());
    }
}

/// A unit with a delay policy never starts its process before the time
/// of the policy has passed: if the last tick of a run starts a process,
/// the ticks before it have taken at least that time.
pub proof fn law_delay_withholds_start(u: UnitView, d: u64, reports: Seq<Report>)
    requires
        u.wf(),
        u.fresh(),
        u.delay == Some(Delay::Fixed(d)),
        reports.len() > 0,
        run(u, reports).started.len() > run(u, reports.drop_last()).started.len(),
    ensures
        time_passed(reports.drop_last()) >= d,
{
    lemma_delay_respected(u, d, reports.drop_last());
    let before = run(u, reports.drop_last());
    law_start_needs_finished_countdown(before.unit->0, reports.last());
}

/// The host starts every process that it is asked for.
pub open spec fn every_start_succeeds(reports: Seq<Report>) -> bool {
    forall|i: int|
        0 <= i < reports.len() ==> (#[trigger] reports[i]).outcome is Some
            && reports[i].outcome->0 is Some
}

/// The countdown of a delay over `d` nanoseconds after `passed` nanoseconds.
pub open spec fn counted(d: u64, passed: nat) -> Countdown {
    if passed >= d {
        Countdown { duration: d, elapsed: d, finished: true }
    } else {
        Countdown { duration: d, elapsed: passed as u64, finished: false }
    }
}

/// Until its process is started, a delayed unit only counts down: after at
/// least one tick its countdown shows the time that has passed.
proof fn lemma_delay_counts(u: UnitView, d: u64, reports: Seq<Report>)
    requires
        u.wf(),
        u.fresh(),
        u.command is Some,
        u.delay == Some(Delay::Fixed(d)),
        every_start_succeeds(reports),
        reports.len() > 0,
    ensures
        run(u, reports).started.len() > 0 || run(u, reports).unit == Some(
            UnitView { timer: Some(counted(d, time_passed(reports))), ..u },
        ),
    decreases reports.len(),
{
    let earlier = reports.drop_last();
    if earlier.len() > 0 {
        assert forall|i: int| 0 <= i < earlier.len() implies (#[trigger] earlier[i]).outcome is Some
            && earlier[i].outcome->0 is Some by {
            assert(earlier[i] == reports[i]);
        }
        lemma_delay_counts(u, d, earlier);
    } else {
        let none = run(u, earlier);
        assert(none.unit == Some(u) && none.started.len() == 0);
        assert(time_passed(earlier) == 0);
    }
}

/// A delay ends: with a host that starts what it is asked for, a delayed
/// unit has its process started in the first tick that follows ticks which
/// took the time of the delay, if not before.
pub proof fn law_delay_ends(u: UnitView, d: u64, reports: Seq<Report>)
    requires
        u.wf(),
        u.fresh(),
        u.command is Some,
        u.delay == Some(Delay::Fixed(d)),
        every_start_succeeds(reports),
        reports.len() >= 2,
        time_passed(reports.drop_last()) >= d,
    ensures
        run(u, reports).started.len() > 0,
{
    let earlier = reports.drop_last();
    assert forall|i: int| 0 <= i < earlier.len() implies (#[trigger] earlier[i]).outcome is Some
        && earlier[i].outcome->0 is Some by {
        assert(earlier[i] == reports[i]);
    }
    lemma_delay_counts(u, d, earlier);
    assert(reports.last() == reports[reports.len() - 1]);
}

} // verus!
