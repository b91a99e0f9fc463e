//! Bounded retry of failed commands.

use crate::events::lemma_present_step;
use crate::events::present;
use crate::process::ProcessState;
use crate::unit::lemma_map_keeps_wf;
use crate::unit::Unit;
use crate::unit::units_wf;
use crate::unit::UnitView;
use vstd::prelude::*;

verus! {

/// Runs a unit's command again when it fails.
#[derive(Debug, Clone, Copy, PartialEq, Eq, Structural)]
pub enum Retry {
    /// The number of attempts that are left.
    Attempts(usize),
}

/// A failed command was sent back to be run again.
#[derive(Debug, Clone, Copy, PartialEq, Eq, Structural)]
pub struct RetryEvent {
    pub entity: u64,
    pub retries_left: usize,
}

impl Retry {
    pub open spec fn spec_attempts(self) -> usize {
        match self {
            Retry::Attempts(n) => n,
        }
    }

    /// The number of attempts that are left.
    #[verifier::when_used_as_spec(spec_attempts)]
    pub fn attempts(self) -> (r: usize)
        ensures
            r == self.spec_attempts(),
    {
        match self {
            Retry::Attempts(n) => n,
        }
    }
}

/// The retry policy has a say: the unit's command is in `Error` after its
/// process ran and ended, and a retry policy is attached.
pub open spec fn retry_due(u: UnitView) -> bool {
    &&& u.state == ProcessState::Error
    &&& u.exit_status is Some
    &&& u.retry is Some
}

/// A unit after the retry step. Where the policy has a say and attempts are
/// left, one is used up: the command, unchanged, is `Pending` again and
/// nothing of the failed run stays. Where none is left, the policy leaves
/// the unit.
pub open spec fn after_retry(u: UnitView) -> UnitView {
    if retry_due(u) {
        let left = u.retry->0.spec_attempts();
        if left < 1 {
            UnitView { retry: None, ..u }
        } else {
            UnitView {
                retry: Some(Retry::Attempts((left - 1) as usize)),
                state: ProcessState::Pending,
                timer: None,
                process: None,
                exit_status: None,
                ..u
            }
        }
    } else {
        u
    }
}

/// The retry that the step announces for a unit, with the attempts that are
/// then left.
pub open spec fn retry_event(u: UnitView) -> Option<RetryEvent> {
    if retry_due(u) && u.retry->0.spec_attempts() >= 1 {
        Some(
            RetryEvent {
                entity: u.entity,
                retries_left: (u.retry->0.spec_attempts() - 1) as usize,
            },
        )
    } else {
        None
    }
}

/// The units after the retry step.
pub open spec fn retried(units: Seq<UnitView>) -> Seq<UnitView> {
    units.map_values(|u: UnitView| after_retry(u))
}

/// What the retry step announces, in the order of the units.
pub open spec fn retry_events(units: Seq<UnitView>) -> Seq<RetryEvent> {
    present(units.map_values(|u: UnitView| retry_event(u)))
}

/// Applies the retry policy to one unit.
pub fn retry_unit(unit: &mut Unit) -> (event: Option<RetryEvent>)
    ensures
        final(unit).deep_view() == after_retry(old(unit).deep_view()),
        event == retry_event(old(unit).deep_view()),
{
    if !(unit.state == ProcessState::Error && unit.exit_status.is_some()) {
        return None;
    }
    match unit.retry {
        Some(Retry::Attempts(retries)) => {
            if retries < 1 {
                unit.retry = None;
                return None;
            }
            // Update the retry attempts

            let retries_left = retries - 1;
            unit.retry = Some(Retry::Attempts(retries_left));
            // Spawn the process once again
            unit.process = None;
            unit.timer = None;
            unit.exit_status = None;
            unit.state = ProcessState::Pending;
            Some(RetryEvent { entity: unit.entity, retries_left })
        },
        None => None,
    }
}

/// Retry failed processes according to the retry policy.
///
/// Units without a retry policy are ignored.
/// The policy is removed from the unit when retries are done.
pub fn retry_failed_process(units: &mut Vec<Unit>) -> (events: Vec<RetryEvent>)
    ensures
        final(units).deep_view() == retried(old(units).deep_view()),
        events@ == retry_events(old(units).deep_view()),
        units_wf(old(units).deep_view()) ==> units_wf(final(units).deep_view()),
{
    let ghost before = units.deep_view();
    let ghost all = before.map_values(|u: UnitView| retry_event(u));
    let mut events: Vec<RetryEvent> = Vec::new();
    let mut i: usize = 0;
    while i < units.len()
        invariant
            i <= units.len(),
            units.len() == before.len(),
            all == before.map_values(|u: UnitView| retry_event(u)),
            forall|j: int| 0 <= j < i ==> units@[j].deep_view() == after_retry(before[j]),
            forall|j: int| i <= j < units.len() ==> units@[j].deep_view() == before[j],
            events@ == present(all.take(i as int)),
        decreases units.len() - i,
    {
        let event = retry_unit(&mut units[i]);
        proof {
            lemma_present_step(all, i as int);
        }
        match event {
            Some(retried) => {
                events.push(retried);
            },
            None => {},
        }
        i = i + 1;
    }
    proof {
        assert(all.take(units.len() as int) =~= all);
        assert(units.deep_view() =~= before.map_values(|u: UnitView| after_retry(u)));
        if units_wf(before) {
            lemma_map_keeps_wf(before, |u: UnitView| after_retry(u));
        }
    }
    events
}

} // verus!
