//! Delayed start.

use crate::countdown::Countdown;
use crate::process::ProcessState;
use crate::unit::lemma_map_keeps_wf;
use crate::unit::Unit;
use crate::unit::units_wf;
use crate::unit::UnitView;
use vstd::prelude::*;

verus! {

/// Withholds the start of a unit's command for a while.
#[derive(Debug, Clone, Copy, PartialEq, Eq, Structural)]
pub enum Delay {
    /// A fixed time, in nanoseconds.
    Fixed(u64),
}

impl Delay {
    pub open spec fn spec_duration(self) -> u64 {
        match self {
            Delay::Fixed(nanos) => nanos,
        }
    }

    /// The time to wait, in nanoseconds.
    #[verifier::when_used_as_spec(spec_duration)]
    pub fn duration(self) -> (r: u64)
        ensures
            r == self.spec_duration(),
    {
        match self {
            Delay::Fixed(nanos) => nanos,
        }
    }
}

/// The unit's delay is to be armed: its command waits to be started, no
/// countdown runs for it, and a delay policy is attached.
pub open spec fn delay_due(u: UnitView) -> bool {
    &&& u.state == ProcessState::Pending
    &&& u.command is Some
    &&& u.process is None
    &&& u.timer is None
    &&& u.delay is Some
}

/// A unit after the delay step: where the delay is due, a fresh countdown
/// over the policy's time withholds the start.
pub open spec fn delay_applied(u: UnitView) -> UnitView {
    if delay_due(u) {
        UnitView { timer: Some(Countdown::spec_new(u.delay->0.spec_duration())), ..u }
    } else {
        u
    }
}

/// The units after the delay step.
pub open spec fn delayed(units: Seq<UnitView>) -> Seq<UnitView> {
    units.map_values(|u: UnitView| delay_applied(u))
}

/// Arms the delay of one unit, if it is due.
pub fn arm_delay(unit: &mut Unit)
    ensures
        final(unit).deep_view() == delay_applied(old(unit).deep_view()),
{
    if unit.state == ProcessState::Pending && unit.command.is_some() && unit.process.is_none()
        && unit.timer.is_none() {
        match unit.delay {
            Some(delay) => {
                unit.timer = Some(Countdown::new(delay.duration()));
            },
            None => {},
        }
    }
}

/// Apply delay settings to the units with a command and a delay policy
/// that have yet to be processed.
///
/// The command has to be `Pending` for the delay to be applied. This step
/// runs before [`handle_new_command`](crate::systems::handle_new_command).
pub fn apply_delay(units: &mut Vec<Unit>)
    ensures
        final(units).deep_view() == delayed(old(units).deep_view()),
        units_wf(old(units).deep_view()) ==> units_wf(final(units).deep_view()),
{
    let ghost before = units.deep_view();
    let mut i: usize = 0;
    while i < units.len()
        invariant
            i <= units.len(),
            units.len() == before.len(),
            forall|j: int| 0 <= j < i ==> units@[j].deep_view() == delay_applied(before[j]),
            forall|j: int| i <= j < units.len() ==> units@[j].deep_view() == before[j],
        decreases units.len() - i,
    {
        arm_delay(&mut units[i]);
        i = i + 1;
    }
    proof {
        if units_wf(before) {
            lemma_map_keeps_wf(before, |u: UnitView| delay_applied(u));
        }
    }
}

} // verus!
