//! Sequential chains of commands on one unit.

use crate::events::lemma_present_step;
use crate::events::present;
use crate::local_command::LocalCommand;
use crate::local_command::LocalCommandView;
use crate::process::ProcessDone;
use crate::process::ProcessState;
use crate::unit::lemma_map_keeps_wf;
use crate::unit::Unit;
use crate::unit::units_wf;
use crate::unit::UnitView;
use vstd::prelude::*;

verus! {

/// The commands of a unit that wait for their turn, in order. The command
/// that is active is not among them.
#[derive(Debug, Clone, PartialEq, Eq)]
pub struct Chain {
    pub commands: Vec<LocalCommand>,
}

/// A chain has ended: with the success of its last command, or with the
/// first failure.
#[derive(Debug, Clone, Copy, PartialEq, Eq, Structural)]
pub struct ChainCompletedEvent {
    pub entity: u64,
    pub success: bool,
}

impl DeepView for Chain {
    type V = Seq<LocalCommandView>;

    open spec fn deep_view(&self) -> Seq<LocalCommandView> {
        self.commands.deep_view()
    }
}

impl Chain {
    pub fn new(commands: Vec<LocalCommand>) -> (r: Chain)
        ensures
            r.deep_view() == commands.deep_view(),
    {
        Chain { commands }
    }
}

/// The unit takes up the first command of its queue: the command is
/// `Pending`, and nothing of an earlier run stays.
pub open spec fn next_started(u: UnitView) -> UnitView {
    UnitView {
        command: Some(u.chain->0[0]),
        chain: Some(u.chain->0.skip(1)),
        state: ProcessState::Pending,
        timer: None,
        process: None,
        exit_status: None,
        ..u
    }
}

/// The unit gives up its chain and its command. The state and the exit
/// status in which the last command ended stay.
pub open spec fn chain_released(u: UnitView) -> UnitView {
    UnitView { command: None, chain: None, timer: None, process: None, ..u }
}

/// The chain of the unit is to start its next command: none is active yet,
/// or the active one has succeeded, and the queue is not empty.
pub open spec fn chain_continues(u: UnitView) -> bool {
    &&& u.chain is Some
    &&& u.chain->0.len() > 0
    &&& u.command is None || u.state == ProcessState::Done(ProcessDone::Succeeded)
}

/// The chain of the unit has ended: its active command has failed or was
/// killed, or it has succeeded and the queue is empty.
pub open spec fn chain_ends(u: UnitView) -> bool {
    &&& u.chain is Some
    &&& u.command is Some
    &&& u.state is Done
    &&& !chain_continues(u)
}

/// A unit after the chain step.
pub open spec fn after_chain(u: UnitView) -> UnitView {
    if chain_continues(u) {
        next_started(u)
    } else if chain_ends(u) {
        chain_released(u)
    } else {
        u
    }
}

/// The end of a chain that the step announces for a unit: a success where
/// the last command succeeded, a failure otherwise.
pub open spec fn chain_event(u: UnitView) -> Option<ChainCompletedEvent> {
    if chain_ends(u) {
        Some(
            ChainCompletedEvent {
                entity: u.entity,
                success: u.state == ProcessState::Done(ProcessDone::Succeeded),
            },
        )
    } else {
        None
    }
}

/// The units after the chain step.
pub open spec fn chained(units: Seq<UnitView>) -> Seq<UnitView> {
    units.map_values(|u: UnitView| after_chain(u))
}

/// What the chain step announces, in the order of the units.
pub open spec fn chain_events(units: Seq<UnitView>) -> Seq<ChainCompletedEvent> {
    present(units.map_values(|u: UnitView| chain_event(u)))
}

/// Advances the chain of one unit.
pub fn advance_chain(unit: &mut Unit) -> (event: Option<ChainCompletedEvent>)
    ensures
        final(unit).deep_view() == after_chain(old(unit).deep_view()),
        event == chain_event(old(unit).deep_view()),
{
    let mut chain = match unit.chain.take() {
        Some(chain) => chain,
        None => {
            return None;
        },
    };
    let ghost queue = chain.deep_view();
    let idle = unit.command.is_none();
    let succeeded = unit.state == ProcessState::Done(ProcessDone::Succeeded);
    let ended = match unit.state {
        ProcessState::Done(_) => true,
        _ => false,
    };
    if (idle || succeeded) && chain.commands.len() > 0 {
        // If there are more commands in the chain, start the next one
        let local_command = chain.commands.remove(0);
        assert(chain.deep_view() =~= queue.skip(1));
        unit.command = Some(local_command);
        unit.chain = Some(chain);
        unit.state = ProcessState::Pending;
        unit.timer = None;
        unit.process = None;
        unit.exit_status = None;
        None
    } else if !idle && ended {
        // The chain is through, or its command was not successful: the rest is abandoned
        unit.command = None;
        unit.timer = None;
        unit.process = None;
        Some(ChainCompletedEvent { entity: unit.entity, success: succeeded })
    } else {
        unit.chain = Some(chain);
        None
    }
}

/// Advances the chains.
///
/// A chain whose active command has succeeded starts its next command or,
/// with none left, completes with success. A chain whose active command has
/// failed, was killed or could not be started gives up the rest of its
/// queue and completes with failure. A chain without active command starts
/// its first one. This step runs last in a tick.
pub fn chain_execution_system(units: &mut Vec<Unit>) -> (events: Vec<ChainCompletedEvent>)
    ensures
        final(units).deep_view() == chained(old(units).deep_view()),
        events@ == chain_events(old(units).deep_view()),
        units_wf(old(units).deep_view()) ==> units_wf(final(units).deep_view()),
{
    let ghost before = units.deep_view();
    let ghost all = before.map_values(|u: UnitView| chain_event(u));
    let mut events: Vec<ChainCompletedEvent> = Vec::new();
    let mut i: usize = 0;
    while i < units.len()
        invariant
            i <= units.len(),
            units.len() == before.len(),
            all == before.map_values(|u: UnitView| chain_event(u)),
            forall|j: int| 0 <= j < i ==> units@[j].deep_view() == after_chain(before[j]),
            forall|j: int| i <= j < units.len() ==> units@[j].deep_view() == before[j],
            events@ == present(all.take(i as int)),
        decreases units.len() - i,
    {
        let event = advance_chain(&mut units[i]);
        proof {
            lemma_present_step(all, i as int);
        }
        match event {
            Some(completed) => {
                events.push(completed);
            },
            None => {},
        }
        i = i + 1;
    }
    proof {
        assert(all.take(units.len() as int) =~= all);
        assert(units.deep_view() =~= before.map_values(|u: UnitView| after_chain(u)));
        if units_wf(before) {
            lemma_map_keeps_wf(before, |u: UnitView| after_chain(u));
        }
    }
    events
}

} // verus!
