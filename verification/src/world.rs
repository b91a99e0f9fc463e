//! The engine: the owner of all tracked units, the requests it takes and
//! the tick that moves every unit on.

use crate::addons::chain::chain_events;
use crate::addons::chain::chain_execution_system;
use crate::addons::chain::ChainCompletedEvent;
use crate::addons::chain::chained;
use crate::addons::cleanup::cleaned;
use crate::addons::cleanup::cleanup_completed_process;
use crate::addons::cleanup::despawned;
use crate::addons::delay::apply_delay;
use crate::addons::delay::delayed;
use crate::addons::retry::retried;
use crate::addons::retry::retry_events;
use crate::addons::retry::retry_failed_process;
use crate::addons::retry::RetryEvent;
use crate::events::ProcessCompleted;
use crate::events::ProcessError;
use crate::events::ProcessExit;
use crate::events::ProcessStarted;
use crate::events::SpawnOutcome;
use crate::output::ProcessOutput;
use crate::output::ProcessOutputView;
use crate::process::ProcessView;
use crate::systems::commanded;
use crate::systems::completed;
use crate::systems::completed_events;
use crate::systems::error_events;
use crate::systems::handle_completed_process;
use crate::systems::handle_new_command;
use crate::systems::handle_process_output;
use crate::systems::handle_spawn_outcome;
use crate::systems::output_events;
use crate::systems::spawn_requests;
use crate::systems::spawned;
use crate::systems::started_events;
use crate::unit::Unit;
use crate::unit::units_wf;
use crate::unit::UnitView;
use vstd::prelude::*;
use vstd::string::StringSliceAdditionalSpecFns;

verus! {

/// What one tick announces, each kind in the order of the units.
#[derive(Debug, Clone, PartialEq, Eq)]
pub struct Notifications {
    pub started: Vec<ProcessStarted>,
    pub errors: Vec<ProcessError>,
    pub output: Vec<ProcessOutput>,
    pub completed: Vec<ProcessCompleted>,
    /// The units that the cleanup removed.
    pub despawned: Vec<u64>,
    pub retries: Vec<RetryEvent>,
    pub chains: Vec<ChainCompletedEvent>,
}

/// The mathematical content of [`Notifications`].
pub struct NotificationsView {
    pub started: Seq<ProcessStarted>,
    pub errors: Seq<ProcessError>,
    pub output: Seq<ProcessOutputView>,
    pub completed: Seq<ProcessCompleted>,
    pub despawned: Seq<u64>,
    pub retries: Seq<RetryEvent>,
    pub chains: Seq<ChainCompletedEvent>,
}

impl DeepView for Notifications {
    type V = NotificationsView;

    open spec fn deep_view(&self) -> NotificationsView {
        NotificationsView {
            started: self.started@,
            errors: self.errors@,
            output: self.output.deep_view(),
            completed: self.completed@,
            despawned: self.despawned@,
            retries: self.retries@,
            chains: self.chains@,
        }
    }
}

/// The units at the end of the first half of a tick, `delta` nanoseconds
/// after the previous tick: delays are armed, then the starts are decided.
pub open spec fn tick_begun(units: Seq<UnitView>, delta: u64) -> Seq<UnitView> {
    commanded(delayed(units), delta)
}

/// The units at the end of the second half of a tick, in its fixed order:
/// the host's answers on the starts, the completion check, cleanup, retry,
/// and last the chains.
pub open spec fn tick_finished(
    units: Seq<UnitView>,
    outcomes: Seq<SpawnOutcome>,
    exits: Seq<ProcessExit>,
) -> Seq<UnitView> {
    chained(retried(cleaned(completed(spawned(units, outcomes), exits))))
}

/// What the second half of a tick announces.
pub open spec fn tick_notifications(
    units: Seq<UnitView>,
    outcomes: Seq<SpawnOutcome>,
    drained: Seq<ProcessOutputView>,
    exits: Seq<ProcessExit>,
) -> NotificationsView {
    let running = spawned(units, outcomes);
    let ended = completed(running, exits);
    let kept = cleaned(ended);
    NotificationsView {
        started: started_events(units, outcomes),
        errors: error_events(units, outcomes),
        output: output_events(running, drained),
        completed: completed_events(running, exits),
        despawned: despawned(ended),
        retries: retry_events(kept),
        chains: chain_events(retried(kept)),
    }
}

/// The position of the first unit with the identifier `entity`, or the
/// number of units where there is none.
pub open spec fn position(units: Seq<UnitView>, entity: u64) -> int
    decreases units.len(),
{
    if units.len() == 0 {
        0
    } else if units[0].entity == entity {
        0
    } else {
        1 + position(units.skip(1), entity)
    }
}

/// The unit with the identifier `entity`, if there is one.
pub open spec fn lookup(units: Seq<UnitView>, entity: u64) -> Option<UnitView> {
    if position(units, entity) < units.len() {
        Some(units[position(units, entity)])
    } else {
        None
    }
}

/// `position` finds the first unit with the identifier, and nothing where
/// no unit has it.
pub proof fn lemma_position(units: Seq<UnitView>, entity: u64)
    ensures
        0 <= position(units, entity) <= units.len(),
        position(units, entity) < units.len() ==> units[position(units, entity)].entity == entity,
        forall|j: int| 0 <= j < position(units, entity) ==> (#[trigger] units[j]).entity != entity,
    decreases units.len(),
{
    if units.len() > 0 && units[0].entity != entity {
        let rest = units.skip(1);
        lemma_position(rest, entity);
        assert forall|j: int| 0 <= j < position(units, entity) implies (#[trigger] units[j]).entity
            != entity by {
            if j > 0 {
                assert(rest[j - 1] == units[j]);
            }
        }
    }
}

/// A unit after a request to end its process: the request is recorded on
/// the record of the live process, if there is one. The state stays.
pub open spec fn kill_requested(u: UnitView) -> UnitView {
    match u.process {
        Some(process) => UnitView {
            process: Some(ProcessView { kill_requested: true, ..process }),
            ..u
        },
        None => u,
    }
}

/// A unit after `bytes` were buffered for its process.
pub open spec fn input_written(u: UnitView, bytes: Seq<u8>) -> UnitView {
    match u.process {
        Some(process) => UnitView {
            process: Some(ProcessView { input: process.input + bytes, ..process }),
            ..u
        },
        None => u,
    }
}

/// A unit after its buffered input was handed out.
pub open spec fn input_flushed(u: UnitView) -> UnitView {
    match u.process {
        Some(process) => UnitView {
            process: Some(ProcessView { input: Seq::empty(), ..process }),
            ..u
        },
        None => u,
    }
}

/// The engine. It owns every tracked unit.
#[derive(Debug, Clone, PartialEq, Eq)]
pub struct World {
    units: Vec<Unit>,
}

impl View for World {
    type V = Seq<UnitView>;

    closed spec fn view(&self) -> Seq<UnitView> {
        self.units.deep_view()
    }
}

impl Default for World {
    fn default() -> (r: World)
        ensures
            r@ == Seq::<UnitView>::empty(),
            r.wf(),
    {
        World::new()
    }
}

impl World {
    /// The invariant of the engine: that of its units.
    pub open spec fn wf(&self) -> bool {
        units_wf(self@)
    }

    /// An engine without units.
    pub fn new() -> (r: World)
        ensures
            r@ == Seq::<UnitView>::empty(),
            r.wf(),
    {
        World { units: Vec::new() }
    }

    /// The units, in the order in which they were added.
    pub fn units(&self) -> (r: &Vec<Unit>)
        ensures
            r.deep_view() == self@,
    {
        &self.units
    }

    /// The index of the first unit with the identifier `entity`.
    fn find(&self, entity: u64) -> (r: Option<usize>)
        ensures
            match r {
                Some(i) => i == position(self@, entity) && i < self@.len(),
                None => position(self@, entity) == self@.len(),
            },
    {
        let mut i: usize = 0;
        proof {
            assert(self@.skip(0) =~= self@);
        }
        while i < self.units.len()
            invariant
                i <= self.units.len(),
                self@ == self.units.deep_view(),
                position(self@, entity) == i + position(self@.skip(i as int), entity),
            decreases self.units.len() - i,
        {
            if self.units[i].entity == entity {
                return Some(i);
            }
            proof {
                assert(self@.skip(i as int).skip(1) =~= self@.skip(i + 1));
            }
            i = i + 1;
        }
        None
    }

    /// The unit with the identifier `entity`, if there is one.
    pub fn get(&self, entity: u64) -> (r: Option<&Unit>)
        ensures
            r.deep_view() == lookup(self@, entity),
    {
        match self.find(entity) {
            Some(i) => Some(&self.units[i]),
            None => None,
        }
    }

    /// Adds a unit to the engine. The unit is taken only if nothing has run
    /// on it yet and no unit of the engine has its identifier; the result
    /// says whether it was taken.
    pub fn spawn(&mut self, unit: Unit) -> (taken: bool)
        ensures
            taken == (unit.deep_view().fresh() && lookup(old(self)@, unit.entity) is None),
            taken ==> final(self)@ == old(self)@.push(unit.deep_view()),
            !taken ==> final(self)@ == old(self)@,
            old(self).wf() ==> final(self).wf(),
    {
        if !unit.is_fresh() {
            return false;
        }
        if self.find(unit.entity).is_some() {
            return false;
        }
        proof {
            lemma_position(self@, unit.entity);
        }
        self.units.push(unit);
        true
    }

    /// Takes the unit with the identifier `entity` out of the engine,
    /// whatever its state.
    pub fn despawn(&mut self, entity: u64) -> (r: Option<Unit>)
        ensures
            r.deep_view() == lookup(old(self)@, entity),
            final(self)@ == if position(old(self)@, entity) < old(self)@.len() {
                old(self)@.remove(position(old(self)@, entity))
            } else {
                old(self)@
            },
            old(self).wf() ==> final(self).wf(),
    {
        match self.find(entity) {
            Some(i) => {
                let unit = self.units.remove(i);
                assert(self.units.deep_view() =~= old(self)@.remove(i as int));
                Some(unit)
            },
            None => None,
        }
    }

    /// Requests the end of the process of the unit `entity`. The result
    /// says whether the unit has a live process. The state of the unit is
    /// left alone: it changes when the process is seen to have ended.
    pub fn kill(&mut self, entity: u64) -> (live: bool)
        ensures
            live == (lookup(old(self)@, entity) is Some && lookup(old(self)@, entity)->0.process is Some),
            final(self)@ == if live {
                old(self)@.update(
                    position(old(self)@, entity),
                    kill_requested(lookup(old(self)@, entity)->0),
                )
            } else {
                old(self)@
            },
            old(self).wf() ==> final(self).wf(),
    {
        let i = match self.find(entity) {
            Some(i) => i,
            None => {
                return false;
            },
        };
        let live = match &mut self.units[i].process {
            Some(process) => {
                process.kill();
                true
            },
            None => false,
        };
        assert(live ==> self.units.deep_view() =~= old(self)@.update(
            i as int,
            kill_requested(old(self)@[i as int]),
        ));
        live
    }

    /// Buffers `buf` for the process of the unit `entity`. Nothing is due
    /// on the input stream of the process before the next flush. The result
    /// says whether the unit has a live process.
    pub fn write(&mut self, entity: u64, buf: &[u8]) -> (live: bool)
        ensures
            live == (lookup(old(self)@, entity) is Some && lookup(old(self)@, entity)->0.process is Some),
            final(self)@ == if live {
                old(self)@.update(
                    position(old(self)@, entity),
                    input_written(lookup(old(self)@, entity)->0, buf@),
                )
            } else {
                old(self)@
            },
            old(self).wf() ==> final(self).wf(),
    {
        let i = match self.find(entity) {
            Some(i) => i,
            None => {
                return false;
            },
        };
        let live = match &mut self.units[i].process {
            Some(process) => {
                process.write_all(buf);
                true
            },
            None => false,
        };
        assert(live ==> self.units.deep_view() =~= old(self)@.update(
            i as int,
            input_written(old(self)@[i as int], buf@),
        ));
        live
    }

    /// Hands out the input that is buffered for the process of the unit
    /// `entity`, or `None` if the unit has no live process.
    pub fn flush(&mut self, entity: u64) -> (bytes: Option<Vec<u8>>)
        ensures
            match lookup(old(self)@, entity) {
                Some(unit) if unit.process is Some => {
                    &&& bytes is Some
                    &&& bytes->0@ == unit.process->0.input
                    &&& final(self)@ == old(self)@.update(
                        position(old(self)@, entity),
                        input_flushed(unit),
                    )
                },
                _ => bytes is None && final(self)@ == old(self)@,
            },
            old(self).wf() ==> final(self).wf(),
    {
        let i = match self.find(entity) {
            Some(i) => i,
            None => {
                return None;
            },
        };
        let bytes = match &mut self.units[i].process {
            Some(process) => Some(process.flush()),
            None => None,
        };
        assert(bytes is Some ==> self.units.deep_view() =~= old(self)@.update(
            i as int,
            input_flushed(old(self)@[i as int]),
        ));
        bytes
    }

    /// Writes a string to the process of the unit `entity` and flushes: the
    /// result is everything that is now due on the input stream of the
    /// process, or `None` if the unit has no live process.
    pub fn print(&mut self, entity: u64, input: &str) -> (bytes: Option<Vec<u8>>)
        ensures
            match lookup(old(self)@, entity) {
                Some(unit) if unit.process is Some => {
                    &&& bytes is Some
                    &&& bytes->0@ == unit.process->0.input + input.spec_bytes()
                    &&& final(self)@ == old(self)@.update(
                        position(old(self)@, entity),
                        input_flushed(unit),
                    )
                },
                _ => bytes is None && final(self)@ == old(self)@,
            },
            old(self).wf() ==> final(self).wf(),
    {
        let i = match self.find(entity) {
            Some(i) => i,
            None => {
                return None;
            },
        };
        let bytes = match &mut self.units[i].process {
            Some(process) => Some(process.print(input)),
            None => None,
        };
        assert(bytes is Some ==> self.units.deep_view() =~= old(self)@.update(
            i as int,
            input_flushed(old(self)@[i as int]),
        ));
        bytes
    }

    /// Writes a string, terminated by a newline (`\n`), to the process of
    /// the unit `entity` and flushes.
    pub fn println(&mut self, entity: u64, input: &str) -> (bytes: Option<Vec<u8>>)
        ensures
            match lookup(old(self)@, entity) {
                Some(unit) if unit.process is Some => {
                    &&& bytes is Some
                    &&& bytes->0@ == unit.process->0.input + input.spec_bytes() + seq![
                        crate::process::NEWLINE,
                    ]
                    &&& final(self)@ == old(self)@.update(
                        position(old(self)@, entity),
                        input_flushed(unit),
                    )
                },
                _ => bytes is None && final(self)@ == old(self)@,
            },
            old(self).wf() ==> final(self).wf(),
    {
        let i = match self.find(entity) {
            Some(i) => i,
            None => {
                return None;
            },
        };
        let bytes = match &mut self.units[i].process {
            Some(process) => Some(process.println(input)),
            None => None,
        };
        assert(bytes is Some ==> self.units.deep_view() =~= old(self)@.update(
            i as int,
            input_flushed(old(self)@[i as int]),
        ));
        bytes
    }

    /// The first half of a tick, `delta` nanoseconds after the previous one:
    /// delays are applied, and it is decided which commands start now.
    /// The result holds the units whose processes the host is to start.
    pub fn begin_tick(&mut self, delta: u64) -> (requests: Vec<u64>)
        ensures
            final(self)@ == tick_begun(old(self)@, delta),
            requests@ == spawn_requests(delayed(old(self)@)),
            old(self).wf() ==> final(self).wf(),
    {
        apply_delay(&mut self.units);
        handle_new_command(&mut self.units, delta)
    }

    /// The second half of a tick. The host reports what became of the
    /// starts that the first half asked for (`outcomes`), what it drained
    /// from the output buffers (`drained`), and which processes it saw end
    /// (`exits`).
    pub fn finish_tick(
        &mut self,
        outcomes: &Vec<SpawnOutcome>,
        drained: Vec<ProcessOutput>,
        exits: &Vec<ProcessExit>,
    ) -> (notes: Notifications)
        ensures
            final(self)@ == tick_finished(old(self)@, outcomes@, exits@),
            notes.deep_view() == tick_notifications(
                old(self)@,
                outcomes@,
                drained.deep_view(),
                exits@,
            ),
            old(self).wf() ==> final(self).wf(),
    {
        let (started, errors) = handle_spawn_outcome(&mut self.units, outcomes);
        let output = handle_process_output(&self.units, drained);
        let completed = handle_completed_process(&mut self.units, exits);
        let despawned = cleanup_completed_process(&mut self.units);
        let retries = retry_failed_process(&mut self.units);
        let chains = chain_execution_system(&mut self.units);
        Notifications { started, errors, output, completed, despawned, retries, chains }
    }
}

} // verus!
