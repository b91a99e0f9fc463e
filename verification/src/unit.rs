//! The tracked unit: one logical job with its command, its lifecycle state
//! and its optional policies.

use crate::addons::chain::Chain;
use crate::addons::cleanup::Cleanup;
use crate::addons::delay::Delay;
use crate::addons::retry::Retry;
use crate::countdown::Countdown;
use crate::events::lemma_present_grows;
use crate::events::lemma_present_origin;
use crate::events::present;
use crate::local_command::LocalCommand;
use crate::local_command::LocalCommandView;
use crate::process::ExitStatus;
use crate::process::Process;
use crate::process::ProcessState;
use crate::process::ProcessView;
use vstd::prelude::*;

verus! {

/// The mathematical content of a [`Unit`].
pub struct UnitView {
    pub entity: u64,
    pub command: Option<LocalCommandView>,
    pub state: ProcessState,
    pub timer: Option<Countdown>,
    pub process: Option<ProcessView>,
    pub exit_status: Option<ExitStatus>,
    pub delay: Option<Delay>,
    pub retry: Option<Retry>,
    pub chain: Option<Seq<LocalCommandView>>,
    pub cleanup: Option<Cleanup>,
}

/// One logical job tracked by the engine.
#[derive(Debug, Clone, PartialEq, Eq)]
pub struct Unit {
    /// The identifier of the unit, stable for as long as the unit exists.
    pub entity: u64,
    /// The command that is active, if any.
    pub command: Option<LocalCommand>,
    /// Where the active command stands; after it, how it ended.
    pub state: ProcessState,
    /// The countdown of the current attempt's delay.
    pub timer: Option<Countdown>,
    /// The record of the live process.
    pub process: Option<Process>,
    /// The status collected from the last process that ended.
    pub exit_status: Option<ExitStatus>,
    pub delay: Option<Delay>,
    pub retry: Option<Retry>,
    pub chain: Option<Chain>,
    pub cleanup: Option<Cleanup>,
}

impl DeepView for Unit {
    type V = UnitView;

    open spec fn deep_view(&self) -> UnitView {
        UnitView {
            entity: self.entity,
            command: self.command.deep_view(),
            state: self.state,
            timer: self.timer,
            process: self.process.deep_view(),
            exit_status: self.exit_status,
            delay: self.delay,
            retry: self.retry,
            chain: self.chain.deep_view(),
            cleanup: self.cleanup,
        }
    }
}

impl UnitView {
    /// A unit as it is created: nothing has run yet.
    pub open spec fn fresh(self) -> bool {
        &&& self.state == ProcessState::Pending
        &&& self.timer is None
        &&& self.process is None
        &&& self.exit_status is None
    }

    /// The invariant of a unit.
    ///
    /// A unit has a live process exactly while its state is `Running`; a
    /// running or failed command is still there; a countdown exists only
    /// for a pending command and is the one its delay policy asks for; a
    /// collected exit status belongs to a command that has ended.
    pub open spec fn wf(self) -> bool {
        &&& self.process is Some <==> self.state == ProcessState::Running
        &&& self.state == ProcessState::Running || self.state == ProcessState::Error
            ==> self.command is Some
        &&& self.timer is Some ==> {
            &&& self.state == ProcessState::Pending
            &&& self.command is Some
            &&& self.timer->0.wf()
            &&& self.delay is Some
            &&& self.timer->0.duration == self.delay->0.spec_duration()
        }
        &&& self.state == ProcessState::Running || self.state == ProcessState::Pending
            ==> self.exit_status is None
    }
}

/// The invariant of a collection of units: each unit is well formed and no
/// two units share an identifier.
pub open spec fn units_wf(units: Seq<UnitView>) -> bool {
    &&& forall|i: int| 0 <= i < units.len() ==> (#[trigger] units[i]).wf()
    &&& forall|i: int, j: int|
        0 <= i < j < units.len() ==> (#[trigger] units[i]).entity != (#[trigger] units[j]).entity
}

impl Unit {
    /// A unit without command or policy.
    pub fn new(entity: u64) -> (r: Unit)
        ensures
            r.deep_view() == (UnitView {
                entity,
                command: None,
                state: ProcessState::Pending,
                timer: None,
                process: None,
                exit_status: None,
                delay: None,
                retry: None,
                chain: None,
                cleanup: None,
            }),
    {
        Unit {
            entity,
            command: None,
            state: ProcessState::Pending,
            timer: None,
            process: None,
            exit_status: None,
            delay: None,
            retry: None,
            chain: None,
            cleanup: None,
        }
    }

    /// The unit with `command` as its active command.
    pub fn with_command(self, command: LocalCommand) -> (r: Unit)
        ensures
            r.deep_view() == (UnitView { command: Some(command@), ..self.deep_view() }),
    {
        let mut r = self;
        r.command = Some(command);
        r
    }

    /// The unit with a delay policy.
    pub fn with_delay(self, delay: Delay) -> (r: Unit)
        ensures
            r.deep_view() == (UnitView { delay: Some(delay), ..self.deep_view() }),
    {
        let mut r = self;
        r.delay = Some(delay);
        r
    }

    /// The unit with a retry policy.
    pub fn with_retry(self, retry: Retry) -> (r: Unit)
        ensures
            r.deep_view() == (UnitView { retry: Some(retry), ..self.deep_view() }),
    {
        let mut r = self;
        r.retry = Some(retry);
        r
    }

    /// The unit with a chain of commands that wait for their turn.
    pub fn with_chain(self, chain: Chain) -> (r: Unit)
        ensures
            r.deep_view() == (UnitView { chain: Some(chain.deep_view()), ..self.deep_view() }),
    {
        let mut r = self;
        r.chain = Some(chain);
        r
    }

    /// The unit with a cleanup policy.
    pub fn with_cleanup(self, cleanup: Cleanup) -> (r: Unit)
        ensures
            r.deep_view() == (UnitView { cleanup: Some(cleanup), ..self.deep_view() }),
    {
        let mut r = self;
        r.cleanup = Some(cleanup);
        r
    }

    /// Whether nothing has run on this unit yet.
    pub fn is_fresh(&self) -> (r: bool)
        ensures
            r == self.deep_view().fresh(),
            r ==> self.deep_view().wf(),
    {
        let pending = match self.state {
            ProcessState::Pending => true,
            _ => false,
        };
        pending && self.timer.is_none() && self.process.is_none() && self.exit_status.is_none()
    }
}


/// A step that keeps each unit's identifier and invariant keeps the
/// invariant of a collection.
pub proof fn lemma_map_keeps_wf(units: Seq<UnitView>, step: spec_fn(UnitView) -> UnitView)
    requires
        units_wf(units),
        forall|u: UnitView| (#[trigger] step(u)).entity == u.entity,
        forall|u: UnitView| u.wf() ==> (#[trigger] step(u)).wf(),
    ensures
        units_wf(units.map_values(step)),
{
    let mapped = units.map_values(step);
    assert forall|i: int| 0 <= i < mapped.len() implies (#[trigger] mapped[i]).wf() by {
        assert(units[i].wf());
    }
    assert forall|i: int, j: int| 0 <= i < j < mapped.len() implies (#[trigger] mapped[i]).entity
        != (#[trigger] mapped[j]).entity by {
        assert(units[i].entity != units[j].entity);
    }
}

/// A step that removes some units, and keeps the identifier and the
/// invariant of each unit that it leaves, keeps the invariant of a collection.
pub proof fn lemma_filter_keeps_wf(units: Seq<UnitView>, step: spec_fn(UnitView) -> Option<UnitView>)
    requires
        units_wf(units),
        forall|u: UnitView| (#[trigger] step(u)) is Some ==> step(u)->0.entity == u.entity,
        forall|u: UnitView| u.wf() && (#[trigger] step(u)) is Some ==> step(u)->0.wf(),
    ensures
        units_wf(present(units.map_values(step))),
{
    let stepped = units.map_values(step);
    let left = present(stepped);
    assert forall|i: int| 0 <= i < left.len() implies (#[trigger] left[i]).wf() by {
        let k = lemma_present_origin(stepped, i);
        assert(units[k].wf());
    }
    assert forall|i: int, j: int| 0 <= i < j < left.len() implies (#[trigger] left[i]).entity != (
    #[trigger] left[j]).entity by {
        let a = lemma_present_origin(stepped, i);
        let b = lemma_present_origin(stepped, j);
        if a >= b {
            lemma_present_grows(stepped, b, a);
        }
        assert(units[a].entity != units[b].entity);
    }
}

} // verus!
