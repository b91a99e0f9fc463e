//! Lifecycle engine for local commands: tracked units, their process state
//! machine and the delay, retry, chain and cleanup add-ons.
//!
//! A [`Unit`] is one logical job: a [`LocalCommand`], the [`ProcessState`] in
//! which it stands, and the policies attached to it ([`Delay`], [`Retry`],
//! [`Chain`], [`Cleanup`]). The [`World`] owns the units and moves them on
//! tick by tick.
//!
//! The engine does no input or output of its own. A host drives it:
//!
//! 1. [`World::begin_tick`] applies the delays and says for which units a
//!    process is to be started now.
//! 2. The host starts these processes, drains the output buffers of the
//!    processes that run (see [`ProcessOutputBuffer`]) and collects the exit
//!    status of each process whose output has ended.
//! 3. [`World::finish_tick`] takes what the host found, checks for
//!    completion, runs cleanup, retry and the chains, in this order, and
//!    answers with the [`Notifications`] of the tick.
//!
//! Between ticks the host passes on requests to end a process
//! ([`World::kill`]) or to write to it ([`World::println`]).
//!
//! What holds of the engine over whole runs is stated and proved in
//! [`laws`].

pub mod addons;
pub mod countdown;
pub mod events;
pub mod laws;
pub mod local_command;
pub mod output;
pub mod process;
pub mod systems;
pub mod unit;
pub mod world;

pub use addons::chain::{Chain, ChainCompletedEvent};
pub use addons::cleanup::Cleanup;
pub use addons::delay::Delay;
pub use addons::retry::{Retry, RetryEvent};
pub use countdown::Countdown;
pub use events::{
    ProcessCompleted, ProcessError, ProcessErrorInfo, ProcessExit, ProcessStarted, SpawnOutcome,
};
pub use local_command::LocalCommand;
pub use output::{ProcessOutput, ProcessOutputBuffer};
pub use process::{ExitStatus, Pid, Process, ProcessDone, ProcessState};
pub use unit::Unit;
pub use world::{Notifications, World};
