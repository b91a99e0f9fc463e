//! The lifecycle state of a tracked command and the record the engine keeps
//! of its live operating-system process.

use vstd::prelude::*;
use vstd::string::StringSliceAdditionalSpecFns;

verus! {

/// The ID of a process.
pub type Pid = u32;

/// The line terminator that [`Process::println`] appends.
pub const NEWLINE: u8 = 10;

/// How a finished command ended.
///
/// * `Killed`: the process ended without an exit code (for example by a signal).
/// * `Failed`: the command failed for good; no retry is left to take it up.
/// * `Succeeded`: the process exited with code 0.
#[derive(Debug, Clone, Copy, PartialEq, Eq, Structural)]
pub enum ProcessDone {
    Killed,
    Failed,
    Succeeded,
}

/// Where a tracked command stands.
///
/// * `Pending`: not spawned yet (for example while a delay counts down).
/// * `Running`: the process is live.
/// * `Error`: the process exited with a nonzero code or could not be started.
///   The state is transient: a retry may take the command back to `Pending`,
///   otherwise the next completion check turns it into `Done(Failed)`.
/// * `Done`: terminal.
#[derive(Debug, Clone, Copy, PartialEq, Eq, Structural)]
pub enum ProcessState {
    Pending,
    Running,
    Error,
    Done(ProcessDone),
}

/// The result collected from a process that has ended: its exit code, or
/// `None` when it ended without one.
#[derive(Debug, Clone, Copy, PartialEq, Eq, Structural)]
pub struct ExitStatus {
    pub code: Option<i32>,
}

impl ExitStatus {
    /// The status of a process that exited with `code`.
    pub fn from_code(code: i32) -> (r: ExitStatus)
        ensures
            r == (ExitStatus { code: Some(code) }),
    {
        ExitStatus { code: Some(code) }
    }

    /// The status of a process that ended without an exit code.
    pub fn signalled() -> (r: ExitStatus)
        ensures
            r == (ExitStatus { code: None }),
    {
        ExitStatus { code: None }
    }

    pub open spec fn spec_success(self) -> bool {
        self.code == Some(0i32)
    }

    /// Whether the process exited with code 0.
    #[verifier::when_used_as_spec(spec_success)]
    pub fn success(self) -> (r: bool)
        ensures
            r == self.spec_success(),
    {
        match self.code {
            Some(c) => c == 0,
            None => false,
        }
    }

    /// The exit code, if the process ended with one.
    pub fn code(self) -> (r: Option<i32>)
        ensures
            r == self.code,
    {
        self.code
    }

    /// The lifecycle state a running command moves to when its process ends
    /// with this status.
    pub open spec fn spec_next_state(self) -> ProcessState {
        match self.code {
            None => ProcessState::Done(ProcessDone::Killed),
            Some(c) => if c == 0 {
                ProcessState::Done(ProcessDone::Succeeded)
            } else {
                ProcessState::Error
            },
        }
    }

    #[verifier::when_used_as_spec(spec_next_state)]
    pub fn next_state(self) -> (r: ProcessState)
        ensures
            r == self.spec_next_state(),
    {
        match self.code {
            None => ProcessState::Done(ProcessDone::Killed),
            Some(c) => if c == 0 {
                ProcessState::Done(ProcessDone::Succeeded)
            } else {
                ProcessState::Error
            },
        }
    }
}

/// The mathematical content of a [`Process`].
pub struct ProcessView {
    pub pid: Pid,
    /// Bytes written to the process and not flushed to its input stream yet.
    pub input: Seq<u8>,
    pub kill_requested: bool,
}

/// The engine's record of one live process: its id, the input that is
/// buffered for it and whether its termination has been requested.
///
/// The operating-system handle itself stays with the host; the host forwards
/// to it what [`Process::flush`] hands out and signals the child once
/// [`Process::kill_requested`] holds.
#[derive(Debug, Clone, PartialEq, Eq)]
pub struct Process {
    pub pid: Pid,
    pub input: Vec<u8>,
    pub kill_requested: bool,
}

impl View for Process {
    type V = ProcessView;

    open spec fn view(&self) -> ProcessView {
        ProcessView { pid: self.pid, input: self.input@, kill_requested: self.kill_requested }
    }
}

impl DeepView for Process {
    type V = ProcessView;

    open spec fn deep_view(&self) -> ProcessView {
        self@
    }
}

impl ProcessView {
    /// The record of a process that was just started.
    pub open spec fn started(pid: Pid) -> ProcessView {
        ProcessView { pid, input: Seq::empty(), kill_requested: false }
    }
}

impl Process {
    /// The record of a process that was just started under `pid`.
    pub fn new(pid: Pid) -> (r: Process)
        ensures
            r@ == ProcessView::started(pid),
    {
        Process { pid, input: Vec::new(), kill_requested: false }
    }

    pub fn id(&self) -> (r: Pid)
        ensures
            r == self@.pid,
    {
        self.pid
    }

    /// Requests the termination of the process. The lifecycle state of the
    /// command is left alone: it changes once the process is seen to have ended.
    pub fn kill(&mut self)
        ensures
            final(self)@ == (ProcessView { kill_requested: true, ..old(self)@ }),
    {
        self.kill_requested = true;
    }

    pub fn kill_requested(&self) -> (r: bool)
        ensures
            r == self@.kill_requested,
    {
        self.kill_requested
    }

    /// Buffers `buf` for the process and returns how many bytes were taken,
    /// which is all of them.
    pub fn write(&mut self, buf: &[u8]) -> (n: usize)
        ensures
            n == buf@.len(),
            final(self)@ == (ProcessView { input: old(self)@.input + buf@, ..old(self)@ }),
    {
        self.write_all(buf);
        buf.len()
    }

    /// Buffers `buf` for the process.
    pub fn write_all(&mut self, buf: &[u8])
        ensures
            final(self)@ == (ProcessView { input: old(self)@.input + buf@, ..old(self)@ }),
    {
        self.input.extend_from_slice(buf);
        assert(self.input@ =~= old(self).input@ + buf@);
    }

    /// Hands out the buffered input, in the order it was written, and leaves
    /// the buffer empty.
    pub fn flush(&mut self) -> (bytes: Vec<u8>)
        ensures
            bytes@ == old(self)@.input,
            final(self)@ == (ProcessView { input: Seq::empty(), ..old(self)@ }),
    {
        let mut bytes: Vec<u8> = Vec::new();
        std::mem::swap(&mut bytes, &mut self.input);
        bytes
    }

    /// Writes a string to the process and flushes: the result is everything
    /// that is now due on the input stream of the process.
    ///
    /// See [`Process::println`] for a version which adds a newline (`\n`) to the end of the string.
    pub fn print(&mut self, input: &str) -> (bytes: Vec<u8>)
        ensures
            bytes@ == old(self)@.input + input.spec_bytes(),
            final(self)@ == (ProcessView { input: Seq::empty(), ..old(self)@ }),
    {
        self.write_all(input.as_bytes());
        self.flush()
    }

    /// Writes a string, terminated by a newline (`\n`), to the process and flushes.
    ///
    /// See [`Process::print`] for a version without the newline.
    pub fn println(&mut self, input: &str) -> (bytes: Vec<u8>)
        ensures
            bytes@ == old(self)@.input + input.spec_bytes() + seq![NEWLINE],
            final(self)@ == (ProcessView { input: Seq::empty(), ..old(self)@ }),
    {
        self.write_all(input.as_bytes());
        self.input.push(NEWLINE);
        self.flush()
    }
}

} // verus!
