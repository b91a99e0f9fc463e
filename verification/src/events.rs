//! What the engine announces to its host.

use crate::process::ExitStatus;
use crate::process::Pid;
use vstd::prelude::*;

verus! {

/// A process was started for a unit.
#[derive(Debug, Clone, Copy, PartialEq, Eq, Structural)]
pub struct ProcessStarted {
    pub entity: u64,
    pub pid: Pid,
}

#[derive(Debug, Clone, Copy, PartialEq, Eq, Structural)]
pub enum ProcessErrorInfo {
    FailedToStart,
}

/// A unit's command could not be run.
#[derive(Debug, Clone, Copy, PartialEq, Eq, Structural)]
pub struct ProcessError {
    pub entity: u64,
    pub info: ProcessErrorInfo,
}

/// A unit's command has reached a terminal state after its process ended.
#[derive(Debug, Clone, Copy, PartialEq, Eq, Structural)]
pub struct ProcessCompleted {
    pub entity: u64,
    pub exit_status: ExitStatus,
}

/// What the host found for one unit when it tried to start its process:
/// the id of the new process, or `None` when it could not be started.
#[derive(Debug, Clone, Copy, PartialEq, Eq, Structural)]
pub struct SpawnOutcome {
    pub entity: u64,
    pub pid: Option<Pid>,
}

/// The host saw the output stream of a unit's process close and collected
/// the exit status of the process.
#[derive(Debug, Clone, Copy, PartialEq, Eq, Structural)]
pub struct ProcessExit {
    pub entity: u64,
    pub exit_status: ExitStatus,
}

/// The values that are present in `s`, in order.
pub open spec fn present<T>(s: Seq<Option<T>>) -> Seq<T>
    decreases s.len(),
{
    if s.len() == 0 {
        Seq::empty()
    } else {
        match s.last() {
            Some(x) => present(s.drop_last()).push(x),
            None => present(s.drop_last()),
        }
    }
}

/// The spawn outcome that `outcomes` holds for `entity`: the first one, if
/// there are several.
pub open spec fn outcome_for(outcomes: Seq<SpawnOutcome>, entity: u64) -> Option<Option<Pid>>
    decreases outcomes.len(),
{
    if outcomes.len() == 0 {
        None
    } else if outcomes[0].entity == entity {
        Some(outcomes[0].pid)
    } else {
        outcome_for(outcomes.skip(1), entity)
    }
}

/// The exit that `exits` holds for `entity`: the first one, if there are
/// several.
pub open spec fn exit_for(exits: Seq<ProcessExit>, entity: u64) -> Option<ExitStatus>
    decreases exits.len(),
{
    if exits.len() == 0 {
        None
    } else if exits[0].entity == entity {
        Some(exits[0].exit_status)
    } else {
        exit_for(exits.skip(1), entity)
    }
}

/// Looks up the spawn outcome reported for `entity`.
pub fn find_outcome(outcomes: &Vec<SpawnOutcome>, entity: u64) -> (r: Option<Option<Pid>>)
    ensures
        r == outcome_for(outcomes@, entity),
{
    let mut i: usize = 0;
    assert(outcomes@.skip(0) =~= outcomes@);
    while i < outcomes.len()
        invariant
            i <= outcomes.len(),
            outcome_for(outcomes@, entity) == outcome_for(outcomes@.skip(i as int), entity),
        decreases outcomes.len() - i,
    {
        if outcomes[i].entity == entity {
            return Some(outcomes[i].pid);
        }
        assert(outcomes@.skip(i as int).skip(1) =~= outcomes@.skip(i + 1));
        i = i + 1;
    }
    None
}

/// Looks up the exit reported for `entity`.
pub fn find_exit(exits: &Vec<ProcessExit>, entity: u64) -> (r: Option<ExitStatus>)
    ensures
        r == exit_for(exits@, entity),
{
    let mut i: usize = 0;
    assert(exits@.skip(0) =~= exits@);
    while i < exits.len()
        invariant
            i <= exits.len(),
            exit_for(exits@, entity) == exit_for(exits@.skip(i as int), entity),
        decreases exits.len() - i,
    {
        if exits[i].entity == entity {
            return Some(exits[i].exit_status);
        }
        assert(exits@.skip(i as int).skip(1) =~= exits@.skip(i + 1));
        i = i + 1;
    }
    None
}

/// `present` of a prefix that is one longer.
pub proof fn lemma_present_step<T>(s: Seq<Option<T>>, i: int)
    requires
        0 <= i < s.len(),
    ensures
        present(s.take(i + 1)) == match s[i] {
            Some(x) => present(s.take(i)).push(x),
            None => present(s.take(i)),
        },
{
    assert(s.take(i + 1).drop_last() =~= s.take(i));
}

/// What is present in a prefix of `s` begins what is present in `s`.
pub proof fn lemma_present_prefix<T>(s: Seq<Option<T>>, a: int)
    requires
        0 <= a <= s.len(),
    ensures
        present(s.take(a)).len() <= present(s).len(),
        forall|j: int|
            0 <= j < present(s.take(a)).len() ==> present(s)[j] == present(s.take(a))[j],
    decreases s.len() - a,
{
    if a < s.len() {
        lemma_present_step(s, a);
        lemma_present_prefix(s, a + 1);
    } else {
        assert(s.take(a) =~= s);
    }
}

/// A longer prefix has no fewer values present, and more if it takes in
/// one that is present.
pub proof fn lemma_present_grows<T>(s: Seq<Option<T>>, a: int, b: int)
    requires
        0 <= a <= b <= s.len(),
    ensures
        present(s.take(a)).len() <= present(s.take(b)).len(),
        a < b && s[a] is Some ==> present(s.take(a)).len() < present(s.take(b)).len(),
    decreases b - a,
{
    if a < b {
        lemma_present_step(s, b - 1);
        lemma_present_grows(s, a, b - 1);
    }
}

/// Each value of `present(s)` stands in `s`, after as many present values
/// as stand before it in `present(s)`.
pub proof fn lemma_present_origin<T>(s: Seq<Option<T>>, i: int) -> (k: int)
    requires
        0 <= i < present(s).len(),
    ensures
        0 <= k < s.len(),
        s[k] == Some(present(s)[i]),
        present(s.take(k)).len() == i,
    decreases s.len(),
{
    let rest = s.drop_last();
    if s.last() is Some && i == present(rest).len() {
        s.len() - 1
    } else {
        let k = lemma_present_origin(rest, i);
        assert(rest.take(k) =~= s.take(k));
        k
    }
}

/// A value that stands in `s` is in `present(s)`, after the present values
/// that stand before it.
pub proof fn lemma_present_holds<T>(s: Seq<Option<T>>, k: int)
    requires
        0 <= k < s.len(),
        s[k] is Some,
    ensures
        present(s.take(k)).len() < present(s).len(),
        present(s)[present(s.take(k)).len() as int] == s[k]->0,
{
    lemma_present_step(s, k);
    lemma_present_prefix(s, k + 1);
}

} // verus!
