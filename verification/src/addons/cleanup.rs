//! Removal of finished units.

use crate::events::lemma_present_step;
use crate::events::present;
use crate::process::ProcessDone;
use crate::process::ProcessState;
use crate::unit::lemma_filter_keeps_wf;
use crate::unit::Unit;
use crate::unit::units_wf;
use crate::unit::UnitView;
use vstd::prelude::*;

verus! {

/// What to discard of a unit once its command has reached a terminal state.
#[derive(Debug, Clone, Copy, PartialEq, Eq, Structural)]
pub enum Cleanup {
    /// The whole unit.
    DespawnUnit,
    /// The command and what belongs to its run. The unit stays, and with it
    /// the state and the exit status in which the command ended.
    RemoveRuntimeData,
}

/// The cleanup policy of the unit applies: the command has reached a
/// terminal state, and no other policy still has a claim on the unit. A
/// retry policy has one on a failed command, a chain for as long as it is
/// attached.
pub open spec fn cleanup_due(u: UnitView) -> bool {
    &&& u.state is Done
    &&& u.cleanup is Some
    &&& u.chain is None
    &&& !(u.state == ProcessState::Done(ProcessDone::Failed) && u.retry is Some)
}

/// The cleanup step removes the unit.
pub open spec fn despawns(u: UnitView) -> bool {
    cleanup_due(u) && u.cleanup == Some(Cleanup::DespawnUnit)
}

/// A unit that the cleanup step leaves in place, after the step. Where the
/// policy applies, the command and what belongs to its run are gone, and
/// the policy with them; the identifier, the state and the exit status stay.
pub open spec fn after_cleanup(u: UnitView) -> UnitView {
    if cleanup_due(u) {
        UnitView { command: None, timer: None, process: None, cleanup: None, ..u }
    } else {
        u
    }
}

/// What the cleanup step leaves of a unit: nothing where it removes the
/// unit.
pub open spec fn cleanup_applied(u: UnitView) -> Option<UnitView> {
    if despawns(u) {
        None
    } else {
        Some(after_cleanup(u))
    }
}

/// The units after the cleanup step: those that it does not remove, in
/// order, each as the step leaves it.
pub open spec fn cleaned(units: Seq<UnitView>) -> Seq<UnitView> {
    present(units.map_values(|u: UnitView| cleanup_applied(u)))
}

/// The identifier of the unit, if the cleanup step removes it.
pub open spec fn despawn_event(u: UnitView) -> Option<u64> {
    if despawns(u) {
        Some(u.entity)
    } else {
        None
    }
}

/// The identifiers of the units that the cleanup step removes, in order.
pub open spec fn despawned(units: Seq<UnitView>) -> Seq<u64> {
    present(units.map_values(|u: UnitView| despawn_event(u)))
}

/// Applies the cleanup policy to one unit. The result says whether the
/// unit is to be removed; such a unit is left untouched.
pub fn clean_unit(unit: &mut Unit) -> (despawn: bool)
    ensures
        despawn == despawns(old(unit).deep_view()),
        despawn ==> final(unit).deep_view() == old(unit).deep_view(),
        !despawn ==> final(unit).deep_view() == after_cleanup(old(unit).deep_view()),
{
    let ended = match unit.state {
        ProcessState::Done(_) => true,
        _ => false,
    };
    let failed = unit.state == ProcessState::Done(ProcessDone::Failed);
    if !ended || unit.chain.is_some() || (failed && unit.retry.is_some()) {
        return false;
    }
    match unit.cleanup {
        Some(Cleanup::DespawnUnit) => true,
        Some(Cleanup::RemoveRuntimeData) => {
            unit.command = None;
            unit.timer = None;
            unit.process = None;
            unit.cleanup = None;
            false
        },
        None => false,
    }
}

/// Clean up any completed processes according to the cleanup policy.
///
/// Units without the policy are ignored. The result holds the identifiers
/// of the units that were removed, in order.
pub fn cleanup_completed_process(units: &mut Vec<Unit>) -> (removed: Vec<u64>)
    ensures
        final(units).deep_view() == cleaned(old(units).deep_view()),
        removed@ == despawned(old(units).deep_view()),
        units_wf(old(units).deep_view()) ==> units_wf(final(units).deep_view()),
{
    let ghost before = units.deep_view();
    let ghost gone = before.map_values(|u: UnitView| despawn_event(u));
    let ghost left = before.map_values(|u: UnitView| cleanup_applied(u));
    let ghost mut k: int = 0;
    let mut removed: Vec<u64> = Vec::new();
    let mut i: usize = 0;
    assert(gone.take(0) =~= Seq::empty());
    while i < units.len()
        invariant
            i <= units.len(),
            0 <= k <= before.len(),
            units.len() - i == before.len() - k,
            gone == before.map_values(|u: UnitView| despawn_event(u)),
            left == before.map_values(|u: UnitView| cleanup_applied(u)),
            present(left.take(k)).len() == i,
            forall|j: int| 0 <= j < i ==> units@[j].deep_view() == present(left.take(k))[j],
            forall|j: int| i <= j < units.len() ==> units@[j].deep_view() == before[j - i + k],
            removed@ == present(gone.take(k)),
        decreases units.len() - i,
    {
        let entity = units[i].entity;
        let despawn = clean_unit(&mut units[i]);
        proof {
            lemma_present_step(gone, k);
            lemma_present_step(left, k);
        }
        if despawn {
            units.remove(i);
            removed.push(entity);
        } else {
            i = i + 1;
        }
        proof {
            k = k + 1;
        }
    }
    proof {
        assert(gone.take(before.len() as int) =~= gone);
        assert(left.take(before.len() as int) =~= left);
        if units_wf(before) {
            lemma_filter_keeps_wf(before, |u: UnitView| cleanup_applied(u));
        }
    }
    removed
}

} // verus!
