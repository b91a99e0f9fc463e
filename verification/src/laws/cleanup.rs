//! Cleanup: what it removes and what it leaves.

use crate::addons::cleanup::cleaned;
use crate::addons::cleanup::Cleanup;
use crate::addons::cleanup::cleanup_due;
use crate::laws::engine::lemma_lookup_cleaned;
use crate::process::ProcessDone;
use crate::process::ProcessState;
use crate::unit::units_wf;
use crate::unit::UnitView;
use crate::world::lemma_position;
use crate::world::lookup;
use vstd::prelude::*;

verus! {

/// The cleanup step on a unit whose policy applies: `DespawnUnit` leaves no
/// unit with its identifier; `RemoveRuntimeData` leaves the unit to be
/// found, without command and process, in the state and with the exit
/// status in which its command ended. A unit whose policy does not apply
/// stays as it is.
pub proof fn law_cleanup_outcome(units: Seq<UnitView>, entity: u64)
    requires
        units_wf(units),
        lookup(units, entity) is Some,
    ensures
        ({
            let u = lookup(units, entity)->0;
            let left = lookup(cleaned(units), entity);
            &&& cleanup_due(u) <==> u.state is Done && u.cleanup is Some && u.chain is None && !(
            u.state == ProcessState::Done(ProcessDone::Failed) && u.retry is Some)
            &&& cleanup_due(u) && u.cleanup == Some(Cleanup::DespawnUnit) ==> {
                &&& left is None
                &&& forall|i: int|
                    0 <= i < cleaned(units).len() ==> (#[trigger] cleaned(units)[i]).entity
                        != entity
            }
            &&& cleanup_due(u) && u.cleanup == Some(Cleanup::RemoveRuntimeData) ==> {
                &&& left is Some
                &&& left->0.entity == entity
                &&& left->0.state == u.state
                &&& left->0.exit_status == u.exit_status
                &&& left->0.command is None
                &&& left->0.process is None
                &&& left->0.timer is None
            }
            &&& !cleanup_due(u) ==> left == Some(u)
        }),
{
    lemma_lookup_cleaned(units, entity);
    lemma_position(units, entity);
    lemma_position(cleaned(units), entity);
}

} // verus!
