//! The engine and its units: a tick keeps the invariant, treats every
//! unit by itself, and announces of each unit what the unit's own tick
//! gives rise to.

use crate::addons::chain::after_chain;
use crate::addons::chain::chain_event;
use crate::addons::chain::ChainCompletedEvent;
use crate::addons::cleanup::cleaned;
use crate::addons::cleanup::cleanup_applied;
use crate::addons::cleanup::despawn_event;
use crate::addons::delay::delay_applied;
use crate::addons::delay::delayed;
use crate::addons::retry::after_retry;
use crate::addons::retry::retried;
use crate::addons::retry::retry_event;
use crate::addons::retry::RetryEvent;
use crate::events::exit_for;
use crate::events::lemma_present_grows;
use crate::events::lemma_present_holds;
use crate::events::lemma_present_origin;
use crate::events::outcome_for;
use crate::events::present;
use crate::events::ProcessCompleted;
use crate::events::ProcessError;
use crate::events::ProcessExit;
use crate::events::ProcessStarted;
use crate::events::SpawnOutcome;
use crate::laws::model::at_check;
use crate::laws::model::at_start;
use crate::laws::model::Report;
use crate::laws::model::run;
use crate::laws::model::unit_tick;
use crate::output::ProcessOutputView;
use crate::process::ProcessState;
use crate::systems::after_completion;
use crate::systems::after_new_command;
use crate::systems::after_spawn;
use crate::systems::completed;
use crate::systems::completed_event;
use crate::systems::error_event;
use crate::systems::spawned;
use crate::systems::started_event;
use crate::unit::lemma_filter_keeps_wf;
use crate::unit::lemma_map_keeps_wf;
use crate::unit::units_wf;
use crate::unit::UnitView;
use crate::world::lemma_position;
use crate::world::lookup;
use crate::world::position;
use crate::world::tick_begun;
use crate::world::tick_finished;
use crate::world::tick_notifications;
use vstd::prelude::*;

verus! {

/// Both halves of a tick keep the invariant of the units: every unit has a
/// live process exactly while it is `Running`, and no two share an
/// identifier.
pub proof fn law_tick_keeps_invariant(
    units: Seq<UnitView>,
    delta: u64,
    outcomes: Seq<SpawnOutcome>,
    exits: Seq<ProcessExit>,
)
    requires
        units_wf(units),
    ensures
        units_wf(tick_begun(units, delta)),
        units_wf(tick_finished(units, outcomes, exits)),
        forall|i: int|
            #![trigger tick_finished(units, outcomes, exits)[i]]
            0 <= i < tick_finished(units, outcomes, exits).len() ==> (tick_finished(
                units,
                outcomes,
                exits,
            )[i].process is Some <==> tick_finished(units, outcomes, exits)[i].state
                == ProcessState::Running),
{
    lemma_map_keeps_wf(units, |u: UnitView| delay_applied(u));
    lemma_map_keeps_wf(delayed(units), |u: UnitView| after_new_command(u, delta));
    lemma_map_keeps_wf(units, |u: UnitView| after_spawn(u, outcome_for(outcomes, u.entity)));
    let running = spawned(units, outcomes);
    lemma_map_keeps_wf(running, |u: UnitView| after_completion(u, exit_for(exits, u.entity)));
    let ended = completed(running, exits);
    lemma_filter_keeps_wf(ended, |u: UnitView| cleanup_applied(u));
    lemma_map_keeps_wf(cleaned(ended), |u: UnitView| after_retry(u));
    lemma_map_keeps_wf(retried(cleaned(ended)), |u: UnitView| after_chain(u));
    let last = tick_finished(units, outcomes, exits);
    assert forall|i: int| 0 <= i < last.len() implies (last[i].process is Some <==> last[i].state
        == ProcessState::Running) by {
        assert(last[i].wf());
    }
}

/// In a collection without shared identifiers, each unit is the one that
/// its identifier finds.
pub proof fn lemma_lookup_at(units: Seq<UnitView>, i: int)
    requires
        units_wf(units),
        0 <= i < units.len(),
    ensures
        lookup(units, units[i].entity) == Some(units[i]),
{
    lemma_position(units, units[i].entity);
    let p = position(units, units[i].entity);
    if p > i {
        assert(units[i].entity != units[i].entity);
    }
    if p < i {
        assert(units[p].entity != units[i].entity);
    }
}

/// An identifier that no unit has finds nothing.
pub proof fn lemma_lookup_absent(units: Seq<UnitView>, entity: u64)
    requires
        forall|i: int| 0 <= i < units.len() ==> (#[trigger] units[i]).entity != entity,
    ensures
        lookup(units, entity) is None,
{
    lemma_position(units, entity);
}

/// A step that keeps the identifiers acts on the unit that an identifier
/// finds.
pub proof fn lemma_lookup_map(
    units: Seq<UnitView>,
    step: spec_fn(UnitView) -> UnitView,
    entity: u64,
)
    requires
        forall|u: UnitView| (#[trigger] step(u)).entity == u.entity,
    ensures
        position(units.map_values(step), entity) == position(units, entity),
        lookup(units.map_values(step), entity) == match lookup(units, entity) {
            Some(u) => Some(step(u)),
            None => None,
        },
    decreases units.len(),
{
    if units.len() > 0 {
        assert(units.map_values(step).skip(1) =~= units.skip(1).map_values(step));
        lemma_lookup_map(units.skip(1), step, entity);
    }
    lemma_position(units, entity);
}

/// A step that removes some units and keeps the identifiers of the others
/// acts on the unit that an identifier finds.
pub proof fn lemma_lookup_filter(
    units: Seq<UnitView>,
    step: spec_fn(UnitView) -> Option<UnitView>,
    entity: u64,
)
    requires
        units_wf(units),
        forall|u: UnitView| (#[trigger] step(u)) is Some ==> step(u)->0.entity == u.entity,
    ensures
        lookup(present(units.map_values(step)), entity) == match lookup(units, entity) {
            Some(u) => step(u),
            None => None,
        },
{
    let stepped = units.map_values(step);
    let left = present(stepped);
    lemma_position(units, entity);
    let p = position(units, entity);
    if p < units.len() && step(units[p]) is Some {
        lemma_present_holds(stepped, p);
        let i = present(stepped.take(p)).len() as int;
        assert forall|a: int, b: int| 0 <= a < b < left.len() implies (#[trigger] left[a]).entity
            != (#[trigger] left[b]).entity by {
            let ka = lemma_present_origin(stepped, a);
            let kb = lemma_present_origin(stepped, b);
            if ka >= kb {
                lemma_present_grows(stepped, kb, ka);
            }
            assert(units[ka].entity != units[kb].entity);
        }
        lemma_position(left, entity);
        let q = position(left, entity);
        if q < i {
            assert(left[q].entity != left[i].entity);
        }
    } else {
        assert forall|i: int| 0 <= i < left.len() implies (#[trigger] left[i]).entity != entity by {
            let k = lemma_present_origin(stepped, i);
            if p < units.len() && k != p {
                if k < p {
                    assert(units[k].entity != units[p].entity);
                } else {
                    assert(units[p].entity != units[k].entity);
                }
            }
        }
        lemma_lookup_absent(left, entity);
    }
}

/// The cleanup step acts on the unit that an identifier finds.
pub proof fn lemma_lookup_cleaned(units: Seq<UnitView>, entity: u64)
    requires
        units_wf(units),
    ensures
        lookup(cleaned(units), entity) == match lookup(units, entity) {
            Some(u) => cleanup_applied(u),
            None => None,
        },
{
    lemma_lookup_filter(units, |u: UnitView| cleanup_applied(u), entity);
}

/// The units at the stages of a tick, and at each stage the unit that an
/// identifier finds.
proof fn lemma_stages(
    units: Seq<UnitView>,
    delta: u64,
    outcomes: Seq<SpawnOutcome>,
    exits: Seq<ProcessExit>,
    entity: u64,
)
    requires
        units_wf(units),
        lookup(units, entity) is Some,
    ensures
        ({
            let u = lookup(units, entity)->0;
            let r = Report {
                delta,
                outcome: outcome_for(outcomes, entity),
                exit: exit_for(exits, entity),
            };
            let begun = tick_begun(units, delta);
            let running = spawned(begun, outcomes);
            let ended = completed(running, exits);
            let kept = cleaned(ended);
            &&& units_wf(begun) && lookup(begun, entity) == Some(at_start(u, r))
            &&& units_wf(running) && lookup(running, entity) == Some(
                after_spawn(at_start(u, r), r.outcome),
            )
            &&& units_wf(ended) && lookup(ended, entity) == Some(at_check(u, r))
            &&& units_wf(kept) && lookup(kept, entity) == cleanup_applied(at_check(u, r))
            &&& units_wf(retried(kept)) && lookup(retried(kept), entity) == match cleanup_applied(
                at_check(u, r),
            ) {
                Some(v) => Some(after_retry(v)),
                None => None,
            }
            &&& lookup(tick_finished(begun, outcomes, exits), entity) == unit_tick(u, r)
        }),
{
    lemma_position(units, entity);
    let arm = |u: UnitView| delay_applied(u);
    let decide = |u: UnitView| after_new_command(u, delta);
    let answer = |u: UnitView| after_spawn(u, outcome_for(outcomes, u.entity));
    let check = |u: UnitView| after_completion(u, exit_for(exits, u.entity));
    let clean = |u: UnitView| cleanup_applied(u);
    let retry = |u: UnitView| after_retry(u);
    let chain = |u: UnitView| after_chain(u);
    let s1 = units.map_values(arm);
    let s2 = s1.map_values(decide);
    let s3 = s2.map_values(answer);
    let s4 = s3.map_values(check);
    let s5 = cleaned(s4);
    let s6 = s5.map_values(retry);
    lemma_lookup_map(units, arm, entity);
    lemma_lookup_map(s1, decide, entity);
    lemma_lookup_map(s2, answer, entity);
    lemma_lookup_map(s3, check, entity);
    lemma_map_keeps_wf(units, arm);
    lemma_map_keeps_wf(s1, decide);
    lemma_map_keeps_wf(s2, answer);
    lemma_map_keeps_wf(s3, check);
    lemma_lookup_cleaned(s4, entity);
    lemma_filter_keeps_wf(s4, clean);
    lemma_lookup_map(s5, retry, entity);
    lemma_map_keeps_wf(s5, retry);
    lemma_lookup_map(s6, chain, entity);
}

/// A tick treats every unit by itself: what it makes of the unit with a
/// given identifier depends on that unit and on what the host reports for
/// it, and on nothing else.
pub proof fn law_units_are_independent(
    units: Seq<UnitView>,
    delta: u64,
    outcomes: Seq<SpawnOutcome>,
    exits: Seq<ProcessExit>,
    entity: u64,
)
    requires
        units_wf(units),
    ensures
        lookup(tick_finished(tick_begun(units, delta), outcomes, exits), entity) == match lookup(
            units,
            entity,
        ) {
            Some(u) => unit_tick(
                u,
                Report {
                    delta,
                    outcome: outcome_for(outcomes, entity),
                    exit: exit_for(exits, entity),
                },
            ),
            None => None,
        },
{
    if lookup(units, entity) is Some {
        lemma_stages(units, delta, outcomes, exits, entity);
    } else {
        lemma_position(units, entity);
        let last = tick_finished(tick_begun(units, delta), outcomes, exits);
        law_tick_adds_no_unit(units, delta, outcomes, exits);
        assert forall|i: int| 0 <= i < last.len() implies (#[trigger] last[i]).entity != entity by {
            let k = choose|k: int| 0 <= k < units.len() && units[k].entity == last[i].entity;
            assert(units[k].entity != entity);
        }
        lemma_lookup_absent(last, entity);
    }
}

/// A tick adds no unit: each unit that is there after it was there before.
pub proof fn law_tick_adds_no_unit(
    units: Seq<UnitView>,
    delta: u64,
    outcomes: Seq<SpawnOutcome>,
    exits: Seq<ProcessExit>,
)
    ensures
        forall|i: int|
            0 <= i < tick_finished(tick_begun(units, delta), outcomes, exits).len() ==> exists|
                k: int,
            |
                0 <= k < units.len() && (#[trigger] units[k]).entity == (#[trigger] tick_finished(
                    tick_begun(units, delta),
                    outcomes,
                    exits,
                )[i]).entity,
{
    let ended = completed(spawned(tick_begun(units, delta), outcomes), exits);
    let stepped = ended.map_values(|u: UnitView| cleanup_applied(u));
    let last = tick_finished(tick_begun(units, delta), outcomes, exits);
    assert forall|i: int| 0 <= i < last.len() implies exists|k: int|
        0 <= k < units.len() && (#[trigger] units[k]).entity == (#[trigger] last[i]).entity by {
        let k = lemma_present_origin(stepped, i);
        assert(units[k].entity == last[i].entity);
    }
}

/// The announcement that a step makes about the unit `entity` is `own`:
/// every announcement of `events` about the unit is `own`; `own`, if there
/// is one, is among `events`; and no two announcements of `events` are
/// about the same unit.
pub open spec fn announces<E>(
    events: Seq<E>,
    about: spec_fn(E) -> u64,
    entity: u64,
    own: Option<E>,
) -> bool {
    &&& forall|i: int|
        0 <= i < events.len() && about(#[trigger] events[i]) == entity ==> own == Some(events[i])
    &&& own is Some ==> exists|i: int| 0 <= i < events.len() && #[trigger] events[i] == own->0
    &&& forall|i: int, j: int|
        0 <= i < j < events.len() ==> about(#[trigger] events[i]) != about(#[trigger] events[j])
}

/// Where each unit announces at most one thing, about itself, the
/// announcement about a unit is the one of that unit.
pub proof fn lemma_announces<E>(
    units: Seq<UnitView>,
    event: spec_fn(UnitView) -> Option<E>,
    about: spec_fn(E) -> u64,
    entity: u64,
)
    requires
        units_wf(units),
        forall|u: UnitView| (#[trigger] event(u)) is Some ==> about(event(u)->0) == u.entity,
    ensures
        announces(
            present(units.map_values(event)),
            about,
            entity,
            match lookup(units, entity) {
                Some(u) => event(u),
                None => None,
            },
        ),
{
    let each = units.map_values(event);
    let events = present(each);
    let own = match lookup(units, entity) {
        Some(u) => event(u),
        None => None,
    };
    lemma_position(units, entity);
    assert forall|i: int| 0 <= i < events.len() && about(#[trigger] events[i]) == entity implies own
        == Some(events[i]) by {
        let k = lemma_present_origin(each, i);
        lemma_lookup_at(units, k);
    }
    if own is Some {
        let p = position(units, entity);
        lemma_present_holds(each, p);
    }
    assert forall|i: int, j: int| 0 <= i < j < events.len() implies about(#[trigger] events[i])
        != about(#[trigger] events[j]) by {
        let a = lemma_present_origin(each, i);
        let b = lemma_present_origin(each, j);
        if a >= b {
            lemma_present_grows(each, b, a);
        }
        assert(units[a].entity != units[b].entity);
    }
}

/// The unit that an announced start is about.
pub open spec fn started_about() -> spec_fn(ProcessStarted) -> u64 {
    |e: ProcessStarted| e.entity
}

/// The unit that an announced failure to start is about.
pub open spec fn error_about() -> spec_fn(ProcessError) -> u64 {
    |e: ProcessError| e.entity
}

/// The unit that an announced completion is about.
pub open spec fn completed_about() -> spec_fn(ProcessCompleted) -> u64 {
    |e: ProcessCompleted| e.entity
}

/// The unit that an announced removal is about.
pub open spec fn despawned_about() -> spec_fn(u64) -> u64 {
    |e: u64| e
}

/// The unit that an announced retry is about.
pub open spec fn retry_about() -> spec_fn(RetryEvent) -> u64 {
    |e: RetryEvent| e.entity
}

/// The unit that an announced end of a chain is about.
pub open spec fn chain_about() -> spec_fn(ChainCompletedEvent) -> u64 {
    |e: ChainCompletedEvent| e.entity
}

/// What a tick announces about a unit is what the tick of the unit alone
/// gives rise to: the start, the failure to start, the completion, the
/// removal, the retry and the end of the chain of the unit, each at most
/// once, and nothing else.
pub proof fn law_engine_announces_per_unit(
    units: Seq<UnitView>,
    delta: u64,
    outcomes: Seq<SpawnOutcome>,
    drained: Seq<ProcessOutputView>,
    exits: Seq<ProcessExit>,
    entity: u64,
)
    requires
        units_wf(units),
        lookup(units, entity) is Some,
    ensures
        ({
            let u = lookup(units, entity)->0;
            let r = Report {
                delta,
                outcome: outcome_for(outcomes, entity),
                exit: exit_for(exits, entity),
            };
            let notes = tick_notifications(tick_begun(units, delta), outcomes, drained, exits);
            &&& announces(
                notes.started,
                started_about(),
                entity,
                started_event(at_start(u, r), r.outcome),
            )
            &&& announces(
                notes.errors,
                error_about(),
                entity,
                error_event(at_start(u, r), r.outcome),
            )
            &&& announces(
                notes.completed,
                completed_about(),
                entity,
                completed_event(after_spawn(at_start(u, r), r.outcome), r.exit),
            )
            &&& announces(
                notes.despawned,
                despawned_about(),
                entity,
                despawn_event(at_check(u, r)),
            )
            &&& announces(
                notes.retries,
                retry_about(),
                entity,
                match cleanup_applied(at_check(u, r)) {
                    Some(v) => retry_event(v),
                    None => None,
                },
            )
            &&& announces(
                notes.chains,
                chain_about(),
                entity,
                match cleanup_applied(at_check(u, r)) {
                    Some(v) => chain_event(after_retry(v)),
                    None => None,
                },
            )
        }),
{
    lemma_stages(units, delta, outcomes, exits, entity);
    let begun = tick_begun(units, delta);
    let running = spawned(begun, outcomes);
    let ended = completed(running, exits);
    let kept = cleaned(ended);
    lemma_position(begun, entity);
    lemma_position(running, entity);
    lemma_position(ended, entity);
    lemma_announces(
        begun,
        |u: UnitView| started_event(u, outcome_for(outcomes, u.entity)),
        started_about(),
        entity,
    );
    lemma_announces(
        begun,
        |u: UnitView| error_event(u, outcome_for(outcomes, u.entity)),
        error_about(),
        entity,
    );
    lemma_announces(
        running,
        |u: UnitView| completed_event(u, exit_for(exits, u.entity)),
        completed_about(),
        entity,
    );
    lemma_announces(ended, |u: UnitView| despawn_event(u), despawned_about(), entity);
    lemma_announces(kept, |u: UnitView| retry_event(u), retry_about(), entity);
    lemma_announces(retried(kept), |u: UnitView| chain_event(u), chain_about(), entity);
}

/// What the host reports to the engine in one tick.
pub struct TickInput {
    /// The nanoseconds since the previous tick.
    pub delta: u64,
    pub outcomes: Seq<SpawnOutcome>,
    pub exits: Seq<ProcessExit>,
}

/// The units of the engine after one tick for each input.
pub open spec fn world_run(units: Seq<UnitView>, inputs: Seq<TickInput>) -> Seq<UnitView>
    decreases inputs.len(),
{
    if inputs.len() == 0 {
        units
    } else {
        tick_finished(
            tick_begun(world_run(units, inputs.drop_last()), inputs.last().delta),
            inputs.last().outcomes,
            inputs.last().exits,
        )
    }
}

/// What the inputs of the engine report for the unit `entity`, tick by tick.
pub open spec fn reports_for(inputs: Seq<TickInput>, entity: u64) -> Seq<Report> {
    inputs.map_values(
        |t: TickInput|
            Report {
                delta: t.delta,
                outcome: outcome_for(t.outcomes, entity),
                exit: exit_for(t.exits, entity),
            },
    )
}

/// The ticks of the engine keep its invariant.
pub proof fn law_run_keeps_invariant(units: Seq<UnitView>, inputs: Seq<TickInput>)
    requires
        units_wf(units),
    ensures
        units_wf(world_run(units, inputs)),
    decreases inputs.len(),
{
    if inputs.len() > 0 {
        let earlier = world_run(units, inputs.drop_last());
        law_run_keeps_invariant(units, inputs.drop_last());
        law_tick_keeps_invariant(
            earlier,
            inputs.last().delta,
            inputs.last().outcomes,
            inputs.last().exits,
        );
        law_tick_keeps_invariant(
            tick_begun(earlier, inputs.last().delta),
            inputs.last().delta,
            inputs.last().outcomes,
            inputs.last().exits,
        );
    }
}

/// Over any number of ticks the engine makes of each unit what [`run`]
/// makes of it alone, whatever other units there are: so what holds of the
/// runs of a unit holds of the unit in the engine.
pub proof fn law_engine_runs_each_unit(
    units: Seq<UnitView>,
    inputs: Seq<TickInput>,
    entity: u64,
)
    requires
        units_wf(units),
        lookup(units, entity) is Some,
    ensures
        lookup(world_run(units, inputs), entity) == run(
            lookup(units, entity)->0,
            reports_for(inputs, entity),
        ).unit,
    decreases inputs.len(),
{
    if inputs.len() > 0 {
        let earlier = inputs.drop_last();
        law_engine_runs_each_unit(units, earlier, entity);
        law_run_keeps_invariant(units, earlier);
        law_units_are_independent(
            world_run(units, earlier),
            inputs.last().delta,
            inputs.last().outcomes,
            inputs.last().exits,
            entity,
        );
        assert(reports_for(inputs, entity).drop_last() =~= reports_for(earlier, entity));
    } else {
        assert(reports_for(inputs, entity) =~= Seq::empty());
    }
}

} // verus!
