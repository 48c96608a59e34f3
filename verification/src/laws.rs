//! What holds of the trace builder, the constraint system and the extractor
//! taken together.

use crate::air::{
    assertion_holds, assertions_hold, spec_assertions, spec_transition, step_holds,
    transitions_hold, ConstraintVariant,
};
use crate::field::{canon, is_canonical, lemma_canon_absorb, lemma_canon_range};
use crate::gps::PublicInputs;
use crate::normalize::{
    fits_trace, lemma_next_power_of_two, lemma_next_power_of_two_fixed,
    lemma_next_power_of_two_least, lemma_pow2_positive, next_power_of_two, spec_normalize,
    spec_step, NormalizedStep,
};
use crate::segment::GpsPoint;
use crate::trace::{
    length, rectangular, row, spec_build, spec_extend, spec_extract, well_formed, width,
    LAT_COLUMN, LON_COLUMN, TIME_COLUMN, TIME_DELTA_COLUMN, TRACE_WIDTH,
};
use vstd::arithmetic::power2::is_pow2;
use vstd::prelude::*;

verus! {

/// The time elapsed between two instants, computed in the field, is the
/// difference of their canonical forms: the time-aware rule is zero on them.
pub proof fn lemma_elapsed_consistent(after: int, before: int)
    ensures
        canon(canon(after - before) - (canon(after) - canon(before))) == 0,
{
    let spread = canon(after) - canon(before);
    let partial = after - before - canon(after);
    lemma_canon_absorb(after - before, spread);
    assert(canon(canon(after - before) - spread) == canon((after - before) - spread));
    assert((after - before) - spread == partial + canon(before));
    lemma_canon_absorb(partial, before);
    assert(canon(partial + canon(before)) == canon(partial + before));
    assert(partial + before == after - canon(after));
    lemma_canon_absorb(after, after);
    assert(canon(after - canon(after)) == canon(after - after));
    lemma_canon_range(0);
}

/// The trace built from any steps satisfies the time-aware rule on every
/// pair of consecutive rows.
pub proof fn lemma_built_trace_transitions(steps: Seq<NormalizedStep>)
    ensures
        transitions_hold(ConstraintVariant::TimeDeltaOnly, spec_build(steps)),
{
    let table = spec_build(steps);
    let variant = ConstraintVariant::TimeDeltaOnly;
    assert forall|step: int| 0 <= step < length(table) - 1 implies #[trigger] step_holds(
        variant,
        table,
        step,
    ) by {
        let current = row(table, step);
        let next = row(table, step + 1);
        let before = steps[step].time as int;
        let after = steps[step + 1].time as int;
        lemma_canon_range(before);
        lemma_canon_range(after);
        lemma_canon_range(after - before);
        assert(current[TIME_COLUMN as int] == canon(before));
        assert(next[TIME_COLUMN as int] == canon(after));
        assert(next[TIME_DELTA_COLUMN as int] == canon(after - before));
        lemma_elapsed_consistent(after, before);
        assert(spec_transition(variant, current, next)[0] == 0);
    }
}

/// The assertions made from the endpoints of a table hold of that table.
pub proof fn lemma_own_assertions_hold(variant: ConstraintVariant, table: Seq<Seq<u128>>)
    requires
        width(table) >= variant.spec_width(),
        length(table) >= 1,
        length(table) <= usize::MAX,
        rectangular(table),
    ensures
        assertions_hold(table, spec_assertions(variant, spec_extract(table), length(table))),
{
    let assertions = spec_assertions(variant, spec_extract(table), length(table));
    assert forall|k: int| 0 <= k < assertions.len() implies assertion_holds(
        table,
        #[trigger] assertions[k],
    ) by {
        assert(table[LAT_COLUMN as int].len() == table[0].len());
        assert(table[LON_COLUMN as int].len() == table[0].len());
        if variant == ConstraintVariant::TimeDeltaOnly {
            assert(table[TIME_COLUMN as int].len() == table[0].len());
        }
    }
}

/// The assertions come in the order of the statement's elements: the value
/// that assertion `k` pins is element `k` of the statement.
pub proof fn lemma_assertions_in_statement_order(
    variant: ConstraintVariant,
    inputs: PublicInputs,
    length: nat,
)
    ensures
        spec_assertions(variant, inputs, length).len() == variant.spec_num_assertions(),
        forall|k: int|
            0 <= k < variant.spec_num_assertions() ==> (#[trigger] spec_assertions(
                variant,
                inputs,
                length,
            )[k]).value == inputs.elements()[k],
{
}

/// The time-aware assertions bind the whole statement: they hold of a table
/// for the endpoints of that table and for no other statement.
pub proof fn lemma_assertions_bind(table: Seq<Seq<u128>>, inputs: PublicInputs)
    requires
        width(table) >= ConstraintVariant::TimeDeltaOnly.spec_width(),
        length(table) >= 1,
        length(table) <= usize::MAX,
        rectangular(table),
    ensures
        assertions_hold(
            table,
            spec_assertions(ConstraintVariant::TimeDeltaOnly, inputs, length(table)),
        ) <==> inputs == spec_extract(table),
{
    let variant = ConstraintVariant::TimeDeltaOnly;
    let assertions = spec_assertions(variant, inputs, length(table));
    if inputs == spec_extract(table) {
        lemma_own_assertions_hold(variant, table);
    }
    if assertions_hold(table, assertions) {
        assert(assertion_holds(table, assertions[0]));
        assert(assertion_holds(table, assertions[1]));
        assert(assertion_holds(table, assertions[2]));
        assert(assertion_holds(table, assertions[3]));
        assert(assertion_holds(table, assertions[4]));
        assert(assertion_holds(table, assertions[5]));
    }
}

/// The unit-step assertions bind the four coordinates of the statement.
pub proof fn lemma_unit_step_assertions_bind(table: Seq<Seq<u128>>, inputs: PublicInputs)
    requires
        width(table) >= ConstraintVariant::UnitStep.spec_width(),
        length(table) >= 1,
        length(table) <= usize::MAX,
        rectangular(table),
    ensures
        assertions_hold(table, spec_assertions(ConstraintVariant::UnitStep, inputs, length(table)))
            <==> {
            &&& inputs.lat == spec_extract(table).lat
            &&& inputs.lon == spec_extract(table).lon
            &&& inputs.next_lat == spec_extract(table).next_lat
            &&& inputs.next_lon == spec_extract(table).next_lon
        },
{
    let variant = ConstraintVariant::UnitStep;
    let assertions = spec_assertions(variant, inputs, length(table));
    assert(table[LAT_COLUMN as int].len() == table[0].len());
    assert(table[LON_COLUMN as int].len() == table[0].len());
    if assertions_hold(table, assertions) {
        assert(assertion_holds(table, assertions[0]));
        assert(assertion_holds(table, assertions[1]));
        assert(assertion_holds(table, assertions[2]));
        assert(assertion_holds(table, assertions[3]));
    }
}

/// A trip of at least one waypoint gives a trace that its own constraint
/// system accepts: every transition rule is zero on it, and the assertions
/// made from its endpoints hold of it.
pub proof fn lemma_honest_trace_accepted(points: Seq<GpsPoint>)
    requires
        points.len() >= 1,
        fits_trace(next_power_of_two(points.len())),
    ensures
        ({
            let table = spec_build(spec_normalize(points));
            &&& well_formed(table)
            &&& width(table) == TRACE_WIDTH
            &&& length(table) == next_power_of_two(points.len())
            &&& transitions_hold(ConstraintVariant::TimeDeltaOnly, table)
            &&& assertions_hold(
                table,
                spec_assertions(
                    ConstraintVariant::TimeDeltaOnly,
                    spec_extract(table),
                    length(table),
                ),
            )
        }),
{
    let steps = spec_normalize(points);
    let table = spec_build(steps);
    lemma_next_power_of_two(points.len());
    lemma_built_trace_transitions(steps);
    lemma_built_trace_well_formed(steps);
    lemma_own_assertions_hold(ConstraintVariant::TimeDeltaOnly, table);
}

/// The trace of a power-of-two number of steps is well formed.
pub proof fn lemma_built_trace_well_formed(steps: Seq<NormalizedStep>)
    requires
        is_pow2(steps.len() as int),
        fits_trace(steps.len()),
    ensures
        well_formed(spec_build(steps)),
        width(spec_build(steps)) == TRACE_WIDTH,
        length(spec_build(steps)) == steps.len(),
{
    let table = spec_build(steps);
    assert forall|c: int, r: int|
        0 <= c < table.len() && 0 <= r < table[c].len() implies is_canonical(
        #[trigger] table[c][r],
    ) by {
        lemma_canon_range(steps[r].lat_fixed as int);
        lemma_canon_range(steps[r].lon_fixed as int);
        lemma_canon_range(steps[r].time as int);
        if r > 0 {
            lemma_canon_range(steps[r].time - steps[r - 1].time);
        }
    }
}

/// Padding: a trip of `L >= 1` waypoints is normalized to the smallest power
/// of two that is not below `L`, which is `L` itself when `L` is a power of
/// two; the waypoints come first, unchanged; and every row added after them
/// repeats the last waypoint with no time elapsed.
pub proof fn lemma_padding(points: Seq<GpsPoint>)
    requires
        points.len() >= 1,
    ensures
        ({
            let steps = spec_normalize(points);
            let table = spec_build(steps);
            &&& steps.len() == next_power_of_two(points.len())
            &&& is_pow2(steps.len() as int)
            &&& steps.len() >= points.len()
            &&& forall|p: int| is_pow2(p) && p >= points.len() ==> steps.len() <= p
            &&& is_pow2(points.len() as int) ==> steps.len() == points.len()
            &&& forall|i: int| 0 <= i < points.len() ==> #[trigger] steps[i] == spec_step(points[i])
            &&& forall|i: int|
                points.len() <= i < steps.len() ==> #[trigger] steps[i] == spec_step(points.last())
            &&& forall|i: int|
                points.len() <= i < steps.len() ==> #[trigger] table[TIME_DELTA_COLUMN as int][i]
                    == 0
        }),
{
    let steps = spec_normalize(points);
    let table = spec_build(steps);
    lemma_next_power_of_two(points.len());
    assert forall|p: int| is_pow2(p) && p >= points.len() implies steps.len() <= p by {
        lemma_next_power_of_two_least(points.len(), p);
    }
    if is_pow2(points.len() as int) {
        lemma_next_power_of_two_fixed(points.len());
    }
    let elapsed = table[TIME_DELTA_COLUMN as int];
    assert forall|i: int| points.len() <= i < steps.len() implies #[trigger] elapsed[i] == 0 by {
        assert(steps[i].time == steps[i - 1].time);
        lemma_canon_range(0);
    }
}

/// A trip of one waypoint has a trace of one row, and its statement starts
/// where and when it ends.
pub proof fn lemma_degenerate_trip(points: Seq<GpsPoint>)
    requires
        points.len() == 1,
    ensures
        ({
            let table = spec_build(spec_normalize(points));
            let inputs = spec_extract(table);
            &&& length(table) == 1
            &&& inputs.lat == inputs.next_lat
            &&& inputs.lon == inputs.next_lon
            &&& inputs.time == inputs.next_time
            &&& transitions_hold(ConstraintVariant::TimeDeltaOnly, table)
            &&& assertions_hold(
                table,
                spec_assertions(ConstraintVariant::TimeDeltaOnly, inputs, 1),
            )
        }),
{
    let steps = spec_normalize(points);
    let table = spec_build(steps);
    assert(next_power_of_two(1) == 1);
    lemma_built_trace_transitions(steps);
    assert(rectangular(table));
    lemma_own_assertions_hold(ConstraintVariant::TimeDeltaOnly, table);
}

/// Continuing a trace changes neither its endpoints nor whether the
/// time-aware rule holds of it.
pub proof fn lemma_extend_preserves(table: Seq<Seq<u128>>, rows: nat)
    requires
        well_formed(table),
        width(table) == TRACE_WIDTH,
    ensures
        spec_extract(spec_extend(table, rows)) == spec_extract(table),
        transitions_hold(ConstraintVariant::TimeDeltaOnly, table) ==> transitions_hold(
            ConstraintVariant::TimeDeltaOnly,
            spec_extend(table, rows),
        ),
{
    let variant = ConstraintVariant::TimeDeltaOnly;
    let extended = spec_extend(table, rows);
    let n = length(table);
    lemma_pow2_positive(n as int);
    assert(table[LAT_COLUMN as int].len() == n);
    assert(table[LON_COLUMN as int].len() == n);
    assert(table[TIME_COLUMN as int].len() == n);
    assert(table[TIME_DELTA_COLUMN as int].len() == n);
    if transitions_hold(variant, table) {
        assert forall|step: int| 0 <= step < length(extended) - 1 implies #[trigger] step_holds(
            variant,
            extended,
            step,
        ) by {
            let current = row(extended, step);
            let next = row(extended, step + 1);
            if step + 1 < n {
                assert(step_holds(variant, table, step));
                assert(spec_transition(variant, row(table, step), row(table, step + 1))[0] == 0);
                assert(current[TIME_COLUMN as int] == row(table, step)[TIME_COLUMN as int]);
                assert(next[TIME_COLUMN as int] == row(table, step + 1)[TIME_COLUMN as int]);
                assert(next[TIME_DELTA_COLUMN as int] == table[TIME_DELTA_COLUMN as int][step + 1]);
            } else {
                assert(next[TIME_DELTA_COLUMN as int] == 0);
                assert(next[TIME_COLUMN as int] == current[TIME_COLUMN as int]);
                lemma_canon_range(0);
            }
            assert(spec_transition(variant, current, next)[0] == 0);
        }
    }
}

} // verus!
