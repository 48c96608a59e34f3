//! The proving side of the orchestration: what is decided before a trace is
//! handed to the proof engine.

use crate::air::{
    assertions_hold, spec_assertions, step_holds, transitions_hold, AirError, ConstraintVariant,
    GpsAir, CONSTRAINT_DEGREE,
};
use crate::gps::PublicInputs;
use crate::laws::{
    lemma_built_trace_transitions, lemma_extend_preserves, lemma_own_assertions_hold,
};
use crate::normalize::{fits_trace, next_power_of_two, spec_normalize, TripError};
use crate::options::{ConfigError, ProofOptions};
use crate::segment::GpsPoint;
use crate::trace::{
    build_gps_trace_from_gpx, extract, length, spec_build, spec_extend, spec_extract,
    well_formed, width, Trace, TRACE_WIDTH,
};
use vstd::arithmetic::power2::is_pow2;
use vstd::prelude::*;

verus! {

/// The shortest trace that the proof engine takes.
pub const MIN_ENGINE_TRACE_LENGTH: usize = 8;

/// Why a trace is not handed to the engine.
#[derive(Clone, Copy, Debug, PartialEq, Eq, Structural)]
pub enum ProvingError {
    /// The trip gives no trace.
    NoTrace(TripError),
    /// The trace does not have `TRACE_WIDTH` columns.
    TraceWidthMismatch,
    /// The proof options break a rule of the engine, or the blowup factor
    /// does not exceed the degree of the constraints.
    InvalidConfiguration(ConfigError),
    /// The trace violates its own transition rule, first from this row to
    /// the next.
    ConstraintUnsatisfied(usize),
}

/// What the engine is asked to prove: a trace of at least
/// `MIN_ENGINE_TRACE_LENGTH` rows, and the statement that it is bound to.
pub struct ProofRequest {
    pub trace: Trace,
    pub pub_inputs: PublicInputs,
}

/// Holds the options under which proofs are made.
#[derive(Clone, Copy, Debug)]
pub struct GpsProver {
    options: ProofOptions,
}

impl GpsProver {
    /// The options under which proofs are made.
    pub closed spec fn spec_options(self) -> ProofOptions {
        self.options
    }

    /// A prover that works under the given options.
    pub fn new(options: ProofOptions) -> (prover: GpsProver)
        ensures
            prover.spec_options() == options,
    {
        GpsProver { options }
    }

    /// The options under which proofs are made.
    pub fn options(&self) -> (options: &ProofOptions)
        ensures
            *options == self.spec_options(),
    {
        &self.options
    }

    /// The statement of a trace: its endpoints.
    pub fn get_pub_inputs(&self, trace: &Trace) -> (inputs: PublicInputs)
        requires
            width(trace@) >= 2,
        ensures
            inputs == spec_extract(trace@),
            inputs.wf(),
    {
        extract(trace)
    }

    /// What `prepare` answers for a trace, given the prover's options.
    pub open spec fn spec_prepare(self, table: Seq<Seq<u128>>) -> Result<
        (Seq<Seq<u128>>, PublicInputs),
        ProvingError,
    > {
        if width(table) != TRACE_WIDTH {
            Err(ProvingError::TraceWidthMismatch)
        } else if !self.spec_options().valid_for(CONSTRAINT_DEGREE as nat) {
            Err(
                ProvingError::InvalidConfiguration(
                    self.spec_options().first_error(CONSTRAINT_DEGREE as nat),
                ),
            )
        } else if !transitions_hold(ConstraintVariant::TimeDeltaOnly, table) {
            Err(ProvingError::ConstraintUnsatisfied(first_broken_step(table) as usize))
        } else {
            Ok((spec_extend(table, MIN_ENGINE_TRACE_LENGTH as nat), spec_extract(table)))
        }
    }

    /// Decides whether a trace goes to the engine, and in what form: the
    /// trace must have `TRACE_WIDTH` columns, the options must be valid, and
    /// the time-aware rule must hold on every pair of consecutive rows. The
    /// request then holds the trace, continued to `MIN_ENGINE_TRACE_LENGTH`
    /// rows where it is shorter, and its statement.
    pub fn prepare(&self, trace: &Trace) -> (r: Result<ProofRequest, ProvingError>)
        ensures
            match r {
                Ok(request) => self.spec_prepare(trace@) == Ok::<
                    (Seq<Seq<u128>>, PublicInputs),
                    ProvingError,
                >((request.trace@, request.pub_inputs)),
                Err(e) => self.spec_prepare(trace@) == Err::<
                    (Seq<Seq<u128>>, PublicInputs),
                    ProvingError,
                >(e),
            },
            r matches Ok(request) ==> {
                &&& well_formed(request.trace@)
                &&& length(request.trace@) >= MIN_ENGINE_TRACE_LENGTH
                &&& request.pub_inputs == spec_extract(request.trace@)
                &&& transitions_hold(ConstraintVariant::TimeDeltaOnly, request.trace@)
                &&& assertions_hold(
                    request.trace@,
                    spec_assertions(
                        ConstraintVariant::TimeDeltaOnly,
                        request.pub_inputs,
                        length(request.trace@),
                    ),
                )
            },
    {
        proof {
            use_type_invariant(trace);
        }
        if trace.width() != TRACE_WIDTH {
            return Err(ProvingError::TraceWidthMismatch);
        }
        let pub_inputs = extract(trace);
        let air = match GpsAir::new(trace.info(), pub_inputs, self.options) {
            Ok(air) => air,
            Err(AirError::InvalidConfiguration(e)) => {
                return Err(ProvingError::InvalidConfiguration(e));
            },
            Err(AirError::TraceWidthMismatch) => {
                return Err(ProvingError::TraceWidthMismatch);
            },
        };
        if let Some(step) = air.first_broken_transition(trace) {
            proof {
                lemma_first_broken_step(trace@, step as int);
            }
            return Err(ProvingError::ConstraintUnsatisfied(step));
        }
        proof {
            assert(is_pow2(8)) by {
                reveal_with_fuel(is_pow2, 5);
            }
            lemma_extend_preserves(trace@, MIN_ENGINE_TRACE_LENGTH as nat);
        }
        let ready = trace.extended(MIN_ENGINE_TRACE_LENGTH).unwrap();
        proof {
            assert(ready@[0].len() == length(ready@));
            lemma_own_assertions_hold(ConstraintVariant::TimeDeltaOnly, ready@);
        }
        Ok(ProofRequest { trace: ready, pub_inputs })
    }

    /// Builds the trace of a trip and prepares it for the engine. A trip of
    /// at least one waypoint, of a length that a trace can have, under valid
    /// options, always gives a request: the trace that is built satisfies
    /// the time-aware rule, and the assertions made from its endpoints hold
    /// of it.
    pub fn prepare_trip(&self, points: &Vec<GpsPoint>) -> (r: Result<ProofRequest, ProvingError>)
        ensures
            match r {
                Ok(request) => {
                    let table = spec_build(spec_normalize(points@));
                    &&& points@.len() >= 1
                    &&& fits_trace(next_power_of_two(points@.len()))
                    &&& self.spec_options().valid_for(CONSTRAINT_DEGREE as nat)
                    &&& request.trace@ == spec_extend(table, MIN_ENGINE_TRACE_LENGTH as nat)
                    &&& request.pub_inputs == spec_extract(table)
                    &&& request.pub_inputs == spec_extract(request.trace@)
                    &&& well_formed(request.trace@)
                    &&& length(request.trace@) >= MIN_ENGINE_TRACE_LENGTH
                    &&& transitions_hold(ConstraintVariant::TimeDeltaOnly, request.trace@)
                    &&& assertions_hold(
                        request.trace@,
                        spec_assertions(
                            ConstraintVariant::TimeDeltaOnly,
                            request.pub_inputs,
                            length(request.trace@),
                        ),
                    )
                },
                Err(ProvingError::NoTrace(TripError::EmptyTrip)) => points@.len() == 0,
                Err(ProvingError::NoTrace(TripError::TooLong)) => points@.len() >= 1 && !fits_trace(
                    next_power_of_two(points@.len()),
                ),
                Err(ProvingError::InvalidConfiguration(e)) => {
                    &&& points@.len() >= 1
                    &&& fits_trace(next_power_of_two(points@.len()))
                    &&& !self.spec_options().valid_for(CONSTRAINT_DEGREE as nat)
                    &&& e == self.spec_options().first_error(CONSTRAINT_DEGREE as nat)
                },
                Err(_) => false,
            },
    {
        let trace = match build_gps_trace_from_gpx(points) {
            Ok(trace) => trace,
            Err(e) => {
                return Err(ProvingError::NoTrace(e));
            },
        };
        proof {
            lemma_built_trace_transitions(spec_normalize(points@));
        }
        self.prepare(&trace)
    }
}

/// The first row from which the time-aware rule does not hold to the next,
/// in a table that has one.
pub open spec fn first_broken_step(table: Seq<Seq<u128>>) -> int {
    choose|step: int|
        0 <= step < length(table) - 1 && !step_holds(
            ConstraintVariant::TimeDeltaOnly,
            table,
            step,
        ) && forall|j: int|
            0 <= j < step ==> #[trigger] step_holds(ConstraintVariant::TimeDeltaOnly, table, j)
}

/// There is one first broken step.
pub proof fn lemma_first_broken_step(table: Seq<Seq<u128>>, step: int)
    requires
        0 <= step < length(table) - 1,
        !step_holds(ConstraintVariant::TimeDeltaOnly, table, step),
        forall|j: int|
            0 <= j < step ==> #[trigger] step_holds(ConstraintVariant::TimeDeltaOnly, table, j),
    ensures
        first_broken_step(table) == step,
        !transitions_hold(ConstraintVariant::TimeDeltaOnly, table),
{
    let other = first_broken_step(table);
    if other < step {
        assert(step_holds(ConstraintVariant::TimeDeltaOnly, table, other));
    }
    if step < other {
        assert(step_holds(ConstraintVariant::TimeDeltaOnly, table, step));
    }
}

} // verus!
