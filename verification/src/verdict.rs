//! The verifying side of the orchestration: the threshold that a proof is
//! held to, and the verdict drawn from what the proof engine answers.

use crate::air::CONSTRAINT_DEGREE;
use crate::gps::PublicInputs;
use crate::options::ProofOptions;
use crate::trace::{shape_ok, TraceInfo, TRACE_WIDTH};
use vstd::prelude::*;

verus! {

/// The least conjectured security, in bits, that a proof must offer.
pub const MIN_CONJECTURED_SECURITY: u32 = 95;

/// What the engine's verifier can find against a proof.
#[derive(Clone, Copy, Debug, PartialEq, Eq, Structural)]
pub enum EngineFailure {
    /// The auxiliary proof did not verify.
    GkrProofVerificationFailed,
    /// The proof was made over another base field.
    InconsistentBaseField,
    /// The base field has no extension of the degree that the proof names.
    UnsupportedFieldExtension(usize),
    /// The proof could not be read.
    ProofDeserializationError,
    /// No random value could be drawn from the public coin.
    RandomCoinError,
    /// The constraints, evaluated out of domain, do not match the composition
    /// polynomial.
    InconsistentOodConstraintEvaluations,
    /// The trace queries do not open against the commitment.
    TraceQueryDoesNotMatchCommitment,
    /// The constraint queries do not open against the commitment.
    ConstraintQueryDoesNotMatchCommitment,
    /// The proof-of-work nonce does not meet the threshold.
    QuerySeedProofOfWorkVerificationFailed,
    /// The low-degree test failed.
    FriVerificationFailed,
    /// The proof offers `provided` bits of conjectured security where
    /// `required` are asked.
    InsufficientConjecturedSecurity { required: u32, provided: u32 },
    /// The proof offers `provided` bits of proven security where `required`
    /// are asked.
    InsufficientProvenSecurity { required: u32, provided: u32 },
    /// The proof's options are none of those that the verifier accepts.
    UnacceptableProofOptions,
}

/// Why a claimed trip is not accepted.
#[derive(Clone, Copy, Debug, PartialEq, Eq, Structural)]
pub enum VerificationError {
    /// A value of the statement is not a canonical field element.
    MalformedStatement,
    /// The proof cannot be read as a proof for this constraint system.
    MalformedProof,
    /// The hidden trace does not satisfy the constraints for the statement.
    ConstraintUnsatisfied,
    /// What the proof opens does not match what it committed to.
    CommitmentMismatch,
    /// The proof's parameters offer less security than is asked.
    SecurityBelowThreshold,
}

/// The reason that stands for each finding of the engine.
pub open spec fn spec_classify(failure: EngineFailure) -> VerificationError {
    match failure {
        EngineFailure::GkrProofVerificationFailed
        | EngineFailure::InconsistentBaseField
        | EngineFailure::UnsupportedFieldExtension(_)
        | EngineFailure::ProofDeserializationError => VerificationError::MalformedProof,
        EngineFailure::InconsistentOodConstraintEvaluations
        | EngineFailure::FriVerificationFailed => VerificationError::ConstraintUnsatisfied,
        EngineFailure::RandomCoinError
        | EngineFailure::TraceQueryDoesNotMatchCommitment
        | EngineFailure::ConstraintQueryDoesNotMatchCommitment
        | EngineFailure::QuerySeedProofOfWorkVerificationFailed =>
            VerificationError::CommitmentMismatch,
        EngineFailure::InsufficientConjecturedSecurity { .. }
        | EngineFailure::InsufficientProvenSecurity { .. }
        | EngineFailure::UnacceptableProofOptions => VerificationError::SecurityBelowThreshold,
    }
}

/// The verdict on a statement, given what the engine answered for it: a
/// statement out of the field is refused whatever the engine said.
pub open spec fn spec_verdict(
    inputs: PublicInputs,
    outcome: Result<(), EngineFailure>,
) -> Result<(), VerificationError> {
    if !inputs.wf() {
        Err(VerificationError::MalformedStatement)
    } else {
        match outcome {
            Ok(()) => Ok(()),
            Err(failure) => Err(spec_classify(failure)),
        }
    }
}

/// Whether a proof that names this trace shape and these options can be a
/// proof for the time-aware constraint system: the shape is one that a trace
/// of `TRACE_WIDTH` columns can have, and the options are valid.
pub open spec fn spec_admits(trace_width: nat, trace_length: nat, options: ProofOptions) -> bool {
    &&& trace_width == TRACE_WIDTH
    &&& shape_ok(trace_width, trace_length)
    &&& options.valid_for(CONSTRAINT_DEGREE as nat)
}

/// Looks at what a proof says of itself before the engine is asked: a proof
/// for another trace shape, or made under options that are not valid, is
/// malformed, and the constraint system cannot even be made for it.
pub fn admit_proof(trace_width: usize, trace_length: usize, options: ProofOptions) -> (r: Result<
    TraceInfo,
    VerificationError,
>)
    ensures
        r is Ok <==> spec_admits(trace_width as nat, trace_length as nat, options),
        r matches Ok(info) ==> info.spec_width() == trace_width && info.spec_length()
            == trace_length,
        r matches Err(e) ==> e == VerificationError::MalformedProof,
{
    if trace_width != TRACE_WIDTH {
        return Err(VerificationError::MalformedProof);
    }
    match options.validate(CONSTRAINT_DEGREE) {
        Ok(()) => {},
        Err(_) => {
            return Err(VerificationError::MalformedProof);
        },
    }
    match TraceInfo::new(trace_width, trace_length) {
        Some(info) => Ok(info),
        None => Err(VerificationError::MalformedProof),
    }
}

/// The reason that stands for a finding of the engine.
pub fn classify(failure: EngineFailure) -> (reason: VerificationError)
    ensures
        reason == spec_classify(failure),
{
    match failure {
        EngineFailure::GkrProofVerificationFailed
        | EngineFailure::InconsistentBaseField
        | EngineFailure::UnsupportedFieldExtension(_)
        | EngineFailure::ProofDeserializationError => VerificationError::MalformedProof,
        EngineFailure::InconsistentOodConstraintEvaluations
        | EngineFailure::FriVerificationFailed => VerificationError::ConstraintUnsatisfied,
        EngineFailure::RandomCoinError
        | EngineFailure::TraceQueryDoesNotMatchCommitment
        | EngineFailure::ConstraintQueryDoesNotMatchCommitment
        | EngineFailure::QuerySeedProofOfWorkVerificationFailed =>
            VerificationError::CommitmentMismatch,
        EngineFailure::InsufficientConjecturedSecurity { .. }
        | EngineFailure::InsufficientProvenSecurity { .. }
        | EngineFailure::UnacceptableProofOptions => VerificationError::SecurityBelowThreshold,
    }
}

/// The verdict on the trip that starts at `lat`, `lon` and `time` and ends at
/// `next_lat`, `next_lon` and `next_time`, given what the engine answered
/// when it was handed the proof and that statement.
pub fn verify_gps_trip(
    lat: u128,
    lon: u128,
    next_lat: u128,
    next_lon: u128,
    time: u128,
    next_time: u128,
    outcome: Result<(), EngineFailure>,
) -> (r: Result<(), VerificationError>)
    ensures
        r == spec_verdict(
            (PublicInputs { lat, lon, next_lat, next_lon, time, next_time }),
            outcome,
        ),
{
    let pub_inputs = PublicInputs { lat, lon, next_lat, next_lon, time, next_time };
    if !pub_inputs.is_canonical() {
        return Err(VerificationError::MalformedStatement);
    }
    match outcome {
        Ok(()) => Ok(()),
        Err(failure) => Err(classify(failure)),
    }
}

} // verus!
