//! Parameters of the proof engine, and the rules they have to meet.

use crate::normalize::is_power_of_two;
use vstd::arithmetic::power2::is_pow2;
use vstd::prelude::*;

verus! {

/// The most queries a proof can hold.
pub const MAX_NUM_QUERIES: u32 = 255;

/// The smallest blowup factor there is.
pub const MIN_BLOWUP_FACTOR: u32 = 2;

/// The largest blowup factor there is.
pub const MAX_BLOWUP_FACTOR: u32 = 128;

/// The largest grinding factor there is.
pub const MAX_GRINDING_FACTOR: u32 = 32;

/// The smallest FRI folding factor there is.
pub const FRI_MIN_FOLDING_FACTOR: u32 = 2;

/// The largest FRI folding factor there is.
pub const FRI_MAX_FOLDING_FACTOR: u32 = 16;

/// The largest bound there is on the degree of the FRI remainder.
pub const FRI_MAX_REMAINDER_DEGREE: u32 = 255;

/// The field in which the engine composes the constraints.
#[derive(Clone, Copy, Debug, PartialEq, Eq, Structural)]
pub enum FieldExtension {
    /// The base field itself: no extension.
    Base,
    /// Its quadratic extension.
    Quadratic,
    /// Its cubic extension.
    Cubic,
}

/// What is wrong with a set of proof options: the first rule, in the order of
/// the fields, that they break.
#[derive(Clone, Copy, Debug, PartialEq, Eq, Structural)]
pub enum ConfigError {
    /// The number of queries is 0 or above `MAX_NUM_QUERIES`.
    NumQueries,
    /// The blowup factor is not a power of two between `MIN_BLOWUP_FACTOR` and
    /// `MAX_BLOWUP_FACTOR`.
    BlowupFactor,
    /// The blowup factor does not exceed the highest constraint degree.
    BlowupBelowDegree,
    /// The grinding factor is above `MAX_GRINDING_FACTOR`.
    GrindingFactor,
    /// The FRI folding factor is not 2, 4, 8 or 16.
    FoldingFactor,
    /// The bound on the FRI remainder's degree is above
    /// `FRI_MAX_REMAINDER_DEGREE` or is not one less than a power of two.
    RemainderDegree,
}

/// Parameters handed to the proof engine, the same for prover and verifier.
#[derive(Clone, Copy, Debug, PartialEq, Eq, Structural)]
pub struct ProofOptions {
    pub num_queries: u32,
    pub blowup_factor: u32,
    pub grinding_factor: u32,
    pub field_extension: FieldExtension,
    pub fri_folding_factor: u32,
    pub fri_remainder_max_degree: u32,
}

impl ProofOptions {
    /// The number of queries is in range.
    pub open spec fn queries_ok(self) -> bool {
        1 <= self.num_queries <= MAX_NUM_QUERIES
    }

    /// The blowup factor is a power of two in range.
    pub open spec fn blowup_ok(self) -> bool {
        &&& is_pow2(self.blowup_factor as int)
        &&& MIN_BLOWUP_FACTOR <= self.blowup_factor <= MAX_BLOWUP_FACTOR
    }

    /// The grinding factor is in range.
    pub open spec fn grinding_ok(self) -> bool {
        self.grinding_factor <= MAX_GRINDING_FACTOR
    }

    /// The folding factor is a power of two in range.
    pub open spec fn folding_ok(self) -> bool {
        &&& is_pow2(self.fri_folding_factor as int)
        &&& FRI_MIN_FOLDING_FACTOR <= self.fri_folding_factor <= FRI_MAX_FOLDING_FACTOR
    }

    /// The remainder bound is in range and one less than a power of two.
    pub open spec fn remainder_ok(self) -> bool {
        &&& self.fri_remainder_max_degree <= FRI_MAX_REMAINDER_DEGREE
        &&& is_pow2(self.fri_remainder_max_degree + 1)
    }

    /// The options meet every rule of the engine, and the blowup factor
    /// exceeds `max_degree`, the highest degree of a constraint.
    pub open spec fn valid_for(self, max_degree: nat) -> bool {
        &&& self.queries_ok()
        &&& self.blowup_ok()
        &&& self.blowup_factor > max_degree
        &&& self.grinding_ok()
        &&& self.folding_ok()
        &&& self.remainder_ok()
    }

    /// The first rule that the options break.
    pub open spec fn first_error(self, max_degree: nat) -> ConfigError {
        if !self.queries_ok() {
            ConfigError::NumQueries
        } else if !self.blowup_ok() {
            ConfigError::BlowupFactor
        } else if self.blowup_factor <= max_degree {
            ConfigError::BlowupBelowDegree
        } else if !self.grinding_ok() {
            ConfigError::GrindingFactor
        } else if !self.folding_ok() {
            ConfigError::FoldingFactor
        } else {
            ConfigError::RemainderDegree
        }
    }

    /// Puts six parameters together. Nothing is checked here: see `validate`.
    pub fn new(
        num_queries: u32,
        blowup_factor: u32,
        grinding_factor: u32,
        field_extension: FieldExtension,
        fri_folding_factor: u32,
        fri_remainder_max_degree: u32,
    ) -> (options: ProofOptions)
        ensures
            options == (ProofOptions {
                num_queries,
                blowup_factor,
                grinding_factor,
                field_extension,
                fri_folding_factor,
                fri_remainder_max_degree,
            }),
    {
        ProofOptions {
            num_queries,
            blowup_factor,
            grinding_factor,
            field_extension,
            fri_folding_factor,
            fri_remainder_max_degree,
        }
    }

    /// The options that trips are proved under unless others are chosen: 32
    /// queries, blowup factor 16, no grinding, no field extension, FRI
    /// folding factor 8 and remainder degree at most 127.
    pub fn standard() -> (options: ProofOptions)
        ensures
            options == (ProofOptions {
                num_queries: 32,
                blowup_factor: 16,
                grinding_factor: 0,
                field_extension: FieldExtension::Base,
                fri_folding_factor: 8,
                fri_remainder_max_degree: 127,
            }),
            options.valid_for(1),
    {
        proof {
            reveal_with_fuel(is_pow2, 9);
        }
        ProofOptions {
            num_queries: 32,
            blowup_factor: 16,
            grinding_factor: 0,
            field_extension: FieldExtension::Base,
            fri_folding_factor: 8,
            fri_remainder_max_degree: 127,
        }
    }

    /// Checks the options against the engine's rules and against the highest
    /// degree of a constraint.
    pub fn validate(&self, max_degree: usize) -> (r: Result<(), ConfigError>)
        ensures
            r is Ok <==> self.valid_for(max_degree as nat),
            r matches Err(e) ==> e == self.first_error(max_degree as nat),
    {
        if self.num_queries == 0 || self.num_queries > MAX_NUM_QUERIES {
            return Err(ConfigError::NumQueries);
        }
        if self.blowup_factor < MIN_BLOWUP_FACTOR || self.blowup_factor > MAX_BLOWUP_FACTOR
            || !is_power_of_two(self.blowup_factor as usize) {
            return Err(ConfigError::BlowupFactor);
        }
        if self.blowup_factor as usize <= max_degree {
            return Err(ConfigError::BlowupBelowDegree);
        }
        if self.grinding_factor > MAX_GRINDING_FACTOR {
            return Err(ConfigError::GrindingFactor);
        }
        if self.fri_folding_factor < FRI_MIN_FOLDING_FACTOR || self.fri_folding_factor
            > FRI_MAX_FOLDING_FACTOR || !is_power_of_two(self.fri_folding_factor as usize) {
            return Err(ConfigError::FoldingFactor);
        }
        if self.fri_remainder_max_degree > FRI_MAX_REMAINDER_DEGREE || !is_power_of_two(
            (self.fri_remainder_max_degree + 1) as usize,
        ) {
            return Err(ConfigError::RemainderDegree);
        }
        Ok(())
    }
}

} // verus!
