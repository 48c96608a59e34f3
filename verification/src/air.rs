//! The trip constraint system: transition rules between consecutive rows of a
//! trace, and boundary assertions that pin its first and last rows to the
//! public statement.
//!
//! Every transition rule is affine: a signed sum of cells of the current and
//! the next row, plus a constant. The rules are data, so that whoever
//! evaluates them over another field reads the same table.

use crate::field::{canon, embed_signed, field_add, field_sub, is_canonical, lemma_canon_absorb};
use crate::gps::PublicInputs;
use crate::options::{ConfigError, ProofOptions};
use crate::trace::{
    length, row, well_formed, width, Trace, TraceInfo, LAT_COLUMN, LON_COLUMN, TIME_COLUMN,
    TIME_DELTA_COLUMN,
};
use vstd::prelude::*;

verus! {

/// The degree of every transition rule.
pub const CONSTRAINT_DEGREE: usize = 1;

/// Which rule set is in force.
#[derive(Clone, Copy, Debug, PartialEq, Eq, Structural)]
pub enum ConstraintVariant {
    /// Two columns; latitude and longitude each grow by one unit per step.
    UnitStep,
    /// Four columns; the time-delta column holds the time elapsed since the
    /// row before. Latitude and longitude are free.
    TimeDeltaOnly,
}

impl ConstraintVariant {
    /// Number of columns of the traces that the variant speaks of.
    pub open spec fn spec_width(self) -> nat {
        match self {
            ConstraintVariant::UnitStep => 2,
            ConstraintVariant::TimeDeltaOnly => 4,
        }
    }

    /// Number of transition rules.
    pub open spec fn spec_num_constraints(self) -> nat {
        match self {
            ConstraintVariant::UnitStep => 2,
            ConstraintVariant::TimeDeltaOnly => 1,
        }
    }

    /// Number of boundary assertions.
    pub open spec fn spec_num_assertions(self) -> nat {
        match self {
            ConstraintVariant::UnitStep => 4,
            ConstraintVariant::TimeDeltaOnly => 6,
        }
    }

    /// Number of columns of the traces that the variant speaks of.
    pub fn width(&self) -> (w: usize)
        ensures
            w == self.spec_width(),
    {
        match self {
            ConstraintVariant::UnitStep => 2,
            ConstraintVariant::TimeDeltaOnly => 4,
        }
    }

    /// Number of transition rules.
    pub fn num_constraints(&self) -> (n: usize)
        ensures
            n == self.spec_num_constraints(),
    {
        match self {
            ConstraintVariant::UnitStep => 2,
            ConstraintVariant::TimeDeltaOnly => 1,
        }
    }

    /// Number of boundary assertions.
    pub fn num_assertions(&self) -> (n: usize)
        ensures
            n == self.spec_num_assertions(),
    {
        match self {
            ConstraintVariant::UnitStep => 4,
            ConstraintVariant::TimeDeltaOnly => 6,
        }
    }
}

/// What every transition rule must evaluate to on consecutive rows of an
/// honest trace is zero; this is what each evaluates to.
///
/// `UnitStep`: `next.lat - (current.lat + 1)` and `next.lon - (current.lon + 1)`.
/// `TimeDeltaOnly`: `next.time_delta - (next.time - current.time)`.
pub open spec fn spec_transition(
    variant: ConstraintVariant,
    current: Seq<u128>,
    next: Seq<u128>,
) -> Seq<int> {
    match variant {
        ConstraintVariant::UnitStep => seq![
            canon(next[LAT_COLUMN as int] - (current[LAT_COLUMN as int] + 1)),
            canon(next[LON_COLUMN as int] - (current[LON_COLUMN as int] + 1)),
        ],
        ConstraintVariant::TimeDeltaOnly => seq![
            canon(
                next[TIME_DELTA_COLUMN as int] - (next[TIME_COLUMN as int]
                    - current[TIME_COLUMN as int]),
            ),
        ],
    }
}

/// One summand of a rule: a cell of the current or the next row, added or
/// subtracted.
#[derive(Clone, Copy, Debug, PartialEq, Eq, Structural)]
pub struct Term {
    pub next_row: bool,
    pub column: usize,
    pub negative: bool,
}

/// An affine transition rule: the sum of its terms and its constant.
#[derive(Clone, Debug)]
pub struct Rule {
    pub terms: Vec<Term>,
    pub constant: i64,
}

/// The rules of a variant, each as its terms and its constant.
pub open spec fn spec_rules(variant: ConstraintVariant) -> Seq<(Seq<Term>, int)> {
    match variant {
        ConstraintVariant::UnitStep => seq![
            (
                seq![
                    Term { next_row: true, column: LAT_COLUMN, negative: false },
                    Term { next_row: false, column: LAT_COLUMN, negative: true },
                ],
                -1int,
            ),
            (
                seq![
                    Term { next_row: true, column: LON_COLUMN, negative: false },
                    Term { next_row: false, column: LON_COLUMN, negative: true },
                ],
                -1int,
            ),
        ],
        ConstraintVariant::TimeDeltaOnly => seq![
            (
                seq![
                    Term { next_row: true, column: TIME_DELTA_COLUMN, negative: false },
                    Term { next_row: true, column: TIME_COLUMN, negative: true },
                    Term { next_row: false, column: TIME_COLUMN, negative: false },
                ],
                0int,
            ),
        ],
    }
}

/// What one term contributes, as an integer.
pub open spec fn term_value(term: Term, current: Seq<u128>, next: Seq<u128>) -> int {
    let cell = if term.next_row {
        next[term.column as int]
    } else {
        current[term.column as int]
    };
    if term.negative {
        -(cell as int)
    } else {
        cell as int
    }
}

/// The sum of the terms, as an integer.
pub open spec fn terms_sum(terms: Seq<Term>, current: Seq<u128>, next: Seq<u128>) -> int
    decreases terms.len(),
{
    if terms.len() == 0 {
        0
    } else {
        terms_sum(terms.drop_last(), current, next) + term_value(terms.last(), current, next)
    }
}

/// What a rule evaluates to in the field.
pub open spec fn rule_value(
    terms: Seq<Term>,
    constant: int,
    current: Seq<u128>,
    next: Seq<u128>,
) -> int {
    canon(constant + terms_sum(terms, current, next))
}

/// All terms read columns below `width`.
pub open spec fn terms_within(terms: Seq<Term>, width: nat) -> bool {
    forall|k: int| 0 <= k < terms.len() ==> (#[trigger] terms[k]).column < width
}

/// The rule table of a variant says what `spec_transition` says.
pub proof fn lemma_rules_match_transition(
    variant: ConstraintVariant,
    current: Seq<u128>,
    next: Seq<u128>,
)
    ensures
        spec_rules(variant).len() == variant.spec_num_constraints(),
        spec_transition(variant, current, next).len() == variant.spec_num_constraints(),
        forall|k: int|
            0 <= k < spec_rules(variant).len() ==> rule_value(
                (#[trigger] spec_rules(variant)[k]).0,
                spec_rules(variant)[k].1,
                current,
                next,
            ) == spec_transition(variant, current, next)[k],
        forall|k: int|
            0 <= k < spec_rules(variant).len() ==> terms_within(
                (#[trigger] spec_rules(variant)[k]).0,
                variant.spec_width(),
            ),
{
    reveal_with_fuel(terms_sum, 4);
    let rules = spec_rules(variant);
    assert forall|k: int| 0 <= k < rules.len() implies rule_value(
        (#[trigger] rules[k]).0,
        rules[k].1,
        current,
        next,
    ) == spec_transition(variant, current, next)[k] by {
        let terms = rules[k].0;
        if terms.len() == 2 {
            assert(terms.drop_last().drop_last().len() == 0);
            assert(terms.drop_last().last() == terms[0]);
            assert(terms_sum(terms, current, next) == term_value(terms[0], current, next)
                + term_value(terms[1], current, next));
        } else {
            assert(terms.drop_last().drop_last().drop_last().len() == 0);
            assert(terms.drop_last().drop_last().last() == terms[0]);
            assert(terms.drop_last().last() == terms[1]);
            assert(terms_sum(terms, current, next) == term_value(terms[0], current, next)
                + term_value(terms[1], current, next) + term_value(terms[2], current, next));
        }
    }
}

/// The rule table of a variant.
pub fn transition_rules(variant: ConstraintVariant) -> (rules: Vec<Rule>)
    ensures
        rules@.len() == spec_rules(variant).len(),
        forall|k: int|
            0 <= k < rules@.len() ==> (#[trigger] rules@[k]).terms@ == spec_rules(variant)[k].0
                && rules@[k].constant == spec_rules(variant)[k].1,
{
    let mut rules: Vec<Rule> = Vec::new();
    match variant {
        ConstraintVariant::UnitStep => {
            let mut lat: Vec<Term> = Vec::new();
            lat.push(Term { next_row: true, column: LAT_COLUMN, negative: false });
            lat.push(Term { next_row: false, column: LAT_COLUMN, negative: true });
            let mut lon: Vec<Term> = Vec::new();
            lon.push(Term { next_row: true, column: LON_COLUMN, negative: false });
            lon.push(Term { next_row: false, column: LON_COLUMN, negative: true });
            assert(lat@ =~= spec_rules(variant)[0].0);
            assert(lon@ =~= spec_rules(variant)[1].0);
            rules.push(Rule { terms: lat, constant: -1 });
            rules.push(Rule { terms: lon, constant: -1 });
        },
        ConstraintVariant::TimeDeltaOnly => {
            let mut elapsed: Vec<Term> = Vec::new();
            elapsed.push(Term { next_row: true, column: TIME_DELTA_COLUMN, negative: false });
            elapsed.push(Term { next_row: true, column: TIME_COLUMN, negative: true });
            elapsed.push(Term { next_row: false, column: TIME_COLUMN, negative: false });
            assert(elapsed@ =~= spec_rules(variant)[0].0);
            rules.push(Rule { terms: elapsed, constant: 0 });
        },
    }
    rules
}

/// Evaluates one rule on a pair of rows.
pub fn evaluate_rule(rule: &Rule, current: &Vec<u128>, next: &Vec<u128>) -> (value: u128)
    requires
        terms_within(rule.terms@, current@.len()),
        terms_within(rule.terms@, next@.len()),
    ensures
        value == rule_value(rule.terms@, rule.constant as int, current@, next@),
        is_canonical(value),
{
    let mut acc = embed_signed(rule.constant);
    let mut i: usize = 0;
    assert(rule.terms@.take(0).len() == 0);
    while i < rule.terms.len()
        invariant
            i <= rule.terms@.len(),
            terms_within(rule.terms@, current@.len()),
            terms_within(rule.terms@, next@.len()),
            is_canonical(acc),
            acc == canon(
                rule.constant + terms_sum(rule.terms@.take(i as int), current@, next@),
            ),
        decreases rule.terms@.len() - i,
    {
        let term = rule.terms[i];
        let cell = if term.next_row {
            next[term.column]
        } else {
            current[term.column]
        };
        proof {
            let before = rule.terms@.take(i as int);
            let after = rule.terms@.take(i + 1);
            assert(after.drop_last() =~= before);
            assert(after.last() == term);
            lemma_canon_absorb(
                rule.constant + terms_sum(before, current@, next@),
                cell as int,
            );
        }
        acc = if term.negative {
            field_sub(acc, cell)
        } else {
            field_add(acc, cell)
        };
        i = i + 1;
    }
    assert(rule.terms@.take(i as int) =~= rule.terms@);
    acc
}

/// A boundary assertion: the cell in `column` at row `step` equals `value`.
#[derive(Clone, Copy, Debug, PartialEq, Eq, Structural)]
pub struct Assertion {
    pub column: usize,
    pub step: usize,
    pub value: u128,
}

/// The assertions that bind a statement to a trace of `length >= 1` rows, in
/// the order of the statement: start latitude, start longitude, end latitude,
/// end longitude and, for `TimeDeltaOnly`, start time and end time.
pub open spec fn spec_assertions(
    variant: ConstraintVariant,
    inputs: PublicInputs,
    length: nat,
) -> Seq<Assertion> {
    let last = (length - 1) as usize;
    let places = seq![
        Assertion { column: LAT_COLUMN, step: 0, value: inputs.lat },
        Assertion { column: LON_COLUMN, step: 0, value: inputs.lon },
        Assertion { column: LAT_COLUMN, step: last, value: inputs.next_lat },
        Assertion { column: LON_COLUMN, step: last, value: inputs.next_lon },
    ];
    match variant {
        ConstraintVariant::UnitStep => places,
        ConstraintVariant::TimeDeltaOnly => places + seq![
            Assertion { column: TIME_COLUMN, step: 0, value: inputs.time },
            Assertion { column: TIME_COLUMN, step: last, value: inputs.next_time },
        ],
    }
}

/// The degrees of the transition rules of a variant: 1 for each.
pub open spec fn spec_degrees(variant: ConstraintVariant) -> Seq<usize> {
    Seq::new(variant.spec_num_constraints(), |k: int| CONSTRAINT_DEGREE)
}

/// Whether one assertion holds of a table.
pub open spec fn assertion_holds(table: Seq<Seq<u128>>, assertion: Assertion) -> bool {
    &&& assertion.column < table.len()
    &&& assertion.step < table[assertion.column as int].len()
    &&& table[assertion.column as int][assertion.step as int] == assertion.value
}

/// Whether all assertions hold of a table.
pub open spec fn assertions_hold(table: Seq<Seq<u128>>, assertions: Seq<Assertion>) -> bool {
    forall|k: int| 0 <= k < assertions.len() ==> assertion_holds(table, #[trigger] assertions[k])
}

/// Whether every transition rule evaluates to zero from row `step` to the next.
pub open spec fn step_holds(variant: ConstraintVariant, table: Seq<Seq<u128>>, step: int) -> bool {
    forall|k: int|
        0 <= k < variant.spec_num_constraints() ==> #[trigger] spec_transition(
            variant,
            row(table, step),
            row(table, step + 1),
        )[k] == 0
}

/// Whether every transition rule evaluates to zero on every pair of
/// consecutive rows.
pub open spec fn transitions_hold(variant: ConstraintVariant, table: Seq<Seq<u128>>) -> bool {
    forall|step: int| 0 <= step < length(table) - 1 ==> #[trigger] step_holds(variant, table, step)
}

/// Why a constraint system cannot be made.
#[derive(Clone, Copy, Debug, PartialEq, Eq, Structural)]
pub enum AirError {
    /// The trace does not have the number of columns of the variant.
    TraceWidthMismatch,
    /// The proof options break a rule of the engine, or the blowup factor
    /// does not exceed the degree of the constraints.
    InvalidConfiguration(ConfigError),
}

/// How a trace fails a constraint system.
#[derive(Clone, Copy, Debug, PartialEq, Eq, Structural)]
pub enum Violation {
    /// The trace does not have the width and length that the system was made for.
    ShapeMismatch,
    /// A transition rule is not zero from this row to the next; no earlier
    /// row has that.
    Transition(usize),
    /// The assertion with this index does not hold; none before it has that.
    Assertion(usize),
}

/// What a constraint system tells the engine of itself.
#[derive(Clone, Debug)]
pub struct AirContext {
    pub trace_info: TraceInfo,
    pub degrees: Vec<usize>,
    pub num_assertions: usize,
    pub options: ProofOptions,
}

/// What a constraint system is made of.
pub struct AirModel {
    pub variant: ConstraintVariant,
    pub width: nat,
    pub length: nat,
    pub inputs: PublicInputs,
    pub options: ProofOptions,
}

/// A constraint system for one trace shape and one public statement.
pub struct GpsAir {
    variant: ConstraintVariant,
    context: AirContext,
    inputs: PublicInputs,
}

impl View for GpsAir {
    type V = AirModel;

    closed spec fn view(&self) -> AirModel {
        AirModel {
            variant: self.variant,
            width: self.context.trace_info.spec_width(),
            length: self.context.trace_info.spec_length(),
            inputs: self.inputs,
            options: self.context.options,
        }
    }
}

impl AirModel {
    /// The trace has the width of the variant and a shape that a trace can
    /// have, and the options suit constraints of degree `CONSTRAINT_DEGREE`.
    pub open spec fn wf(self) -> bool {
        &&& self.width == self.variant.spec_width()
        &&& crate::trace::shape_ok(self.width, self.length)
        &&& self.options.valid_for(CONSTRAINT_DEGREE as nat)
    }
}

impl GpsAir {
    /// Every constraint system is well formed, and its context says what it
    /// is made of.
    #[verifier::type_invariant]
    pub closed spec fn inv(self) -> bool {
        &&& self@.wf()
        &&& self.context.trace_info.wf()
        &&& self.context.degrees@ == spec_degrees(self.variant)
        &&& self.context.num_assertions == self.variant.spec_num_assertions()
    }

    /// The time-aware constraint system (`TimeDeltaOnly`) for a trace of the
    /// given shape and a statement.
    pub fn new(trace_info: TraceInfo, pub_inputs: PublicInputs, options: ProofOptions) -> (r:
        Result<GpsAir, AirError>)
        ensures
            match r {
                Ok(air) => Self::spec_new(
                    ConstraintVariant::TimeDeltaOnly,
                    trace_info,
                    pub_inputs,
                    options,
                ) == Ok::<AirModel, AirError>(air@) && air@.wf(),
                Err(e) => Self::spec_new(
                    ConstraintVariant::TimeDeltaOnly,
                    trace_info,
                    pub_inputs,
                    options,
                ) == Err::<AirModel, AirError>(e),
            },
    {
        Self::with_variant(ConstraintVariant::TimeDeltaOnly, trace_info, pub_inputs, options)
    }

    /// What making a constraint system gives: an error when the width is not
    /// the variant's, else an error when the options are not valid, else the
    /// system.
    pub open spec fn spec_new(
        variant: ConstraintVariant,
        trace_info: TraceInfo,
        pub_inputs: PublicInputs,
        options: ProofOptions,
    ) -> Result<AirModel, AirError> {
        if trace_info.spec_width() != variant.spec_width() {
            Err(AirError::TraceWidthMismatch)
        } else if !options.valid_for(CONSTRAINT_DEGREE as nat) {
            Err(AirError::InvalidConfiguration(options.first_error(CONSTRAINT_DEGREE as nat)))
        } else {
            Ok(
                AirModel {
                    variant,
                    width: trace_info.spec_width(),
                    length: trace_info.spec_length(),
                    inputs: pub_inputs,
                    options,
                },
            )
        }
    }

    /// The constraint system of a variant for a trace of the given shape and
    /// a statement.
    pub fn with_variant(
        variant: ConstraintVariant,
        trace_info: TraceInfo,
        pub_inputs: PublicInputs,
        options: ProofOptions,
    ) -> (r: Result<GpsAir, AirError>)
        ensures
            match r {
                Ok(air) => Self::spec_new(variant, trace_info, pub_inputs, options) == Ok::<
                    AirModel,
                    AirError,
                >(air@) && air@.wf(),
                Err(e) => Self::spec_new(variant, trace_info, pub_inputs, options) == Err::<
                    AirModel,
                    AirError,
                >(e),
            },
    {
        proof {
            use_type_invariant(trace_info);
        }
        if trace_info.width() != variant.width() {
            return Err(AirError::TraceWidthMismatch);
        }
        match options.validate(CONSTRAINT_DEGREE) {
            Err(e) => {
                return Err(AirError::InvalidConfiguration(e));
            },
            Ok(()) => {},
        }
        let mut degrees: Vec<usize> = Vec::new();
        let count = variant.num_constraints();
        while degrees.len() < count
            invariant
                count == variant.spec_num_constraints(),
                degrees@.len() <= count,
                forall|k: int| 0 <= k < degrees@.len() ==> degrees@[k] == CONSTRAINT_DEGREE,
            decreases count - degrees@.len(),
        {
            degrees.push(CONSTRAINT_DEGREE);
        }
        assert(degrees@ =~= spec_degrees(variant));
        let context = AirContext {
            trace_info,
            degrees,
            num_assertions: variant.num_assertions(),
            options,
        };
        Ok(GpsAir { variant, context, inputs: pub_inputs })
    }

    /// The rule set in force.
    pub fn variant(&self) -> (variant: ConstraintVariant)
        ensures
            variant == self@.variant,
    {
        self.variant
    }

    /// The statement that the assertions bind.
    pub fn pub_inputs(&self) -> (inputs: PublicInputs)
        ensures
            inputs == self@.inputs,
    {
        self.inputs
    }

    /// Number of rows of the trace.
    pub fn trace_length(&self) -> (n: usize)
        ensures
            n == self@.length,
            n >= 1,
    {
        self.context.trace_info.length()
    }

    /// What the engine is told: the shape of the trace, one degree per
    /// transition rule, the number of assertions, and the options.
    pub fn context(&self) -> (context: &AirContext)
        ensures
            context.trace_info.spec_width() == self@.width,
            context.trace_info.spec_length() == self@.length,
            context.degrees@ == spec_degrees(self@.variant),
            context.num_assertions == self@.variant.spec_num_assertions(),
            context.options == self@.options,
    {
        proof {
            use_type_invariant(self);
        }
        &self.context
    }

    /// Evaluates every transition rule on a pair of consecutive rows; an
    /// honest pair gives zeros.
    pub fn evaluate_transition(&self, current: &Vec<u128>, next: &Vec<u128>) -> (result: Vec<u128>)
        requires
            current@.len() >= self@.width,
            next@.len() >= self@.width,
        ensures
            result@.len() == self@.variant.spec_num_constraints(),
            forall|k: int|
                0 <= k < result@.len() ==> #[trigger] result@[k] == spec_transition(
                    self@.variant,
                    current@,
                    next@,
                )[k],
    {
        proof {
            use_type_invariant(self);
            lemma_rules_match_transition(self.variant, current@, next@);
        }
        let rules = transition_rules(self.variant);
        let mut result: Vec<u128> = Vec::new();
        let mut k: usize = 0;
        while k < rules.len()
            invariant
                k <= rules@.len(),
                result@.len() == k,
                rules@.len() == spec_rules(self.variant).len(),
                current@.len() >= self.variant.spec_width(),
                next@.len() >= self.variant.spec_width(),
                forall|j: int|
                    0 <= j < rules@.len() ==> (#[trigger] rules@[j]).terms@ == spec_rules(
                        self.variant,
                    )[j].0 && rules@[j].constant == spec_rules(self.variant)[j].1,
                forall|j: int|
                    0 <= j < spec_rules(self.variant).len() ==> rule_value(
                        (#[trigger] spec_rules(self.variant)[j]).0,
                        spec_rules(self.variant)[j].1,
                        current@,
                        next@,
                    ) == spec_transition(self.variant, current@, next@)[j],
                forall|j: int|
                    0 <= j < spec_rules(self.variant).len() ==> terms_within(
                        (#[trigger] spec_rules(self.variant)[j]).0,
                        self.variant.spec_width(),
                    ),
                forall|j: int|
                    0 <= j < k ==> #[trigger] result@[j] == spec_transition(
                        self.variant,
                        current@,
                        next@,
                    )[j],
            decreases rules@.len() - k,
        {
            let rule = &rules[k];
            proof {
                let terms = spec_rules(self.variant)[k as int].0;
                assert(rule.terms@ == terms);
                assert(terms_within(terms, self.variant.spec_width()));
                assert forall|t: int| 0 <= t < terms.len() implies (#[trigger] terms[t]).column
                    < current@.len() && terms[t].column < next@.len() by {}
            }
            let value = evaluate_rule(rule, current, next);
            result.push(value);
            k = k + 1;
        }
        result
    }

    /// The boundary assertions, in the order of the statement.
    pub fn get_assertions(&self) -> (assertions: Vec<Assertion>)
        ensures
            assertions@ == spec_assertions(self@.variant, self@.inputs, self@.length),
    {
        let last_step = self.trace_length() - 1;
        let mut assertions: Vec<Assertion> = Vec::new();
        assertions.push(Assertion { column: LAT_COLUMN, step: 0, value: self.inputs.lat });
        assertions.push(Assertion { column: LON_COLUMN, step: 0, value: self.inputs.lon });
        assertions.push(
            Assertion { column: LAT_COLUMN, step: last_step, value: self.inputs.next_lat },
        );
        assertions.push(
            Assertion { column: LON_COLUMN, step: last_step, value: self.inputs.next_lon },
        );
        match self.variant {
            ConstraintVariant::UnitStep => {},
            ConstraintVariant::TimeDeltaOnly => {
                assertions.push(
                    Assertion { column: TIME_COLUMN, step: 0, value: self.inputs.time },
                );
                assertions.push(
                    Assertion {
                        column: TIME_COLUMN,
                        step: last_step,
                        value: self.inputs.next_time,
                    },
                );
            },
        }
        assert(assertions@ =~= spec_assertions(self@.variant, self@.inputs, self@.length));
        assertions
    }

    /// The first row from which some transition rule is not zero to the
    /// next, if there is one.
    pub fn first_broken_transition(&self, trace: &Trace) -> (r: Option<usize>)
        requires
            self.fits(trace@),
        ensures
            r is None <==> transitions_hold(self@.variant, trace@),
            r matches Some(step) ==> {
                &&& step < length(trace@) - 1
                &&& !step_holds(self@.variant, trace@, step as int)
                &&& forall|j: int| 0 <= j < step ==> #[trigger] step_holds(self@.variant, trace@, j)
            },
    {
        proof {
            use_type_invariant(self);
        }
        let n = trace.length();
        let mut step: usize = 0;
        while step + 1 < n
            invariant
                step < n,
                n == length(trace@),
                self@.wf(),
                self.fits(trace@),
                forall|j: int| 0 <= j < step ==> #[trigger] step_holds(self@.variant, trace@, j),
            decreases n - step,
        {
            let current = trace.read_row(step);
            let next = trace.read_row(step + 1);
            let values = self.evaluate_transition(&current, &next);
            let mut k: usize = 0;
            while k < values.len()
                invariant
                    k <= values@.len(),
                    values@.len() == self@.variant.spec_num_constraints(),
                    current@ == row(trace@, step as int),
                    next@ == row(trace@, step + 1),
                    step + 1 < n,
                    n == length(trace@),
                    forall|j: int|
                        0 <= j < step ==> #[trigger] step_holds(self@.variant, trace@, j),
                    forall|j: int|
                        0 <= j < values@.len() ==> #[trigger] values@[j] == spec_transition(
                            self@.variant,
                            current@,
                            next@,
                        )[j],
                    forall|j: int|
                        0 <= j < k ==> #[trigger] spec_transition(
                            self@.variant,
                            row(trace@, step as int),
                            row(trace@, step + 1),
                        )[j] == 0,
                decreases values@.len() - k,
            {
                if values[k] != 0 {
                    proof {
                        assert(spec_transition(
                            self@.variant,
                            row(trace@, step as int),
                            row(trace@, step + 1),
                        )[k as int] != 0);
                        assert(!step_holds(self@.variant, trace@, step as int));
                    }
                    return Some(step);
                }
                k = k + 1;
            }
            assert(step_holds(self@.variant, trace@, step as int));
            step = step + 1;
        }
        None
    }

    /// The first assertion, in the order of the statement, that does not
    /// hold of the trace, if there is one.
    pub fn first_broken_assertion(&self, trace: &Trace) -> (r: Option<usize>)
        ensures
            r is None <==> assertions_hold(
                trace@,
                spec_assertions(self@.variant, self@.inputs, self@.length),
            ),
            r matches Some(index) ==> {
                let assertions = spec_assertions(self@.variant, self@.inputs, self@.length);
                &&& index < assertions.len()
                &&& !assertion_holds(trace@, assertions[index as int])
                &&& forall|j: int|
                    0 <= j < index ==> assertion_holds(trace@, #[trigger] assertions[j])
            },
    {
        proof {
            use_type_invariant(trace);
        }
        let assertions = self.get_assertions();
        let mut index: usize = 0;
        while index < assertions.len()
            invariant
                index <= assertions@.len(),
                well_formed(trace@),
                assertions@ == spec_assertions(self@.variant, self@.inputs, self@.length),
                forall|j: int|
                    0 <= j < index ==> assertion_holds(trace@, #[trigger] assertions@[j]),
            decreases assertions@.len() - index,
        {
            let assertion = assertions[index];
            let holds = assertion.column < trace.width() && assertion.step < trace.length()
                && trace.get(assertion.column, assertion.step) == assertion.value;
            proof {
                if assertion.column < width(trace@) {
                    assert(trace@[assertion.column as int].len() == trace@[0].len());
                }
            }
            if !holds {
                return Some(index);
            }
            index = index + 1;
        }
        None
    }

    /// Checks a trace against the system: its shape, then every transition
    /// from the first row on, then every assertion in order. Says what fails
    /// first.
    pub fn check(&self, trace: &Trace) -> (r: Result<(), Violation>)
        ensures
            r is Ok <==> self.satisfied_by(trace@),
            r == Err::<(), Violation>(Violation::ShapeMismatch) <==> !self.fits(trace@),
            r matches Err(Violation::Transition(step)) ==> {
                &&& self.fits(trace@)
                &&& step < length(trace@) - 1
                &&& !step_holds(self@.variant, trace@, step as int)
                &&& forall|j: int| 0 <= j < step ==> #[trigger] step_holds(self@.variant, trace@, j)
            },
            r matches Err(Violation::Assertion(index)) ==> {
                let assertions = spec_assertions(self@.variant, self@.inputs, self@.length);
                &&& self.fits(trace@)
                &&& transitions_hold(self@.variant, trace@)
                &&& index < assertions.len()
                &&& !assertion_holds(trace@, assertions[index as int])
                &&& forall|j: int|
                    0 <= j < index ==> assertion_holds(trace@, #[trigger] assertions[j])
            },
    {
        if trace.width() != self.variant.width() || trace.length() != self.trace_length() {
            proof {
                use_type_invariant(self);
            }
            return Err(Violation::ShapeMismatch);
        }
        proof {
            use_type_invariant(self);
        }
        if let Some(step) = self.first_broken_transition(trace) {
            return Err(Violation::Transition(step));
        }
        if let Some(index) = self.first_broken_assertion(trace) {
            return Err(Violation::Assertion(index));
        }
        Ok(())
    }

    /// The trace has the width and the length that the system was made for.
    pub open spec fn fits(&self, table: Seq<Seq<u128>>) -> bool {
        width(table) == self@.width && length(table) == self@.length
    }

    /// The trace has the shape that the system was made for, every
    /// transition rule is zero on every pair of consecutive rows, and every
    /// assertion holds.
    pub open spec fn satisfied_by(&self, table: Seq<Seq<u128>>) -> bool {
        &&& self.fits(table)
        &&& transitions_hold(self@.variant, table)
        &&& assertions_hold(
            table,
            spec_assertions(self@.variant, self@.inputs, self@.length),
        )
    }
}

} // verus!
