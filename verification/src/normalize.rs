//! The waypoint normalizer: field encoding of each reading, and padding of the
//! sequence to a power-of-two length.

use crate::field::{canon, embed_signed, is_canonical, reduce};
use crate::segment::GpsPoint;
use vstd::arithmetic::power2::is_pow2;
use vstd::prelude::*;

verus! {

/// The longest trace that the field's evaluation domains can hold: `2^40` rows.
pub const MAX_TRACE_LENGTH: u64 = 1099511627776;

/// Why a trip cannot be normalized.
#[derive(Clone, Copy, Debug, PartialEq, Eq, Structural)]
pub enum TripError {
    /// The trip has no waypoint.
    EmptyTrip,
    /// Padded to a power of two, the trip would exceed `MAX_TRACE_LENGTH` rows,
    /// or more rows than the machine can index.
    TooLong,
}

/// One waypoint as three canonical field elements.
#[derive(Clone, Copy, Debug, PartialEq, Eq, Structural)]
pub struct NormalizedStep {
    pub lat_fixed: u128,
    pub lon_fixed: u128,
    pub time: u128,
}

impl NormalizedStep {
    /// All three values are canonical field elements.
    pub open spec fn wf(self) -> bool {
        &&& is_canonical(self.lat_fixed)
        &&& is_canonical(self.lon_fixed)
        &&& is_canonical(self.time)
    }
}

/// Whether a trace of `n` rows is within `MAX_TRACE_LENGTH` and can be indexed.
pub open spec fn fits_trace(n: nat) -> bool {
    n <= MAX_TRACE_LENGTH && n <= usize::MAX
}

/// The smallest power of two that is not below `n`.
pub open spec fn next_power_of_two(n: nat) -> nat
    decreases n,
{
    if n <= 1 {
        1
    } else {
        2 * next_power_of_two((n + 1) / 2)
    }
}

/// A power of two is at least 1.
pub proof fn lemma_pow2_positive(n: int)
    requires
        is_pow2(n),
    ensures
        n >= 1,
{
    reveal(is_pow2);
}

/// Of two powers of two, one that is below twice the other is not above it.
pub proof fn lemma_pow2_gap(a: int, b: int)
    requires
        is_pow2(a),
        is_pow2(b),
        a < 2 * b,
    ensures
        a <= b,
    decreases a,
{
    reveal(is_pow2);
    if a > 1 && b > 1 {
        lemma_pow2_gap(a / 2, b / 2);
    }
}

/// `next_power_of_two(n)` is a power of two, is not below `n`, and is below
/// `2 * n` for a positive `n`.
pub proof fn lemma_next_power_of_two(n: nat)
    ensures
        is_pow2(next_power_of_two(n) as int),
        next_power_of_two(n) >= n,
        next_power_of_two(n) >= 1,
        n >= 1 ==> next_power_of_two(n) < 2 * n,
    decreases n,
{
    reveal(is_pow2);
    if n > 1 {
        let half = (n + 1) / 2;
        lemma_next_power_of_two(half as nat);
        let p = next_power_of_two(half as nat);
        assert(next_power_of_two(n) == 2 * p);
        assert((2 * p) / 2 == p && (2 * p) % 2 == 0);
        if p >= n {
            // then n is odd and equals p, a power of two above 1: impossible
            assert(p == n);
            assert(n % 2 == 1);
        }
    }
}

/// No power of two lies between `n` and `next_power_of_two(n)`.
pub proof fn lemma_next_power_of_two_least(n: nat, p: int)
    requires
        is_pow2(p),
        p >= n,
    ensures
        next_power_of_two(n) <= p,
{
    reveal(is_pow2);
    lemma_next_power_of_two(n);
    if n >= 1 {
        lemma_pow2_gap(next_power_of_two(n) as int, p);
    }
}

/// A power of two is its own next power of two, so padding adds nothing to it.
pub proof fn lemma_next_power_of_two_fixed(n: nat)
    requires
        is_pow2(n as int),
    ensures
        next_power_of_two(n) == n,
{
    lemma_next_power_of_two(n);
    lemma_next_power_of_two_least(n, n as int);
}

/// The smallest power of two that is not below `n`, or `None` when it does not
/// fit in a `usize`.
pub fn checked_next_power_of_two(n: usize) -> (r: Option<usize>)
    ensures
        match r {
            Some(p) => p == next_power_of_two(n as nat),
            None => next_power_of_two(n as nat) > usize::MAX,
        },
{
    let mut p: usize = 1;
    proof {
        reveal(is_pow2);
    }
    while p < n
        invariant
            p >= 1,
            is_pow2(p as int),
            p == 1 || p < 2 * n,
        decreases usize::MAX - p,
    {
        if p > usize::MAX / 2 {
            proof {
                let np = next_power_of_two(n as nat);
                lemma_next_power_of_two(n as nat);
                if np < 2 * p {
                    lemma_pow2_gap(np as int, p as int);
                }
            }
            return None;
        }
        proof {
            reveal(is_pow2);
            assert((2 * p) / 2 == p && (2 * p) % 2 == 0);
        }
        p = 2 * p;
    }
    proof {
        let np = next_power_of_two(n as nat);
        lemma_next_power_of_two(n as nat);
        lemma_next_power_of_two_least(n as nat, p as int);
        if n >= 1 {
            lemma_pow2_gap(p as int, np as int);
        }
    }
    Some(p)
}

/// The field encoding of one waypoint.
pub open spec fn spec_step(point: GpsPoint) -> NormalizedStep {
    NormalizedStep {
        lat_fixed: canon(point.lat as int) as u128,
        lon_fixed: canon(point.lon as int) as u128,
        time: canon(point._time as int) as u128,
    }
}

/// A trip of `L >= 1` waypoints as `next_power_of_two(L)` steps: the encoded
/// waypoints, then the last of them repeated.
pub open spec fn spec_normalize(points: Seq<GpsPoint>) -> Seq<NormalizedStep> {
    Seq::new(
        next_power_of_two(points.len()),
        |i: int|
            if i < points.len() {
                spec_step(points[i])
            } else {
                spec_step(points.last())
            },
    )
}

/// Encodes one waypoint.
pub fn normalize_point(point: &GpsPoint) -> (step: NormalizedStep)
    ensures
        step == spec_step(*point),
        step.wf(),
{
    NormalizedStep {
        lat_fixed: embed_signed(point.lat),
        lon_fixed: embed_signed(point.lon),
        time: reduce(point._time as u128),
    }
}

/// Encodes a trip and pads it to a power-of-two number of steps.
pub fn normalize(points: &Vec<GpsPoint>) -> (r: Result<Vec<NormalizedStep>, TripError>)
    ensures
        match r {
            Ok(steps) => {
                &&& points@.len() >= 1
                &&& fits_trace(next_power_of_two(points@.len()))
                &&& steps@ == spec_normalize(points@)
                &&& forall|i: int| 0 <= i < steps@.len() ==> (#[trigger] steps@[i]).wf()
            },
            Err(TripError::EmptyTrip) => points@.len() == 0,
            Err(TripError::TooLong) => points@.len() >= 1 && !fits_trace(
                next_power_of_two(points@.len()),
            ),
        },
{
    let trip_len = points.len();
    if trip_len == 0 {
        return Err(TripError::EmptyTrip);
    }
    let padded_len = match checked_next_power_of_two(trip_len) {
        Some(p) => p,
        None => {
            return Err(TripError::TooLong);
        },
    };
    if padded_len as u64 > MAX_TRACE_LENGTH {
        return Err(TripError::TooLong);
    }
    proof {
        lemma_next_power_of_two(trip_len as nat);
    }
    let mut steps: Vec<NormalizedStep> = Vec::new();
    let mut i: usize = 0;
    while i < trip_len
        invariant
            trip_len == points@.len(),
            i <= trip_len,
            steps@.len() == i,
            forall|j: int| 0 <= j < i ==> #[trigger] steps@[j] == spec_step(points@[j]),
            forall|j: int| 0 <= j < i ==> (#[trigger] steps@[j]).wf(),
        decreases trip_len - i,
    {
        steps.push(normalize_point(&points[i]));
        i = i + 1;
    }
    let last = steps[trip_len - 1];
    while i < padded_len
        invariant
            trip_len == points@.len(),
            trip_len >= 1,
            trip_len <= i <= padded_len,
            steps@.len() == i,
            last == spec_step(points@.last()),
            last.wf(),
            forall|j: int| 0 <= j < trip_len ==> #[trigger] steps@[j] == spec_step(points@[j]),
            forall|j: int| trip_len <= j < i ==> #[trigger] steps@[j] == last,
            forall|j: int| 0 <= j < i ==> (#[trigger] steps@[j]).wf(),
        decreases padded_len - i,
    {
        steps.push(last);
        i = i + 1;
    }
    assert(steps@ =~= spec_normalize(points@));
    Ok(steps)
}

/// Whether `n` is a power of two.
pub fn is_power_of_two(n: usize) -> (yes: bool)
    ensures
        yes == is_pow2(n as int),
{
    proof {
        reveal(is_pow2);
    }
    if n == 0 {
        return false;
    }
    let mut m: usize = n;
    while m % 2 == 0
        invariant
            m >= 1,
            is_pow2(m as int) == is_pow2(n as int),
        decreases m,
    {
        proof {
            reveal(is_pow2);
        }
        m = m / 2;
    }
    m == 1
}

} // verus!
