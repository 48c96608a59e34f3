//! Decimal degrees as text, read into fixed-point units without any
//! floating-point step.
//!
//! The text is an optional sign, digits, and optionally a point and more
//! digits, with at least one digit in all. Its value times `SCALE` is rounded
//! to the nearest integer, halves away from zero.

use crate::segment::SCALE;
use vstd::prelude::*;

verus! {

/// Number of decimal places that `SCALE` keeps.
pub const SCALE_DIGITS: usize = 7;

/// The largest whole number of degrees whose fixed-point form fits an `i64`.
pub const MAX_WHOLE_DEGREES: u64 = 922337203685;

/// Whether a byte is an ASCII digit.
pub open spec fn is_digit(b: u8) -> bool {
    48 <= b <= 57
}

/// The value of a byte as a digit; 0 for a byte that is none.
pub open spec fn digit_of(b: u8) -> nat {
    if is_digit(b) {
        (b - 48) as nat
    } else {
        0
    }
}

/// The number that a string of digits writes.
pub open spec fn digits_value(digits: Seq<u8>) -> nat
    decreases digits.len(),
{
    if digits.len() == 0 {
        0
    } else {
        digits_value(digits.drop_last()) * 10 + digit_of(digits.last())
    }
}

/// Where the run of digits that starts at `from` ends.
pub open spec fn digit_run(text: Seq<u8>, from: int) -> int
    decreases text.len() - from,
{
    if 0 <= from < text.len() && is_digit(text[from]) {
        digit_run(text, from + 1)
    } else {
        from
    }
}

/// The first `SCALE_DIGITS` digits of a fraction, with zeros after them where
/// it has fewer.
pub open spec fn kept_fraction(fraction: Seq<u8>) -> Seq<u8> {
    Seq::new(
        SCALE_DIGITS as nat,
        |i: int|
            if i < fraction.len() {
                fraction[i]
            } else {
                48u8
            },
    )
}

/// Whether what follows the kept digits of a fraction is a half or more.
pub open spec fn rounds_up(fraction: Seq<u8>) -> bool {
    fraction.len() > SCALE_DIGITS && fraction[SCALE_DIGITS as int] >= 53
}

/// The magnitude of `whole.fraction` in units of `1 / SCALE`, rounded to the
/// nearest unit, a half going up.
pub open spec fn scaled_magnitude(whole: Seq<u8>, fraction: Seq<u8>) -> nat {
    digits_value(whole) * (SCALE as nat) + digits_value(kept_fraction(fraction)) + if rounds_up(
        fraction,
    ) {
        1nat
    } else {
        0nat
    }
}

/// The fixed-point value of a sign and two strings of digits: none where
/// both strings are empty or the value does not fit.
pub open spec fn spec_finish(negative: bool, whole: Seq<u8>, fraction: Seq<u8>) -> Option<i64> {
    let magnitude = scaled_magnitude(whole, fraction);
    if whole.len() + fraction.len() == 0 || magnitude > i64::MAX {
        None
    } else if negative {
        Some((-magnitude) as i64)
    } else {
        Some(magnitude as i64)
    }
}

/// The fixed-point value of a decimal text, where it is one.
pub open spec fn spec_parse_fixed(text: Seq<u8>) -> Option<i64> {
    let signed = text.len() > 0 && (text[0] == 45 || text[0] == 43);
    let negative = text.len() > 0 && text[0] == 45;
    let start: int = if signed {
        1
    } else {
        0
    };
    let point = digit_run(text, start);
    let whole = text.subrange(start, point);
    if point == text.len() {
        spec_finish(negative, whole, Seq::empty())
    } else if text[point] != 46 {
        None
    } else if digit_run(text, point + 1) != text.len() {
        None
    } else {
        spec_finish(negative, whole, text.subrange(point + 1, text.len() as int))
    }
}

/// Ten to the power `k`.
pub open spec fn pow10(k: nat) -> nat
    decreases k,
{
    if k == 0 {
        1
    } else {
        10 * pow10((k - 1) as nat)
    }
}

/// The powers of ten up to `SCALE`.
pub proof fn lemma_pow10_table()
    ensures
        pow10(0) == 1,
        pow10(1) == 10,
        pow10(2) == 100,
        pow10(3) == 1000,
        pow10(4) == 10000,
        pow10(5) == 100000,
        pow10(6) == 1000000,
        pow10(7) == 10000000,
{
    reveal_with_fuel(pow10, 9);
}

/// A run of digits ends within the text, at or after its start.
pub proof fn lemma_digit_run_bounds(text: Seq<u8>, from: int)
    requires
        0 <= from <= text.len(),
    ensures
        from <= digit_run(text, from) <= text.len(),
    decreases text.len() - from,
{
    if from < text.len() && is_digit(text[from]) {
        lemma_digit_run_bounds(text, from + 1);
    }
}

/// More digits do not write a smaller number.
pub proof fn lemma_digits_value_grows(digits: Seq<u8>, shorter: int)
    requires
        0 <= shorter <= digits.len(),
    ensures
        digits_value(digits.take(shorter)) <= digits_value(digits),
    decreases digits.len() - shorter,
{
    if shorter == digits.len() {
        assert(digits.take(shorter) =~= digits);
    } else {
        lemma_digits_value_grows(digits.drop_last(), shorter);
        assert(digits.drop_last().take(shorter) =~= digits.take(shorter));
    }
}

/// Reads the digits before the point: where they end and what they write,
/// or nothing when that is more than `MAX_WHOLE_DEGREES`.
fn read_whole(text: &[u8], start: usize) -> (r: Option<(usize, u64)>)
    requires
        start <= text@.len(),
    ensures
        match r {
            Some((point, whole)) => {
                &&& point == digit_run(text@, start as int)
                &&& start <= point <= text@.len()
                &&& whole == digits_value(text@.subrange(start as int, point as int))
                &&& whole <= MAX_WHOLE_DEGREES
            },
            None => digits_value(
                text@.subrange(start as int, digit_run(text@, start as int)),
            ) > MAX_WHOLE_DEGREES,
        },
{
    let n = text.len();
    let mut i: usize = start;
    let mut whole: u64 = 0;
    assert(text@.subrange(start as int, start as int) =~= Seq::<u8>::empty());
    while i < n && text[i] >= 48 && text[i] <= 57
        invariant
            n == text@.len(),
            start <= i <= n,
            digit_run(text@, start as int) == digit_run(text@, i as int),
            whole == digits_value(text@.subrange(start as int, i as int)),
            whole <= MAX_WHOLE_DEGREES,
        decreases n - i,
    {
        let digit = (text[i] - 48) as u64;
        let ghost before = text@.subrange(start as int, i as int);
        let ghost after = text@.subrange(start as int, i + 1);
        proof {
            assert(after.drop_last() =~= before);
            assert(after.last() == text@[i as int]);
        }
        whole = whole * 10 + digit;
        i = i + 1;
        if whole > MAX_WHOLE_DEGREES {
            proof {
                lemma_digit_run_bounds(text@, i as int);
                let full = text@.subrange(start as int, digit_run(text@, start as int));
                lemma_digits_value_grows(full, i - start);
                assert(full.take(i - start) =~= after);
            }
            return None;
        }
    }
    Some((i, whole))
}

/// Reads the digits after the point, which must run to the end of the text:
/// what the kept ones write, and whether the rest rounds up.
fn read_fraction(text: &[u8], first: usize) -> (r: Option<(u64, u64)>)
    requires
        first <= text@.len(),
    ensures
        r is Some <==> digit_run(text@, first as int) == text@.len(),
        r matches Some((kept, round)) ==> {
            let fraction = text@.subrange(first as int, text@.len() as int);
            &&& kept == digits_value(kept_fraction(fraction))
            &&& kept < 10000000
            &&& round == (if rounds_up(fraction) {
                1u64
            } else {
                0u64
            })
        },
{
    let n = text.len();
    let mut kept: u64 = 0;
    let mut round: u64 = 0;
    let mut i: usize = first;
    proof {
        lemma_pow10_table();
        assert(text@.subrange(first as int, first as int) =~= Seq::<u8>::empty());
    }
    while i < n
        invariant
            n == text@.len(),
            first <= i <= n,
            digit_run(text@, first as int) == digit_run(text@, i as int),
            i - first <= SCALE_DIGITS ==> kept == digits_value(
                text@.subrange(first as int, i as int),
            ) && kept < pow10((i - first) as nat),
            i - first > SCALE_DIGITS ==> kept == digits_value(
                text@.subrange(first as int, first + SCALE_DIGITS),
            ) && kept < pow10(SCALE_DIGITS as nat),
            round == (if i - first > SCALE_DIGITS && text@[first + SCALE_DIGITS] >= 53 {
                1u64
            } else {
                0u64
            }),
        decreases n - i,
    {
        if text[i] < 48 || text[i] > 57 {
            return None;
        }
        let digit = (text[i] - 48) as u64;
        let place = i - first;
        if place < SCALE_DIGITS {
            proof {
                let before = text@.subrange(first as int, i as int);
                let after = text@.subrange(first as int, i + 1);
                assert(after.drop_last() =~= before);
                assert(after.last() == text@[i as int]);
                lemma_pow10_table();
                assert(pow10((place + 1) as nat) == 10 * pow10(place as nat));
            }
            kept = kept * 10 + digit;
        } else if place == SCALE_DIGITS {
            round = if digit >= 5 {
                1
            } else {
                0
            };
        }
        i = i + 1;
    }
    let ghost fraction = text@.subrange(first as int, n as int);
    let mut places: usize = if n - first < SCALE_DIGITS {
        n - first
    } else {
        SCALE_DIGITS
    };
    proof {
        assert(kept_fraction(fraction).take(places as int) =~= text@.subrange(
            first as int,
            first + places,
        ));
    }
    while places < SCALE_DIGITS
        invariant
            places <= SCALE_DIGITS,
            fraction.len() <= places || places == SCALE_DIGITS,
            kept == digits_value(kept_fraction(fraction).take(places as int)),
            kept < pow10(places as nat),
        decreases SCALE_DIGITS - places,
    {
        proof {
            let before = kept_fraction(fraction).take(places as int);
            let after = kept_fraction(fraction).take(places + 1);
            assert(after.drop_last() =~= before);
            assert(after.last() == 48u8);
            lemma_pow10_table();
            assert(pow10((places + 1) as nat) == 10 * pow10(places as nat));
        }
        kept = kept * 10;
        places = places + 1;
    }
    proof {
        lemma_pow10_table();
        assert(kept_fraction(fraction).take(SCALE_DIGITS as int) =~= kept_fraction(fraction));
    }
    Some((kept, round))
}

/// Reads decimal degrees into units of `1 / SCALE` of a degree.
pub fn parse_fixed(text: &[u8]) -> (r: Option<i64>)
    ensures
        r == spec_parse_fixed(text@),
{
    let n = text.len();
    let signed = n > 0 && (text[0] == 45 || text[0] == 43);
    let negative = n > 0 && text[0] == 45;
    let start: usize = if signed {
        1
    } else {
        0
    };
    let (point, whole) = match read_whole(text, start) {
        Some(found) => found,
        None => {
            proof {
                let full = text@.subrange(start as int, digit_run(text@, start as int));
                assert(digits_value(full) * (SCALE as nat) > i64::MAX) by (nonlinear_arith)
                    requires
                        digits_value(full) > 922337203685,
                        SCALE == 10000000,
                ;
            }
            return None;
        },
    };
    let ghost whole_digits = text@.subrange(start as int, point as int);
    if point == n {
        if point == start {
            return None;
        }
        proof {
            lemma_kept_of_empty();
        }
        return finish(negative, whole * SCALE, Ghost(whole_digits), Ghost(Seq::empty()));
    }
    if text[point] != 46 {
        return None;
    }
    let (kept, round) = match read_fraction(text, point + 1) {
        Some(found) => found,
        None => {
            return None;
        },
    };
    if point == start && point + 1 == n {
        return None;
    }
    let ghost fraction = text@.subrange(point + 1, n as int);
    finish(negative, whole * SCALE + kept + round, Ghost(whole_digits), Ghost(fraction))
}

/// A fraction with no digit keeps seven zeros, which write 0.
proof fn lemma_kept_of_empty()
    ensures
        digits_value(kept_fraction(Seq::empty())) == 0,
        !rounds_up(Seq::empty()),
{
    reveal_with_fuel(digits_value, 9);
    let zeros = kept_fraction(Seq::empty());
    let none = zeros.take(0);
    assert(zeros.len() == 7);
    assert(zeros.drop_last().drop_last().drop_last().drop_last() =~= zeros.take(3));
    assert(zeros.take(3).drop_last().drop_last().drop_last() =~= none);
}

/// Puts the sign on a magnitude that fits.
fn finish(
    negative: bool,
    magnitude: u64,
    Ghost(whole): Ghost<Seq<u8>>,
    Ghost(fraction): Ghost<Seq<u8>>,
) -> (r: Option<i64>)
    requires
        whole.len() + fraction.len() > 0,
        magnitude == scaled_magnitude(whole, fraction),
    ensures
        r == spec_finish(negative, whole, fraction),
{
    if magnitude > i64::MAX as u64 {
        None
    } else if negative {
        Some(-(magnitude as i64))
    } else {
        Some(magnitude as i64)
    }
}

} // verus!
