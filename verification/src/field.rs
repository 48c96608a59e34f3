//! The proving field: integers modulo `MODULUS`, held as canonical `u128` values.

use vstd::arithmetic::div_mod::*;
use vstd::prelude::*;

verus! {

/// The field modulus, `2^128 - 45 * 2^40 + 1`.
pub const MODULUS: u128 = 340282366920938463463374557953744961537;

/// The canonical representative, in `[0, MODULUS)`, of an integer.
pub open spec fn canon(x: int) -> int {
    x % (MODULUS as int)
}

/// Whether a value is a canonical field element.
pub open spec fn is_canonical(x: u128) -> bool {
    x < MODULUS
}

/// `canon` lands in `[0, MODULUS)` and leaves canonical values alone.
pub proof fn lemma_canon_range(x: int)
    ensures
        0 <= canon(x) < MODULUS,
        0 <= x < MODULUS ==> canon(x) == x,
{
    lemma_mod_bound(x, MODULUS as int);
    if 0 <= x < MODULUS {
        lemma_small_mod(x as nat, MODULUS as nat);
    }
}

/// Adding or removing one modulus does not change the representative.
pub proof fn lemma_canon_shift(x: int)
    ensures
        canon(x + MODULUS) == canon(x),
        canon(x - MODULUS) == canon(x),
{
    lemma_mod_add_multiples_vanish(x, MODULUS as int);
    lemma_mod_sub_multiples_vanish(x, MODULUS as int);
}

/// Reducing an operand first does not change a sum or a difference.
pub proof fn lemma_canon_absorb(x: int, y: int)
    ensures
        canon(canon(x) + y) == canon(x + y),
        canon(x + canon(y)) == canon(x + y),
        canon(canon(x) - y) == canon(x - y),
        canon(x - canon(y)) == canon(x - y),
{
    let m = MODULUS as int;
    lemma_add_mod_noop(x, y, m);
    lemma_add_mod_noop(x % m, y, m);
    lemma_add_mod_noop(x, y % m, m);
    lemma_sub_mod_noop(x, y, m);
    lemma_sub_mod_noop(x % m, y, m);
    lemma_sub_mod_noop(x, y % m, m);
    lemma_mod_twice(x, m);
    lemma_mod_twice(y, m);
}

/// The canonical form of any `u128`.
pub fn reduce(value: u128) -> (r: u128)
    ensures
        r == canon(value as int),
        is_canonical(r),
{
    proof {
        lemma_canon_range(value as int);
        lemma_canon_range(value - MODULUS);
        lemma_canon_shift(value as int);
    }
    if value < MODULUS {
        value
    } else {
        value - MODULUS
    }
}

/// Field addition. Operands need not be canonical; the result is.
pub fn field_add(a: u128, b: u128) -> (r: u128)
    ensures
        r == canon(a + b),
        is_canonical(r),
{
    let x = reduce(a);
    let y = reduce(b);
    let z = MODULUS - y;
    proof {
        lemma_canon_absorb(a as int, b as int);
        lemma_canon_absorb(x as int, b as int);
        lemma_canon_range(x + y);
        lemma_canon_range(x + y - MODULUS);
        lemma_canon_shift(x + y);
    }
    if x < z {
        x + y
    } else {
        x - z
    }
}

/// Field subtraction. Operands need not be canonical; the result is.
pub fn field_sub(a: u128, b: u128) -> (r: u128)
    ensures
        r == canon(a - b),
        is_canonical(r),
{
    let x = reduce(a);
    let y = reduce(b);
    proof {
        lemma_canon_absorb(a as int, b as int);
        lemma_canon_absorb(x as int, b as int);
        lemma_canon_range(x - y);
        lemma_canon_range(x - y + MODULUS);
        lemma_canon_shift(x - y);
    }
    if x < y {
        MODULUS - y + x
    } else {
        x - y
    }
}

/// The field element that stands for a signed integer: `v` itself when it is
/// not negative, `MODULUS - |v|` when it is.
pub fn embed_signed(v: i64) -> (r: u128)
    ensures
        r == canon(v as int),
        is_canonical(r),
{
    proof {
        lemma_canon_range(v as int);
        lemma_canon_range(v + MODULUS);
        lemma_canon_shift(v as int);
    }
    if v >= 0 {
        v as u128
    } else {
        let below: i64 = -(v + 1);
        MODULUS - 1 - (below as u128)
    }
}

/// The signed integer that a field element stands for, where it stands for
/// one: itself when it is within `i64`, and `value - MODULUS` when that is.
pub open spec fn spec_decode_signed(value: u128) -> Option<i64> {
    if value <= i64::MAX {
        Some(value as i64)
    } else if value < MODULUS && value - MODULUS >= i64::MIN {
        Some((value - MODULUS) as i64)
    } else {
        None
    }
}

/// Reads a signed integer back from the field element that stands for it.
pub fn decode_signed(value: u128) -> (r: Option<i64>)
    ensures
        r == spec_decode_signed(value),
{
    if value <= i64::MAX as u128 {
        Some(value as i64)
    } else if value < MODULUS && MODULUS - value <= 9223372036854775808 {
        let below: u128 = MODULUS - value - 1;
        Some(-(below as i64) - 1)
    } else {
        None
    }
}

/// What `embed_signed` writes, `decode_signed` reads back.
pub proof fn lemma_signed_round_trip(v: i64)
    ensures
        spec_decode_signed(canon(v as int) as u128) == Some(v),
{
    lemma_canon_range(v as int);
    lemma_canon_range(v + MODULUS);
    lemma_canon_shift(v as int);
}

} // verus!
