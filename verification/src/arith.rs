//! Small division lemmas shared by the numeric modules.
//!
//! The renderer works in fixed-point "thousandths" arithmetic, so nearly
//! every module divides by a positive constant and needs the same two
//! facts: a quotient of non-negative values is non-negative, and a value
//! bounded by `c * d` divides by `d` to at most `c`.

use vstd::prelude::*;

verus! {

/// A quotient of a non-negative value by a positive divisor is non-negative.
pub proof fn lemma_div_nonneg(a: int, d: int)
    requires
        0 <= a,
        0 < d,
    ensures
        0 <= a / d,
{
    vstd::arithmetic::div_mod::lemma_div_pos_is_pos(a, d);
}

/// If `a <= c * d` then `a / d <= c` (all quantities non-negative).
pub proof fn lemma_div_le(a: int, d: int, c: int)
    requires
        0 <= a,
        0 < d,
        0 <= c,
        a <= c * d,
    ensures
        a / d <= c,
{
    vstd::arithmetic::div_mod::lemma_div_is_ordered(a, c * d, d);
    vstd::arithmetic::div_mod::lemma_div_by_multiple(c, d);
}

/// Rounding down to a multiple never grows the value: `(a / d) * d <= a`.
pub proof fn lemma_round_down_le(a: int, d: int)
    requires
        0 <= a,
        0 < d,
    ensures
        0 <= (a / d) * d <= a,
{
    vstd::arithmetic::div_mod::lemma_fundamental_div_mod(a, d);
    vstd::arithmetic::div_mod::lemma_mod_division_less_than_divisor(a, d);
    lemma_div_nonneg(a, d);
    vstd::arithmetic::mul::lemma_mul_is_commutative(a / d, d);
}

} // verus!
