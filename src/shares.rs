use vstd::prelude::*;
use vstd::arithmetic::div_mod::{
    lemma_div_is_ordered, lemma_fundamental_div_mod,
    lemma_fundamental_div_mod_converse,
};
use vstd::arithmetic::mul::lemma_mul_inequality;
use crate::enums::ShareOp;

verus! {

/// Decimal digits kept for shares and for interest-bearing amounts.
pub const SHARE_DECIMALS: u32 = 4;

/// One whole share, or one whole token unit, in fixed-point units.
pub const SHARE_SCALE: u128 = 10_000;

/// Ten to the power `n`.
pub open spec fn pow10(n: nat) -> nat
    decreases n,
{
    if n == 0 {
        1
    } else {
        10 * pow10((n - 1) as nat)
    }
}

/// `num / den` rounded to the nearest integer, halves rounded up.
pub open spec fn div_round_half_up(num: int, den: int) -> int {
    (2 * num + den) / (2 * den)
}

/// Shares that correspond to `change` units of a pool holding `total` units
/// against `shares` shares: `change / total * shares`, rounded half up to a
/// whole fixed-point unit.
pub open spec fn change_shares(change: int, total: int, shares: int) -> int {
    div_round_half_up(change * shares, total)
}

/// `pow10` grows with its exponent.
pub proof fn lemma_pow10_monotone(a: nat, b: nat)
    requires
        a <= b,
    ensures
        1 <= pow10(a) <= pow10(b),
    decreases b,
{
    if b > a {
        lemma_pow10_monotone(a, (b - 1) as nat);
    } else if a > 0 {
        lemma_pow10_monotone((a - 1) as nat, (a - 1) as nat);
    }
}

/// The largest power of ten that fits in a `u128`.
pub proof fn lemma_pow10_38()
    ensures
        pow10(38) == 100_000_000_000_000_000_000_000_000_000_000_000_000nat,
{
    reveal_with_fuel(pow10, 39);
}

/// Rounding half up is monotone in the numerator.
pub proof fn lemma_div_round_monotone(n1: int, n2: int, den: int)
    requires
        n1 <= n2,
        den > 0,
    ensures
        div_round_half_up(n1, den) <= div_round_half_up(n2, den),
{
    lemma_div_is_ordered(2 * n1 + den, 2 * n2 + den, 2 * den);
}

/// Rounding half up of an exact multiple gives the quotient.
pub proof fn lemma_div_round_exact(q: int, den: int)
    requires
        den > 0,
    ensures
        div_round_half_up(q * den, den) == q,
{
    assert(2 * (q * den) + den == q * (2 * den) + den) by (nonlinear_arith);
    lemma_fundamental_div_mod_converse(2 * (q * den) + den, 2 * den, q, den);
}

/// Rounding half up of a non-negative value is non-negative.
pub proof fn lemma_div_round_nonneg(num: int, den: int)
    requires
        num >= 0,
        den > 0,
    ensures
        div_round_half_up(num, den) >= 0,
{
    lemma_div_round_monotone(0, num, den);
    lemma_div_is_ordered(0, den, 2 * den);
}

/// `num / den`, rounded half up.
pub fn div_round(num: u128, den: u128) -> (r: u128)
    requires
        den > 0,
    ensures
        r == div_round_half_up(num as int, den as int),
{
    let q = num / den;
    let rem = num % den;
    proof {
        lemma_fundamental_div_mod(num as int, den as int);
        assert(num as int == q * den + rem) by (nonlinear_arith)
            requires
                num as int == den * (num as int / den as int) + (num as int % den as int),
                q == num as int / den as int,
                rem == num as int % den as int,
        ;
    }
    if rem >= den - rem {
        proof {
            assert(den >= 2);
            assert(q * 2 <= q * den) by {
                lemma_mul_inequality(2, den as int, q as int);
            }
            assert(2 * (num as int) + den == (q + 1) * (2 * den) + (2 * rem - den)) by (nonlinear_arith)
                requires
                    num as int == q * den + rem,
            ;
            lemma_fundamental_div_mod_converse(
                2 * (num as int) + den,
                2 * (den as int),
                q + 1,
                2 * rem - den,
            );
        }
        q + 1
    } else {
        proof {
            assert(2 * (num as int) + den == q * (2 * den) + (2 * rem + den)) by (nonlinear_arith)
                requires
                    num as int == q * den + rem,
            ;
            lemma_fundamental_div_mod_converse(
                2 * (num as int) + den,
                2 * (den as int),
                q as int,
                2 * rem + den,
            );
        }
        q
    }
}

/// Rounds the fixed-point `value`, which carries `value_decimals` decimal
/// digits, half up to `n_decimals` digits. The result carries `n_decimals`
/// digits.
pub fn round_to_n_decimal(value: u128, value_decimals: u32, n_decimals: u32) -> (r: u128)
    requires
        n_decimals <= value_decimals <= 38,
    ensures
        r == div_round_half_up(value as int, pow10((value_decimals - n_decimals) as nat) as int),
{
    let steps = value_decimals - n_decimals;
    let mut divisor: u128 = 1;
    let mut i: u32 = 0;
    while i < steps
        invariant
            i <= steps <= 38,
            divisor == pow10(i as nat),
        decreases steps - i,
    {
        proof {
            lemma_pow10_monotone((i + 1) as nat, 38);
            lemma_pow10_38();
        }
        divisor = divisor * 10;
        i = i + 1;
    }
    proof {
        lemma_pow10_monotone(0, steps as nat);
    }
    div_round(value, divisor)
}

/// Shares that a change of `current_change_value` units is worth in a pool
/// of `total_value` units and `total_shares` shares.
pub fn calc_change_shares(current_change_value: u64, total_value: u64, total_shares: u128) -> (r:
    u128)
    requires
        total_value > 0,
        current_change_value * total_shares <= u128::MAX,
    ensures
        r == change_shares(current_change_value as int, total_value as int, total_shares as int),
{
    div_round(current_change_value as u128 * total_shares, total_value as u128)
}

/// The share total after a change of `current_change_value` units, in the
/// direction `share_op`. A decrease must not exceed the shares it removes.
pub fn calc_new_total_shares(
    current_change_value: u64,
    total_value: u64,
    total_shares: u128,
    share_op: ShareOp,
) -> (r: u128)
    requires
        total_value > 0,
        current_change_value * total_shares <= u128::MAX,
        share_op == ShareOp::Increase ==> total_shares + change_shares(
            current_change_value as int,
            total_value as int,
            total_shares as int,
        ) <= u128::MAX,
        share_op == ShareOp::Decrease ==> change_shares(
            current_change_value as int,
            total_value as int,
            total_shares as int,
        ) <= total_shares,
    ensures
        share_op == ShareOp::Increase ==> r == total_shares + change_shares(
            current_change_value as int,
            total_value as int,
            total_shares as int,
        ),
        share_op == ShareOp::Decrease ==> r == total_shares - change_shares(
            current_change_value as int,
            total_value as int,
            total_shares as int,
        ),
{
    let delta = calc_change_shares(current_change_value, total_value, total_shares);
    match share_op {
        ShareOp::Increase => total_shares + delta,
        ShareOp::Decrease => total_shares - delta,
    }
}

/// A change at a price of one share per unit maps to the same number of
/// whole shares.
pub proof fn lemma_change_shares_at_par(change: int, total: int)
    requires
        total > 0,
    ensures
        change_shares(change, total, total * SHARE_SCALE) == change * SHARE_SCALE,
{
    assert(change * (total * SHARE_SCALE) == (change * SHARE_SCALE) * total) by (nonlinear_arith);
    lemma_div_round_exact(change * SHARE_SCALE, total);
}

} // verus!
