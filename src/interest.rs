use vstd::prelude::*;
use vstd::arithmetic::div_mod::{
    lemma_div_is_ordered, lemma_div_multiples_vanish,
};
use vstd::arithmetic::mul::{lemma_mul_inequality, lemma_mul_upper_bound};
use crate::errors::ErrorCode;
use crate::shares::{
    div_round_half_up, lemma_div_round_monotone, lemma_div_round_nonneg, pow10,
    round_to_n_decimal, SHARE_DECIMALS, SHARE_SCALE,
};

verus! {

/// Decimal digits of an interest rate per second, and of the accrual
/// exponent `rate * elapsed`.
pub const RATE_DECIMALS: u32 = 18;

/// The rate, or exponent, that stands for one.
pub const RATE_SCALE: u128 = 1_000_000_000_000_000_000;

/// Number of terms of the series for `e^x - 1` that are summed.
pub const SERIES_TERMS: u128 = 18;

/// Seconds since `last_update`; zero when `now` is not later.
pub open spec fn elapsed_since(last_update: int, now: int) -> int {
    if now > last_update {
        now - last_update
    } else {
        0
    }
}

/// The accrual exponent `rate * elapsed`, with `RATE_DECIMALS` digits.
pub open spec fn accrual_exponent(rate: int, last_update: int, now: int) -> int {
    rate * elapsed_since(last_update, now)
}

/// The `k`-th term `x^k / k!` of the series for `e^x`, at fixed point with
/// `RATE_DECIMALS` digits, each term derived from the one before and
/// truncated.
pub open spec fn series_term(x: int, k: nat) -> int
    decreases k,
{
    if k == 0 {
        RATE_SCALE as int
    } else {
        series_term(x, (k - 1) as nat) * x / (k * RATE_SCALE)
    }
}

/// The sum of the terms one to `n`: `e^x - 1` truncated after `n` terms.
pub open spec fn series_sum(x: int, n: nat) -> int
    decreases n,
{
    if n == 0 {
        0
    } else {
        series_sum(x, (n - 1) as nat) + series_term(x, n)
    }
}

/// `e^x - 1` at fixed point, for an exponent `x` with `RATE_DECIMALS` digits.
pub open spec fn growth(x: int) -> int {
    series_sum(x, SERIES_TERMS as nat)
}

/// `e^f` at fixed point, for `0 <= f <= 1`.
pub open spec fn exp_part(f: int) -> int {
    RATE_SCALE + growth(f)
}

/// The fixed-point product of `a` and `b`, truncated.
pub open spec fn fp_mul(a: int, b: int) -> int {
    a * b / (RATE_SCALE as int)
}

/// `e^n` at fixed point for a whole number `n`: `n` truncated products
/// by `e`.
pub open spec fn exp_whole(n: nat) -> int
    decreases n,
{
    if n == 0 {
        RATE_SCALE as int
    } else {
        fp_mul(exp_whole((n - 1) as nat), exp_part(RATE_SCALE as int))
    }
}

/// `e^x` at fixed point for an exponent `x >= 0` with `RATE_DECIMALS`
/// digits: `e` to the whole part of `x`, times `e` to its fraction.
pub open spec fn exp_fixed(x: int) -> int {
    fp_mul(exp_whole((x / RATE_SCALE as int) as nat), exp_part(x % RATE_SCALE as int))
}

/// The intermediate products of `exp_fixed(x)` fit in a `u128`.
pub open spec fn exp_fits(x: int) -> bool {
    let n = x / RATE_SCALE as int;
    &&& (n > 0 ==> exp_whole((n - 1) as nat) * exp_part(RATE_SCALE as int) <= u128::MAX)
    &&& exp_whole(n as nat) * exp_part(x % RATE_SCALE as int) <= u128::MAX
}

/// Interest accrued on `base` units at `rate` from `last_update` to `now`:
/// `base * (e^(rate * elapsed) - 1)`, rounded half up to `SHARE_DECIMALS`
/// digits. The result carries `SHARE_DECIMALS` digits.
pub open spec fn accrued_interest(base: int, rate: int, last_update: int, now: int) -> int {
    div_round_half_up(
        base * (exp_fixed(accrual_exponent(rate, last_update, now)) - RATE_SCALE),
        pow10((RATE_DECIMALS - SHARE_DECIMALS) as nat) as int,
    )
}

/// `base` units with the interest accrued on them, with `SHARE_DECIMALS`
/// digits.
pub open spec fn principal_plus_interest(base: int, rate: int, last_update: int, now: int) -> int {
    base * SHARE_SCALE + accrued_interest(base, rate, last_update, now)
}

/// The accrued interest can be computed in `u128` arithmetic.
pub open spec fn accrual_fits(base: int, rate: int, last_update: int, now: int) -> bool {
    let x = accrual_exponent(rate, last_update, now);
    base == 0 || (exp_fits(x) && base * (exp_fixed(x) - RATE_SCALE) <= u128::MAX)
}

/// The principal with interest can be computed in `u128` arithmetic.
pub open spec fn interest_fits(base: int, rate: int, last_update: int, now: int) -> bool {
    &&& accrual_fits(base, rate, last_update, now)
    &&& principal_plus_interest(base, rate, last_update, now) <= u128::MAX
}

proof fn lemma_term_step(t: int, x: int, k: int)
    requires
        0 <= t <= RATE_SCALE,
        0 <= x <= RATE_SCALE,
        k >= 1,
    ensures
        t * x <= RATE_SCALE * RATE_SCALE,
        0 <= t * x / (k * RATE_SCALE) <= t,
{
    let s = RATE_SCALE as int;
    lemma_mul_upper_bound(t, s, x, s);
    assert(x <= k * s) by (nonlinear_arith)
        requires
            x <= s,
            k >= 1,
            s > 0,
    ;
    lemma_mul_inequality(x, k * s, t);
    assert(t * x <= (k * s) * t) by (nonlinear_arith)
        requires
            x * t <= (k * s) * t,
    ;
    assert(t * x >= 0) by (nonlinear_arith)
        requires
            t >= 0,
            x >= 0,
    ;
    assert(k * s > 0) by (nonlinear_arith)
        requires
            k >= 1,
            s > 0,
    ;
    lemma_div_is_ordered(t * x, (k * s) * t, k * s);
    lemma_div_multiples_vanish(t, k * s);
    lemma_div_is_ordered(0, t * x, k * s);
}

/// Every term of the series lies between zero and one.
pub proof fn lemma_series_term_bounds(x: int, k: nat)
    requires
        0 <= x <= RATE_SCALE,
    ensures
        0 <= series_term(x, k) <= RATE_SCALE,
    decreases k,
{
    if k > 0 {
        lemma_series_term_bounds(x, (k - 1) as nat);
        lemma_term_step(series_term(x, (k - 1) as nat), x, k as int);
    }
}

/// The partial sums stay within `n` times one.
pub proof fn lemma_series_sum_bounds(x: int, n: nat)
    requires
        0 <= x <= RATE_SCALE,
    ensures
        0 <= series_sum(x, n) <= n * RATE_SCALE,
    decreases n,
{
    if n > 0 {
        lemma_series_sum_bounds(x, (n - 1) as nat);
        lemma_series_term_bounds(x, n);
    }
}

/// Each term grows with the exponent.
pub proof fn lemma_series_term_monotone(x1: int, x2: int, k: nat)
    requires
        0 <= x1 <= x2 <= RATE_SCALE,
    ensures
        series_term(x1, k) <= series_term(x2, k),
    decreases k,
{
    if k > 0 {
        lemma_series_term_monotone(x1, x2, (k - 1) as nat);
        let t1 = series_term(x1, (k - 1) as nat);
        let t2 = series_term(x2, (k - 1) as nat);
        lemma_series_term_bounds(x1, (k - 1) as nat);
        lemma_series_term_bounds(x2, (k - 1) as nat);
        lemma_mul_upper_bound(t1, t2, x1, x2);
        assert(k * RATE_SCALE > 0) by (nonlinear_arith)
            requires
                k >= 1,
        ;
        lemma_div_is_ordered(t1 * x1, t2 * x2, k * RATE_SCALE);
    }
}

/// The partial sums grow with the exponent.
pub proof fn lemma_series_sum_monotone(x1: int, x2: int, n: nat)
    requires
        0 <= x1 <= x2 <= RATE_SCALE,
    ensures
        series_sum(x1, n) <= series_sum(x2, n),
    decreases n,
{
    if n > 0 {
        lemma_series_sum_monotone(x1, x2, (n - 1) as nat);
        lemma_series_term_monotone(x1, x2, n);
    }
}

/// At exponent zero every term after the first vanishes.
pub proof fn lemma_series_at_zero(n: nat)
    ensures
        series_sum(0, n) == 0,
        n > 0 ==> series_term(0, n) == 0,
    decreases n,
{
    if n > 0 {
        lemma_series_at_zero((n - 1) as nat);
        assert(series_term(0, (n - 1) as nat) * 0 == 0);
    }
}

proof fn lemma_pow10_positive(n: nat)
    ensures
        pow10(n) >= 1,
    decreases n,
{
    if n > 0 {
        lemma_pow10_positive((n - 1) as nat);
    }
}

/// `e^f` for a fraction lies between one and nineteen, and grows with `f`.
pub proof fn lemma_exp_part_monotone(f1: int, f2: int)
    requires
        0 <= f1 <= f2 <= RATE_SCALE,
    ensures
        RATE_SCALE <= exp_part(f1) <= exp_part(f2),
        exp_part(f2) <= (SERIES_TERMS + 1) * RATE_SCALE,
{
    lemma_series_sum_bounds(f1, SERIES_TERMS as nat);
    lemma_series_sum_bounds(f2, SERIES_TERMS as nat);
    lemma_series_sum_monotone(f1, f2, SERIES_TERMS as nat);
}

/// Truncated fixed-point products are monotone in both factors.
pub proof fn lemma_fp_mul_monotone(a1: int, a2: int, b1: int, b2: int)
    requires
        0 <= a1 <= a2,
        0 <= b1 <= b2,
    ensures
        0 <= fp_mul(a1, b1) <= fp_mul(a2, b2),
{
    lemma_mul_upper_bound(a1, a2, b1, b2);
    assert(a1 * b1 >= 0) by (nonlinear_arith)
        requires
            a1 >= 0,
            b1 >= 0,
    ;
    lemma_div_is_ordered(a1 * b1, a2 * b2, RATE_SCALE as int);
    lemma_div_is_ordered(0, a1 * b1, RATE_SCALE as int);
}

/// Multiplying by one at fixed point changes nothing.
pub proof fn lemma_fp_mul_one(a: int)
    requires
        a >= 0,
    ensures
        fp_mul(a, RATE_SCALE as int) == a,
{
    lemma_div_multiples_vanish(a, RATE_SCALE as int);
    assert(a * RATE_SCALE == RATE_SCALE * a) by (nonlinear_arith);
}

/// `e^n` is at least one and grows with `n`.
pub proof fn lemma_exp_whole_monotone(n1: nat, n2: nat)
    requires
        n1 <= n2,
    ensures
        RATE_SCALE <= exp_whole(n1) <= exp_whole(n2),
    decreases n2,
{
    if n2 > n1 {
        lemma_exp_whole_monotone(n1, (n2 - 1) as nat);
        let p = exp_whole((n2 - 1) as nat);
        lemma_exp_part_monotone(0, RATE_SCALE as int);
        lemma_fp_mul_one(p);
        lemma_fp_mul_monotone(p, p, RATE_SCALE as int, exp_part(RATE_SCALE as int));
    } else if n1 > 0 {
        lemma_exp_whole_monotone((n1 - 1) as nat, (n1 - 1) as nat);
        let p = exp_whole((n1 - 1) as nat);
        lemma_exp_part_monotone(0, RATE_SCALE as int);
        lemma_fp_mul_one(p);
        lemma_fp_mul_monotone(p, p, RATE_SCALE as int, exp_part(RATE_SCALE as int));
    }
}

/// `e^x` is at least one, equals one at zero, and grows with `x`; so do
/// the conditions for computing it.
pub proof fn lemma_exp_fixed_monotone(x1: int, x2: int)
    requires
        0 <= x1 <= x2,
    ensures
        RATE_SCALE <= exp_fixed(x1) <= exp_fixed(x2),
        x1 == 0 ==> exp_fixed(x1) == RATE_SCALE,
        exp_fits(x2) ==> exp_fits(x1),
{
    let s = RATE_SCALE as int;
    let n1 = x1 / s;
    let n2 = x2 / s;
    let f1 = x1 % s;
    let f2 = x2 % s;
    lemma_div_is_ordered(x1, x2, s);
    lemma_div_is_ordered(0, x1, s);
    assert(0 <= f1 < s && 0 <= f2 < s);
    let e1 = exp_part(s);
    lemma_exp_part_monotone(f1, s);
    lemma_exp_part_monotone(f2, s);
    lemma_exp_whole_monotone(n1 as nat, n2 as nat);
    let p1 = exp_whole(n1 as nat);
    let p2 = exp_whole(n2 as nat);
    lemma_fp_mul_one(p1);
    lemma_fp_mul_one(p2);
    lemma_fp_mul_monotone(p1, p1, s, exp_part(f1));
    if n1 == n2 {
        lemma_exp_part_monotone(f1, f2);
        lemma_fp_mul_monotone(p1, p2, exp_part(f1), exp_part(f2));
        lemma_mul_upper_bound(p1, p2, exp_part(f1), exp_part(f2));
    } else {
        lemma_fp_mul_monotone(p1, p1, exp_part(f1), e1);
        assert(fp_mul(p1, e1) == exp_whole((n1 + 1) as nat));
        lemma_exp_whole_monotone((n1 + 1) as nat, n2 as nat);
        lemma_fp_mul_monotone(p2, p2, s, exp_part(f2));
        lemma_exp_whole_monotone(n1 as nat, (n2 - 1) as nat);
        lemma_mul_upper_bound(p1, exp_whole((n2 - 1) as nat), exp_part(f1), e1);
        lemma_mul_upper_bound(p1, p1, e1, e1);
        if n1 > 0 {
            lemma_exp_whole_monotone((n1 - 1) as nat, (n2 - 1) as nat);
            lemma_mul_upper_bound(exp_whole((n1 - 1) as nat), exp_whole((n2 - 1) as nat), e1, e1);
        }
    }
    if x1 == 0 {
        assert(n1 == 0 && f1 == 0);
        lemma_series_at_zero(SERIES_TERMS as nat);
        lemma_fp_mul_one(s);
    }
}

/// Accrual is non-negative, zero until time has passed since
/// `last_update`, and non-decreasing in time, for every base and rate; a
/// computation that fits at a later time fits at an earlier one.
pub proof fn lemma_accrued_interest_monotone(
    base: u64,
    rate: u64,
    last_update: i64,
    now1: i64,
    now2: i64,
)
    requires
        now1 <= now2,
    ensures
        0 <= accrued_interest(base as int, rate as int, last_update as int, now1 as int)
            <= accrued_interest(base as int, rate as int, last_update as int, now2 as int),
        now1 <= last_update ==> accrued_interest(
            base as int,
            rate as int,
            last_update as int,
            now1 as int,
        ) == 0,
        base * SHARE_SCALE <= principal_plus_interest(
            base as int,
            rate as int,
            last_update as int,
            now1 as int,
        ) <= principal_plus_interest(base as int, rate as int, last_update as int, now2 as int),
        interest_fits(base as int, rate as int, last_update as int, now2 as int) ==> interest_fits(
            base as int,
            rate as int,
            last_update as int,
            now1 as int,
        ),
{
    let e1 = elapsed_since(last_update as int, now1 as int);
    let e2 = elapsed_since(last_update as int, now2 as int);
    assert(0 <= e1 <= e2);
    lemma_mul_inequality(e1, e2, rate as int);
    assert(rate * e1 == e1 * rate && rate * e2 == e2 * rate) by (nonlinear_arith);
    assert(rate * e1 >= 0) by (nonlinear_arith)
        requires
            rate >= 0,
            e1 >= 0,
    ;
    let x1 = accrual_exponent(rate as int, last_update as int, now1 as int);
    let x2 = accrual_exponent(rate as int, last_update as int, now2 as int);
    lemma_exp_fixed_monotone(x1, x2);
    let g1 = exp_fixed(x1) - RATE_SCALE;
    let g2 = exp_fixed(x2) - RATE_SCALE;
    lemma_mul_inequality(g1, g2, base as int);
    assert(base * g1 <= base * g2 && base * g1 >= 0) by (nonlinear_arith)
        requires
            g1 * base <= g2 * base,
            g1 >= 0,
            base >= 0,
    ;
    let d = pow10((RATE_DECIMALS - SHARE_DECIMALS) as nat) as int;
    lemma_pow10_positive((RATE_DECIMALS - SHARE_DECIMALS) as nat);
    lemma_div_round_monotone(base * g1, base * g2, d);
    lemma_div_round_nonneg(base * g1, d);
    if now1 <= last_update {
        assert(x1 == 0);
        assert(base * g1 == 0) by (nonlinear_arith)
            requires
                g1 == 0,
        ;
        lemma_div_is_ordered(0, d, 2 * d);
        assert(d / (2 * d) == 0) by (nonlinear_arith)
            requires
                d >= 1,
        ;
    }
}

/// Interest on a zero balance is zero.
pub proof fn lemma_accrued_interest_zero_base(rate: int, last_update: int, now: int)
    ensures
        accrued_interest(0, rate, last_update, now) == 0,
        accrual_fits(0, rate, last_update, now),
{
    let d = pow10((RATE_DECIMALS - SHARE_DECIMALS) as nat) as int;
    lemma_pow10_positive((RATE_DECIMALS - SHARE_DECIMALS) as nat);
    assert(0 * (exp_fixed(accrual_exponent(rate, last_update, now)) - RATE_SCALE) == 0);
    assert(d / (2 * d) == 0) by (nonlinear_arith)
        requires
            d >= 1,
    ;
}

/// `e^x - 1` for `x <= 1`, both at fixed point with `RATE_DECIMALS` digits.
pub fn growth_factor(x: u128) -> (r: u128)
    requires
        x <= RATE_SCALE,
    ensures
        r == growth(x as int),
        r <= SERIES_TERMS * RATE_SCALE,
{
    let mut term: u128 = RATE_SCALE;
    let mut sum: u128 = 0;
    let mut k: u128 = 0;
    while k < SERIES_TERMS
        invariant
            x <= RATE_SCALE,
            k <= SERIES_TERMS,
            term == series_term(x as int, k as nat),
            sum == series_sum(x as int, k as nat),
            sum <= k * RATE_SCALE,
        decreases SERIES_TERMS - k,
    {
        proof {
            lemma_series_term_bounds(x as int, k as nat);
            lemma_term_step(term as int, x as int, (k + 1) as int);
        }
        k = k + 1;
        term = term * x / (k * RATE_SCALE);
        sum = sum + term;
    }
    sum
}

/// `e^x` for an exponent `x >= 0`, both at fixed point with
/// `RATE_DECIMALS` digits; `None` when an intermediate product does not fit.
pub fn exp_fixed_point(x: u128) -> (r: Option<u128>)
    ensures
        exp_fits(x as int) ==> r == Some(exp_fixed(x as int) as u128),
        !exp_fits(x as int) ==> r.is_none(),
{
    let n = x / RATE_SCALE;
    let f = x % RATE_SCALE;
    let e1 = RATE_SCALE + growth_factor(RATE_SCALE);
    let ef = RATE_SCALE + growth_factor(f);
    let mut p: u128 = RATE_SCALE;
    let mut k: u128 = 0;
    while k < n
        invariant
            k <= n,
            n == x / RATE_SCALE,
            e1 == exp_part(RATE_SCALE as int),
            p == exp_whole(k as nat),
            k > 0 ==> exp_whole((k - 1) as nat) * e1 <= u128::MAX,
        decreases n - k,
    {
        proof {
            lemma_exp_whole_monotone(k as nat, (n - 1) as nat);
            lemma_exp_part_monotone(0, RATE_SCALE as int);
            lemma_mul_inequality(p as int, exp_whole((n - 1) as nat), e1 as int);
        }
        match p.checked_mul(e1) {
            Some(v) => {
                p = v / RATE_SCALE;
            },
            None => {
                return None;
            },
        }
        k = k + 1;
    }
    proof {
        assert(f == x as int % RATE_SCALE as int);
        assert(ef == exp_part(f as int));
    }
    match p.checked_mul(ef) {
        Some(v) => Some(v / RATE_SCALE),
        None => None,
    }
}

/// Interest accrued on `base` units at `interest` per second (with
/// `RATE_DECIMALS` digits) from `last_update` to `now`, with
/// `SHARE_DECIMALS` digits. Zero on a zero balance; fails with
/// `MathOverflow` only when the computation does not fit a `u128`.
pub fn calc_accrued_interest(base: u64, interest: u64, last_update: i64, now: i64) -> (r: Result<
    u128,
    ErrorCode,
>)
    ensures
        base == 0 ==> r == Ok::<u128, ErrorCode>(0),
        accrual_fits(base as int, interest as int, last_update as int, now as int) ==> (r matches Ok(
            v,
        ) && v == accrued_interest(base as int, interest as int, last_update as int, now as int)),
        !accrual_fits(base as int, interest as int, last_update as int, now as int) ==> r == Err::<
            u128,
            ErrorCode,
        >(ErrorCode::MathOverflow),
{
    if base == 0 {
        proof {
            lemma_accrued_interest_zero_base(interest as int, last_update as int, now as int);
        }
        return Ok(0);
    }
    let elapsed: u128 = if now > last_update {
        (now as i128 - last_update as i128) as u128
    } else {
        0
    };
    proof {
        assert(elapsed == elapsed_since(last_update as int, now as int));
        assert(elapsed <= u64::MAX);
        lemma_mul_upper_bound(interest as int, u64::MAX as int, elapsed as int, u64::MAX as int);
        assert(interest * elapsed >= 0) by (nonlinear_arith)
            requires
                interest >= 0,
                elapsed >= 0,
        ;
    }
    let x = interest as u128 * elapsed;
    let g = match exp_fixed_point(x) {
        Some(g) => g,
        None => {
            return Err(ErrorCode::MathOverflow);
        },
    };
    proof {
        lemma_exp_fixed_monotone(x as int, x as int);
    }
    let prod = match (base as u128).checked_mul(g - RATE_SCALE) {
        Some(v) => v,
        None => {
            return Err(ErrorCode::MathOverflow);
        },
    };
    Ok(round_to_n_decimal(prod, RATE_DECIMALS, SHARE_DECIMALS))
}

/// `base` units with the interest accrued on them, with `SHARE_DECIMALS`
/// digits. Fails with `MathOverflow` only when the computation does not fit
/// a `u128`.
pub fn calc_base_sum_interest(base: u64, interest: u64, last_update: i64, now: i64) -> (r: Result<
    u128,
    ErrorCode,
>)
    ensures
        interest_fits(base as int, interest as int, last_update as int, now as int) ==> (r matches Ok(
            v,
        ) && v == principal_plus_interest(
            base as int,
            interest as int,
            last_update as int,
            now as int,
        )),
        !interest_fits(base as int, interest as int, last_update as int, now as int) ==> r == Err::<
            u128,
            ErrorCode,
        >(ErrorCode::MathOverflow),
{
    let accrued = match calc_accrued_interest(base, interest, last_update, now) {
        Ok(v) => v,
        Err(e) => {
            return Err(e);
        },
    };
    match (base as u128 * SHARE_SCALE).checked_add(accrued) {
        Some(v) => Ok(v),
        None => Err(ErrorCode::MathOverflow),
    }
}

} // verus!
