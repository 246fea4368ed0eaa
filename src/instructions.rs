use vstd::prelude::*;
use crate::enums::MintKind;
use crate::errors::ErrorCode;
use crate::interest::{calc_base_sum_interest, interest_fits, principal_plus_interest};
use crate::shares::{calc_change_shares, change_shares, SHARE_SCALE};
use crate::states::{Bank, Position, User, RATIO_SCALE};

verus! {

/// Shares minted for `amount` units added to a side of a pool that holds
/// `total` units against `shares` shares: one whole share per unit when the
/// side is empty, the proportional share otherwise.
pub open spec fn shares_minted(total: int, shares: int, amount: int) -> int {
    if total == 0 {
        amount * SHARE_SCALE
    } else {
        change_shares(amount, total, shares)
    }
}

/// Adding `amount` units to the side keeps every total within its field.
pub open spec fn grow_fits(total: int, shares: int, amount: int) -> bool {
    &&& (total > 0 ==> amount * shares <= u128::MAX)
    &&& total + amount <= u64::MAX
    &&& shares + shares_minted(total, shares, amount) <= u128::MAX
}

/// Principal released when a holder of `held_amount` units takes out
/// `amount`: never more than the holder's principal.
pub open spec fn units_released(held_amount: int, amount: int) -> int {
    if amount <= held_amount {
        amount
    } else {
        held_amount
    }
}

/// Shares burned when a holder of `held_shares` shares takes `amount`
/// units out of a side holding `total` units against `shares` shares: the
/// proportional share, but never more than the holder has.
pub open spec fn shares_burned(total: int, shares: int, held_shares: int, amount: int) -> int {
    let due = change_shares(amount, total, shares);
    if due <= held_shares {
        due
    } else {
        held_shares
    }
}

/// After taking `amount` out, the side has shares exactly when it has units.
pub open spec fn shrink_balanced(
    total: int,
    shares: int,
    held_amount: int,
    held_shares: int,
    amount: int,
) -> bool {
    (total - units_released(held_amount, amount) == 0) == (shares - shares_burned(
        total,
        shares,
        held_shares,
        amount,
    ) == 0)
}

/// What a deposit of `amount` units of `kind` does: the new pool and
/// position ledgers, or the error.
pub open spec fn deposit_outcome(bank: Bank, user: User, kind: MintKind, amount: u64) -> Result<
    (Bank, User),
    ErrorCode,
> {
    let t = bank.total_deposited_amount as int;
    let s = bank.total_deposited_shares as int;
    let p = user.spec_position(kind);
    let m = shares_minted(t, s, amount as int);
    if amount == 0 {
        Err(ErrorCode::DepositedAmountLessOrEqualZero)
    } else if !grow_fits(t, s, amount as int) {
        Err(ErrorCode::MathOverflow)
    } else {
        Ok(
            (
                Bank {
                    total_deposited_amount: (t + amount) as u64,
                    total_deposited_shares: (s + m) as u128,
                    ..bank
                },
                user.with_position(
                    kind,
                    Position {
                        deposited_amount: (p.deposited_amount + amount) as u64,
                        deposited_shares: (p.deposited_shares + m) as u128,
                        ..p
                    },
                ),
            ),
        )
    }
}

/// What a withdrawal of `amount` units of `kind` at time `now` does.
pub open spec fn withdraw_outcome(
    bank: Bank,
    user: User,
    kind: MintKind,
    amount: u64,
    now: i64,
) -> Result<(Bank, User), ErrorCode> {
    let t = bank.total_deposited_amount as int;
    let s = bank.total_deposited_shares as int;
    let p = user.spec_position(kind);
    let a = p.deposited_amount as int;
    let h = p.deposited_shares as int;
    let rate = bank.deposited_interest_ratio as int;
    let released = units_released(a, amount as int);
    let burned = shares_burned(t, s, h, amount as int);
    if a == 0 {
        Err(ErrorCode::NotEnoughBalance)
    } else if !interest_fits(a, rate, user.last_updated as int, now as int) {
        Err(ErrorCode::MathOverflow)
    } else if amount * SHARE_SCALE > principal_plus_interest(
        a,
        rate,
        user.last_updated as int,
        now as int,
    ) {
        Err(ErrorCode::NotEnoughBalance)
    } else if amount > t {
        Err(ErrorCode::PoolTotalExceeded)
    } else if amount * s > u128::MAX {
        Err(ErrorCode::MathOverflow)
    } else if !shrink_balanced(t, s, a, h, amount as int) {
        Err(ErrorCode::PoolTotalsInconsistent)
    } else {
        Ok(
            (
                Bank {
                    total_deposited_amount: (t - released) as u64,
                    total_deposited_shares: (s - burned) as u128,
                    ..bank
                },
                user.with_position(
                    kind,
                    Position {
                        deposited_amount: (a - released) as u64,
                        deposited_shares: (h - burned) as u128,
                        ..p
                    },
                ),
            ),
        )
    }
}

/// What a repayment of `amount` units of `kind` at time `now` does.
pub open spec fn repay_outcome(
    bank: Bank,
    user: User,
    kind: MintKind,
    amount: u64,
    now: i64,
) -> Result<(Bank, User), ErrorCode> {
    let t = bank.total_borrowed_amount as int;
    let s = bank.total_borrowed_shares as int;
    let p = user.spec_position(kind);
    let a = p.borrowed_amount as int;
    let h = p.borrowed_shares as int;
    let rate = bank.borrowed_interest_ratio as int;
    let released = units_released(a, amount as int);
    let burned = shares_burned(t, s, h, amount as int);
    if a == 0 {
        Err(ErrorCode::NoNeedToRepay)
    } else if !interest_fits(a, rate, user.last_updated as int, now as int) {
        Err(ErrorCode::MathOverflow)
    } else if amount * SHARE_SCALE > principal_plus_interest(
        a,
        rate,
        user.last_updated as int,
        now as int,
    ) {
        Err(ErrorCode::RepayExceedBorrowed)
    } else if amount * s > u128::MAX {
        Err(ErrorCode::MathOverflow)
    } else if !shrink_balanced(t, s, a, h, amount as int) {
        Err(ErrorCode::PoolTotalsInconsistent)
    } else {
        Ok(
            (
                Bank {
                    total_borrowed_amount: (t - released) as u64,
                    total_borrowed_shares: (s - burned) as u128,
                    ..bank
                },
                user.with_position(
                    kind,
                    Position {
                        borrowed_amount: (a - released) as u64,
                        borrowed_shares: (h - burned) as u128,
                        ..p
                    },
                ),
            ),
        )
    }
}

/// What borrowing `to_borrow_value` (price units with `SHARE_DECIMALS`
/// digits) of `to_borrow_kind` against `collateralized_kind` does, at the
/// given oracle prices and time: the new ledgers and the units lent out.
pub open spec fn borrow_outcome(
    bank: Bank,
    user: User,
    collateralized_kind: MintKind,
    to_borrow_kind: MintKind,
    to_borrow_value: u128,
    collateral_price: i64,
    borrow_price: i64,
    now: i64,
) -> Result<(Bank, User, u64), ErrorCode> {
    let c = user.spec_position(collateralized_kind);
    let rate = bank.deposited_interest_ratio as int;
    let principal = principal_plus_interest(
        c.deposited_amount as int,
        rate,
        user.last_updated as int,
        now as int,
    );
    let value = principal * collateral_price;
    let amount = to_borrow_value as int / (borrow_price * SHARE_SCALE);
    let t = bank.total_borrowed_amount as int;
    let s = bank.total_borrowed_shares as int;
    let p = user.spec_position(to_borrow_kind);
    let m = shares_minted(t, s, amount);
    if collateralized_kind == to_borrow_kind {
        Err(ErrorCode::BorrowNotAllowed)
    } else if !interest_fits(c.deposited_amount as int, rate, user.last_updated as int, now as int) {
        Err(ErrorCode::MathOverflow)
    } else if value <= 0 {
        Err(ErrorCode::DepositedValueLessOrEqualZero)
    } else if value > u128::MAX || value * bank.max_ltv > u128::MAX || to_borrow_value * RATIO_SCALE
        > u128::MAX {
        Err(ErrorCode::MathOverflow)
    } else if to_borrow_value * RATIO_SCALE > value * bank.max_ltv {
        Err(ErrorCode::NotEnoughLiquidationAssets)
    } else if borrow_price <= 0 {
        Err(ErrorCode::InvalidPrice)
    } else if amount > u64::MAX || !grow_fits(t, s, amount) {
        Err(ErrorCode::MathOverflow)
    } else {
        Ok(
            (
                Bank {
                    total_borrowed_amount: (t + amount) as u64,
                    total_borrowed_shares: (s + m) as u128,
                    ..bank
                },
                user.with_position(
                    to_borrow_kind,
                    Position {
                        borrowed_amount: (p.borrowed_amount + amount) as u64,
                        borrowed_shares: (p.borrowed_shares + m) as u128,
                        ..p
                    },
                ),
                amount as u64,
            ),
        )
    }
}

/// Shares minted for `amount` units added to a side of a pool; fails when
/// a total would leave its field.
fn grow_side(total: u64, shares: u128, amount: u64) -> (r: Result<u128, ErrorCode>)
    ensures
        grow_fits(total as int, shares as int, amount as int) ==> r == Ok::<u128, ErrorCode>(
            shares_minted(total as int, shares as int, amount as int) as u128,
        ),
        !grow_fits(total as int, shares as int, amount as int) ==> r == Err::<u128, ErrorCode>(
            ErrorCode::MathOverflow,
        ),
{
    let minted = if total == 0 {
        amount as u128 * SHARE_SCALE
    } else {
        if (amount as u128).checked_mul(shares).is_none() {
            return Err(ErrorCode::MathOverflow);
        }
        calc_change_shares(amount, total, shares)
    };
    if total.checked_add(amount).is_none() || shares.checked_add(minted).is_none() {
        return Err(ErrorCode::MathOverflow);
    }
    Ok(minted)
}

/// Principal released and shares burned when a holder takes `amount` units
/// out of a side of a pool; fails on overflow, or when the side would be
/// left with units but no shares or the reverse.
fn shrink_side(total: u64, shares: u128, held_amount: u64, held_shares: u128, amount: u64) -> (r:
    Result<(u64, u128), ErrorCode>)
    requires
        total > 0,
        held_amount <= total,
        held_shares <= shares,
    ensures
        amount * shares > u128::MAX ==> r == Err::<(u64, u128), ErrorCode>(ErrorCode::MathOverflow),
        amount * shares <= u128::MAX && !shrink_balanced(
            total as int,
            shares as int,
            held_amount as int,
            held_shares as int,
            amount as int,
        ) ==> r == Err::<(u64, u128), ErrorCode>(ErrorCode::PoolTotalsInconsistent),
        amount * shares <= u128::MAX && shrink_balanced(
            total as int,
            shares as int,
            held_amount as int,
            held_shares as int,
            amount as int,
        ) ==> r == Ok::<(u64, u128), ErrorCode>(
            (
                units_released(held_amount as int, amount as int) as u64,
                shares_burned(total as int, shares as int, held_shares as int, amount as int) as u128,
            ),
        ),
{
    if (amount as u128).checked_mul(shares).is_none() {
        return Err(ErrorCode::MathOverflow);
    }
    let due = calc_change_shares(amount, total, shares);
    let burned = if due <= held_shares {
        due
    } else {
        held_shares
    };
    let released = if amount <= held_amount {
        amount
    } else {
        held_amount
    };
    if ((total - released) == 0) != ((shares - burned) == 0) {
        return Err(ErrorCode::PoolTotalsInconsistent);
    }
    Ok((released, burned))
}

/// Deposits `current_deposit_amount` units of `mint_kind`: the pool and the
/// position gain the amount and the same number of new shares. On success
/// the caller moves the returned number of units from the user to the pool;
/// on failure neither ledger changes.
///
/// Shares are priced on the pool's stored principal: interest that has
/// accrued since the positions' reference times is not folded into the
/// pool total first, so it dilutes existing depositors in favour of the new
/// one.
pub fn deposit_handler(
    bank: &mut Bank,
    user: &mut User,
    mint_kind: MintKind,
    current_deposit_amount: u64,
) -> (r: Result<u64, ErrorCode>)
    requires
        old(bank).wf(),
        old(user).spec_position(mint_kind).within(*old(bank)),
    ensures
        match deposit_outcome(*old(bank), *old(user), mint_kind, current_deposit_amount) {
            Ok((b, u)) => {
                &&& r == Ok::<u64, ErrorCode>(current_deposit_amount)
                &&& *final(bank) == b
                &&& *final(user) == u
            },
            Err(e) => {
                &&& r == Err::<u64, ErrorCode>(e)
                &&& *final(bank) == *old(bank)
                &&& *final(user) == *old(user)
            },
        },
        final(bank).wf(),
        final(user).spec_position(mint_kind).within(*final(bank)),
{
    if current_deposit_amount == 0 {
        return Err(ErrorCode::DepositedAmountLessOrEqualZero);
    }
    let minted = grow_side(
        bank.total_deposited_amount,
        bank.total_deposited_shares,
        current_deposit_amount,
    )?;
    let p = user.position(mint_kind);
    bank.total_deposited_amount = bank.total_deposited_amount + current_deposit_amount;
    bank.total_deposited_shares = bank.total_deposited_shares + minted;
    user.set_position(
        mint_kind,
        Position {
            deposited_amount: p.deposited_amount + current_deposit_amount,
            deposited_shares: p.deposited_shares + minted,
            ..p
        },
    );
    Ok(current_deposit_amount)
}

/// Withdraws `amount` units of `mint_kind` at time `now`: the request may
/// reach the deposit with interest, but not the pool's recorded deposits;
/// the pool and the position give up the principal taken (at most the
/// position's) and the proportional shares (at most the position's).
/// The recorded totals count principal only: interest paid above the
/// position's principal leaves the pool's custody without lowering its
/// recorded total, which stays the sum of the positions' principals. On success the caller moves the returned number of
/// units from the pool to the user; on failure neither ledger changes.
pub fn withdraw_handler(
    bank: &mut Bank,
    user: &mut User,
    mint_kind: MintKind,
    amount: u64,
    now: i64,
) -> (r: Result<u64, ErrorCode>)
    requires
        old(bank).wf(),
        old(user).spec_position(mint_kind).within(*old(bank)),
    ensures
        match withdraw_outcome(*old(bank), *old(user), mint_kind, amount, now) {
            Ok((b, u)) => {
                &&& r == Ok::<u64, ErrorCode>(amount)
                &&& *final(bank) == b
                &&& *final(user) == u
            },
            Err(e) => {
                &&& r == Err::<u64, ErrorCode>(e)
                &&& *final(bank) == *old(bank)
                &&& *final(user) == *old(user)
            },
        },
        final(bank).wf(),
        final(user).spec_position(mint_kind).within(*final(bank)),
{
    let p = user.position(mint_kind);
    if p.deposited_amount == 0 {
        return Err(ErrorCode::NotEnoughBalance);
    }
    let available = calc_base_sum_interest(
        p.deposited_amount,
        bank.deposited_interest_ratio,
        user.last_updated,
        now,
    )?;
    if amount as u128 * SHARE_SCALE > available {
        return Err(ErrorCode::NotEnoughBalance);
    }
    if amount > bank.total_deposited_amount {
        return Err(ErrorCode::PoolTotalExceeded);
    }
    let (released, burned) = shrink_side(
        bank.total_deposited_amount,
        bank.total_deposited_shares,
        p.deposited_amount,
        p.deposited_shares,
        amount,
    )?;
    bank.total_deposited_amount = bank.total_deposited_amount - released;
    bank.total_deposited_shares = bank.total_deposited_shares - burned;
    user.set_position(
        mint_kind,
        Position {
            deposited_amount: p.deposited_amount - released,
            deposited_shares: p.deposited_shares - burned,
            ..p
        },
    );
    Ok(amount)
}

/// Repays `to_repay_amount` units of `repay_kind` at time `now`: the
/// request may reach the debt with interest; the pool and the position give
/// up the principal repaid (at most the position's) and the proportional
/// borrowed shares (at most the position's). On success the caller moves
/// the returned number of units from the user to the pool; on failure
/// neither ledger changes.
///
/// The shares due are proportional to the pool's total borrowed amount, the
/// rule deposits and withdrawals follow too, so the pool always burns what
/// the position gives up and a borrower who repays the whole principal holds
/// no borrowed shares afterwards.
pub fn repay_handler(
    bank: &mut Bank,
    user: &mut User,
    repay_kind: MintKind,
    to_repay_amount: u64,
    now: i64,
) -> (r: Result<u64, ErrorCode>)
    requires
        old(bank).wf(),
        old(user).spec_position(repay_kind).within(*old(bank)),
    ensures
        match repay_outcome(*old(bank), *old(user), repay_kind, to_repay_amount, now) {
            Ok((b, u)) => {
                &&& r == Ok::<u64, ErrorCode>(to_repay_amount)
                &&& *final(bank) == b
                &&& *final(user) == u
            },
            Err(e) => {
                &&& r == Err::<u64, ErrorCode>(e)
                &&& *final(bank) == *old(bank)
                &&& *final(user) == *old(user)
            },
        },
        final(bank).wf(),
        final(user).spec_position(repay_kind).within(*final(bank)),
{
    let p = user.position(repay_kind);
    if p.borrowed_amount == 0 {
        return Err(ErrorCode::NoNeedToRepay);
    }
    let outstanding = calc_base_sum_interest(
        p.borrowed_amount,
        bank.borrowed_interest_ratio,
        user.last_updated,
        now,
    )?;
    if to_repay_amount as u128 * SHARE_SCALE > outstanding {
        return Err(ErrorCode::RepayExceedBorrowed);
    }
    let (released, burned) = shrink_side(
        bank.total_borrowed_amount,
        bank.total_borrowed_shares,
        p.borrowed_amount,
        p.borrowed_shares,
        to_repay_amount,
    )?;
    bank.total_borrowed_amount = bank.total_borrowed_amount - released;
    bank.total_borrowed_shares = bank.total_borrowed_shares - burned;
    user.set_position(
        repay_kind,
        Position {
            borrowed_amount: p.borrowed_amount - released,
            borrowed_shares: p.borrowed_shares - burned,
            ..p
        },
    );
    Ok(to_repay_amount)
}

/// Borrows `to_borrow_value` worth (price units with `SHARE_DECIMALS`
/// digits) of `to_borrow_kind` against the deposit of `collateralized_kind`,
/// at the given oracle prices and time. The value may reach the collateral's
/// value times the pool's `max_ltv`. The units lent are the value divided by
/// the borrowed asset's price, rounded down; the pool and the position
/// record the debt and its shares. `bank` is the pool of the borrowed asset:
/// its `max_ltv` bounds the borrow and its deposit rate accrues on the
/// collateral. On success the caller moves the returned
/// number of units from the pool to the user; on failure neither ledger
/// changes.
pub fn borrow_handler(
    bank: &mut Bank,
    user: &mut User,
    collateralized_kind: MintKind,
    to_borrow_kind: MintKind,
    to_borrow_value: u128,
    collateral_price: i64,
    borrow_price: i64,
    now: i64,
) -> (r: Result<u64, ErrorCode>)
    requires
        old(bank).wf(),
        old(user).spec_position(to_borrow_kind).within(*old(bank)),
    ensures
        match borrow_outcome(
            *old(bank),
            *old(user),
            collateralized_kind,
            to_borrow_kind,
            to_borrow_value,
            collateral_price,
            borrow_price,
            now,
        ) {
            Ok((b, u, amount)) => {
                &&& r == Ok::<u64, ErrorCode>(amount)
                &&& *final(bank) == b
                &&& *final(user) == u
            },
            Err(e) => {
                &&& r == Err::<u64, ErrorCode>(e)
                &&& *final(bank) == *old(bank)
                &&& *final(user) == *old(user)
            },
        },
        final(bank).wf(),
        final(user).spec_position(to_borrow_kind).within(*final(bank)),
{
    if collateralized_kind == to_borrow_kind {
        return Err(ErrorCode::BorrowNotAllowed);
    }
    let c = user.position(collateralized_kind);
    let principal = calc_base_sum_interest(
        c.deposited_amount,
        bank.deposited_interest_ratio,
        user.last_updated,
        now,
    )?;
    if principal == 0 || collateral_price <= 0 {
        proof {
            assert(principal * collateral_price <= 0) by (nonlinear_arith)
                requires
                    principal == 0 || collateral_price <= 0,
                    principal >= 0,
            ;
        }
        return Err(ErrorCode::DepositedValueLessOrEqualZero);
    }
    proof {
        assert(principal * collateral_price > 0) by (nonlinear_arith)
            requires
                principal > 0,
                collateral_price > 0,
        ;
    }
    let value = match principal.checked_mul(collateral_price as u128) {
        Some(v) => v,
        None => {
            return Err(ErrorCode::MathOverflow);
        },
    };
    let limit = match value.checked_mul(bank.max_ltv as u128) {
        Some(v) => v,
        None => {
            return Err(ErrorCode::MathOverflow);
        },
    };
    let requested = match to_borrow_value.checked_mul(RATIO_SCALE as u128) {
        Some(v) => v,
        None => {
            return Err(ErrorCode::MathOverflow);
        },
    };
    if requested > limit {
        return Err(ErrorCode::NotEnoughLiquidationAssets);
    }
    if borrow_price <= 0 {
        return Err(ErrorCode::InvalidPrice);
    }
    proof {
        assert(borrow_price * SHARE_SCALE <= u128::MAX) by (nonlinear_arith)
            requires
                0 < borrow_price <= i64::MAX,
        ;
    }
    let units = to_borrow_value / (borrow_price as u128 * SHARE_SCALE);
    if units > u64::MAX as u128 {
        return Err(ErrorCode::MathOverflow);
    }
    let amount = units as u64;
    let minted = grow_side(bank.total_borrowed_amount, bank.total_borrowed_shares, amount)?;
    let p = user.position(to_borrow_kind);
    bank.total_borrowed_amount = bank.total_borrowed_amount + amount;
    bank.total_borrowed_shares = bank.total_borrowed_shares + minted;
    user.set_position(
        to_borrow_kind,
        Position {
            borrowed_amount: p.borrowed_amount + amount,
            borrowed_shares: p.borrowed_shares + minted,
            ..p
        },
    );
    Ok(amount)
}

} // verus!
