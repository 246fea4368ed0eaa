use vstd::prelude::*;
use vstd::arithmetic::div_mod::lemma_fundamental_div_mod_converse;
use crate::enums::MintKind;
use crate::errors::ErrorCode;
use crate::instructions::{
    borrow_outcome, deposit_outcome, repay_outcome, shares_burned, shares_minted, units_released, withdraw_outcome,
};
use crate::interest::{interest_fits, lemma_accrued_interest_monotone};
use crate::shares::{change_shares, lemma_change_shares_at_par, lemma_div_round_exact, SHARE_SCALE};
use crate::states::{Bank, Position, User};

verus! {

/// One operation on one pool: a deposit or a withdrawal by the user at
/// index `who` of the pool's users.
pub enum PoolStep {
    Deposit { who: usize, amount: u64 },
    Withdraw { who: usize, amount: u64, now: i64 },
}

/// The sum of the users' deposited shares of `kind`.
pub open spec fn sum_deposited_shares(users: Seq<User>, kind: MintKind) -> int
    decreases users.len(),
{
    if users.len() == 0 {
        0
    } else {
        sum_deposited_shares(users.drop_last(), kind) + users.last().spec_position(
            kind,
        ).deposited_shares
    }
}

/// The sum of the users' deposited amounts of `kind`.
pub open spec fn sum_deposited_amounts(users: Seq<User>, kind: MintKind) -> int
    decreases users.len(),
{
    if users.len() == 0 {
        0
    } else {
        sum_deposited_amounts(users.drop_last(), kind) + users.last().spec_position(
            kind,
        ).deposited_amount
    }
}

/// The pool ledger of `kind` agrees with its users' position ledgers: the
/// pool is well formed, its deposited totals are the sums of the users'
/// deposits and shares, and every position lies within the pool.
pub open spec fn pool_consistent(bank: Bank, users: Seq<User>, kind: MintKind) -> bool {
    &&& bank.wf()
    &&& sum_deposited_amounts(users, kind) == bank.total_deposited_amount
    &&& sum_deposited_shares(users, kind) == bank.total_deposited_shares
    &&& forall|j: int| 0 <= j < users.len() ==> #[trigger] users[j].spec_position(kind).within(bank)
}

/// The pool and users after one step; a step that fails, or names no user,
/// changes nothing.
pub open spec fn apply_step(bank: Bank, users: Seq<User>, kind: MintKind, step: PoolStep) -> (
    Bank,
    Seq<User>,
) {
    match step {
        PoolStep::Deposit { who, amount } => {
            if who < users.len() {
                match deposit_outcome(bank, users[who as int], kind, amount) {
                    Ok((b, u)) => (b, users.update(who as int, u)),
                    Err(_) => (bank, users),
                }
            } else {
                (bank, users)
            }
        },
        PoolStep::Withdraw { who, amount, now } => {
            if who < users.len() {
                match withdraw_outcome(bank, users[who as int], kind, amount, now) {
                    Ok((b, u)) => (b, users.update(who as int, u)),
                    Err(_) => (bank, users),
                }
            } else {
                (bank, users)
            }
        },
    }
}

/// The pool and users after the steps, in order.
pub open spec fn apply_steps(bank: Bank, users: Seq<User>, kind: MintKind, steps: Seq<PoolStep>) -> (
    Bank,
    Seq<User>,
)
    decreases steps.len(),
{
    if steps.len() == 0 {
        (bank, users)
    } else {
        let (b, us) = apply_step(bank, users, kind, steps[0]);
        apply_steps(b, us, kind, steps.skip(1))
    }
}

proof fn lemma_sums_update(users: Seq<User>, kind: MintKind, i: int, u: User)
    requires
        0 <= i < users.len(),
    ensures
        sum_deposited_shares(users.update(i, u), kind) == sum_deposited_shares(users, kind)
            - users[i].spec_position(kind).deposited_shares + u.spec_position(
            kind,
        ).deposited_shares,
        sum_deposited_amounts(users.update(i, u), kind) == sum_deposited_amounts(users, kind)
            - users[i].spec_position(kind).deposited_amount + u.spec_position(
            kind,
        ).deposited_amount,
    decreases users.len(),
{
    if i == users.len() - 1 {
        assert(users.update(i, u).drop_last() =~= users.drop_last());
    } else {
        lemma_sums_update(users.drop_last(), kind, i, u);
        assert(users.update(i, u).drop_last() =~= users.drop_last().update(i, u));
    }
}

proof fn lemma_sums_bound(users: Seq<User>, kind: MintKind, j: int)
    requires
        0 <= j < users.len(),
    ensures
        users[j].spec_position(kind).deposited_shares <= sum_deposited_shares(users, kind),
        users[j].spec_position(kind).deposited_amount <= sum_deposited_amounts(users, kind),
    decreases users.len(),
{
    lemma_sums_nonneg(users.drop_last(), kind);
    if j < users.len() - 1 {
        lemma_sums_bound(users.drop_last(), kind, j);
    }
}

proof fn lemma_sums_nonneg(users: Seq<User>, kind: MintKind)
    ensures
        sum_deposited_shares(users, kind) >= 0,
        sum_deposited_amounts(users, kind) >= 0,
    decreases users.len(),
{
    if users.len() > 0 {
        lemma_sums_nonneg(users.drop_last(), kind);
    }
}

proof fn lemma_replace_position(
    bank: Bank,
    b: Bank,
    users: Seq<User>,
    kind: MintKind,
    i: int,
    p: Position,
)
    requires
        pool_consistent(bank, users, kind),
        b.wf(),
        0 <= i < users.len(),
        b.total_borrowed_amount == bank.total_borrowed_amount,
        b.total_borrowed_shares == bank.total_borrowed_shares,
        p.borrowed_amount == users[i].spec_position(kind).borrowed_amount,
        p.borrowed_shares == users[i].spec_position(kind).borrowed_shares,
        b.total_deposited_amount == bank.total_deposited_amount
            - users[i].spec_position(kind).deposited_amount + p.deposited_amount,
        b.total_deposited_shares == bank.total_deposited_shares
            - users[i].spec_position(kind).deposited_shares + p.deposited_shares,
    ensures
        pool_consistent(b, users.update(i, users[i].with_position(kind, p)), kind),
{
    let u = users[i].with_position(kind, p);
    assert(u.spec_position(kind) == p);
    let us = users.update(i, u);
    lemma_sums_update(users, kind, i, u);
    assert forall|j: int| 0 <= j < us.len() implies #[trigger] us[j].spec_position(kind).within(
        b,
    ) by {
        lemma_sums_bound(us, kind, j);
        assert(users[j].spec_position(kind).within(bank));
    }
}

/// One step keeps the pool consistent with its users.
pub proof fn lemma_step_keeps_pool_consistent(
    bank: Bank,
    users: Seq<User>,
    kind: MintKind,
    step: PoolStep,
)
    requires
        pool_consistent(bank, users, kind),
    ensures
        pool_consistent(apply_step(bank, users, kind, step).0, apply_step(bank, users, kind, step).1, kind),
{
    match step {
        PoolStep::Deposit { who, amount } => {
            if who < users.len() {
                let i = who as int;
                assert(users[i].spec_position(kind).within(bank));
                if let Ok((b, u)) = deposit_outcome(bank, users[i], kind, amount) {
                    let p = u.spec_position(kind);
                    assert(u == users[i].with_position(kind, p));
                    lemma_replace_position(bank, b, users, kind, i, p);
                }
            }
        },
        PoolStep::Withdraw { who, amount, now } => {
            if who < users.len() {
                let i = who as int;
                assert(users[i].spec_position(kind).within(bank));
                if let Ok((b, u)) = withdraw_outcome(bank, users[i], kind, amount, now) {
                    let p = u.spec_position(kind);
                    assert(u == users[i].with_position(kind, p));
                    lemma_replace_position(bank, b, users, kind, i, p);
                }
            }
        },
    }
}

/// Share conservation: after any sequence of deposits and withdrawals on
/// one pool, the users' deposited shares sum to the pool's total shares,
/// and their deposited amounts to the pool's total amount.
pub proof fn lemma_share_conservation(
    bank: Bank,
    users: Seq<User>,
    kind: MintKind,
    steps: Seq<PoolStep>,
)
    requires
        pool_consistent(bank, users, kind),
    ensures
        pool_consistent(apply_steps(bank, users, kind, steps).0, apply_steps(bank, users, kind, steps).1, kind),
        sum_deposited_shares(apply_steps(bank, users, kind, steps).1, kind)
            == apply_steps(bank, users, kind, steps).0.total_deposited_shares,
    decreases steps.len(),
{
    if steps.len() > 0 {
        lemma_step_keeps_pool_consistent(bank, users, kind, steps[0]);
        let (b, us) = apply_step(bank, users, kind, steps[0]);
        lemma_share_conservation(b, us, kind, steps.skip(1));
    }
}

/// Minting for a change and then burning for the same change, against the
/// totals after the mint, gives back exactly the shares minted.
pub proof fn lemma_mint_then_burn(total: int, shares: int, amount: int)
    requires
        total > 0,
        shares >= 0,
        amount >= 0,
    ensures
        change_shares(amount, total + amount, shares + change_shares(amount, total, shares))
            == change_shares(amount, total, shares),
{
    let d = change_shares(amount, total, shares);
    let n1 = 2 * (amount * shares) + total;
    let r1 = n1 - d * (2 * total);
    assert(0 <= r1 < 2 * total) by {
        vstd::arithmetic::div_mod::lemma_fundamental_div_mod(n1, 2 * total);
        assert(n1 == (2 * total) * d + n1 % (2 * total));
        assert((2 * total) * d == d * (2 * total)) by (nonlinear_arith);
    }
    let n2 = 2 * (amount * (shares + d)) + (total + amount);
    let r2 = n2 - d * (2 * (total + amount));
    assert(r2 == r1 + amount) by (nonlinear_arith)
        requires
            r1 == n1 - d * (2 * total),
            n1 == 2 * (amount * shares) + total,
            r2 == n2 - d * (2 * (total + amount)),
            n2 == 2 * (amount * (shares + d)) + (total + amount),
    ;
    lemma_fundamental_div_mod_converse(n2, 2 * (total + amount), d, r2);
}

/// A borrow against collateral of the same asset kind is refused, whatever
/// the collateral, prices, amounts and time.
pub proof fn lemma_same_asset_borrow_rejected(
    bank: Bank,
    user: User,
    kind: MintKind,
    to_borrow_value: u128,
    collateral_price: i64,
    borrow_price: i64,
    now: i64,
)
    ensures
        borrow_outcome(bank, user, kind, kind, to_borrow_value, collateral_price, borrow_price, now)
            == Err::<(Bank, User, u64), ErrorCode>(ErrorCode::BorrowNotAllowed),
{
}

/// A sole borrower who repays the whole principal is accepted, and both the
/// position and the pool are left with no debt and no borrowed shares.
pub proof fn lemma_full_repay_clears_debt(bank: Bank, user: User, kind: MintKind, now: i64)
    requires
        bank.wf(),
        bank.total_borrowed_amount > 0,
        user.spec_position(kind).borrowed_amount == bank.total_borrowed_amount,
        user.spec_position(kind).borrowed_shares == bank.total_borrowed_shares,
        interest_fits(
            bank.total_borrowed_amount as int,
            bank.borrowed_interest_ratio as int,
            user.last_updated as int,
            now as int,
        ),
        bank.total_borrowed_amount * bank.total_borrowed_shares <= u128::MAX,
    ensures
        repay_outcome(bank, user, kind, bank.total_borrowed_amount, now) matches Ok((b, u))
            && u.spec_position(kind).borrowed_shares == 0 && u.spec_position(kind).borrowed_amount
            == 0 && b.total_borrowed_shares == 0 && b.total_borrowed_amount == 0,
{
    let t = bank.total_borrowed_amount as int;
    let s = bank.total_borrowed_shares as int;
    assert(t * s == s * t) by (nonlinear_arith);
    lemma_div_round_exact(s, t);
    assert(change_shares(t, t, s) == s);
    lemma_accrued_interest_monotone(
        bank.total_borrowed_amount,
        bank.borrowed_interest_ratio,
        user.last_updated,
        now,
        now,
    );
}

/// The first deposit into an empty pool mints exactly one share per unit,
/// for the pool and for the depositor.
pub proof fn lemma_bootstrap_one_to_one(bank: Bank, user: User, kind: MintKind, amount: u64)
    requires
        bank.wf(),
        user.spec_position(kind).within(bank),
        bank.total_deposited_amount == 0,
        amount > 0,
    ensures
        deposit_outcome(bank, user, kind, amount) matches Ok((b, u)) && b.total_deposited_shares
            == amount * SHARE_SCALE && b.total_deposited_amount == amount
            && u.spec_position(kind).deposited_shares == amount * SHARE_SCALE
            && u.spec_position(kind).deposited_amount == amount,
{
}

/// When a share is worth one unit, a deposit of `amount` units mints exactly
/// `amount` whole shares.
pub proof fn lemma_deposit_at_par(bank: Bank, user: User, kind: MintKind, amount: u64)
    requires
        bank.wf(),
        user.spec_position(kind).within(bank),
        bank.total_deposited_amount > 0,
        bank.total_deposited_shares == bank.total_deposited_amount * SHARE_SCALE,
        amount > 0,
        deposit_outcome(bank, user, kind, amount) is Ok,
    ensures
        deposit_outcome(bank, user, kind, amount) matches Ok((b, u)) && b.total_deposited_shares
            == bank.total_deposited_shares + amount * SHARE_SCALE
            && u.spec_position(kind).deposited_shares == user.spec_position(kind).deposited_shares
            + amount * SHARE_SCALE,
{
    lemma_change_shares_at_par(amount as int, bank.total_deposited_amount as int);
}

/// A deposit followed by a withdrawal of the same amount, with nothing in
/// between, leaves the pool ledger and the position ledger exactly as they
/// were: rounding does not drift.
pub proof fn lemma_deposit_withdraw_round_trip(
    bank: Bank,
    user: User,
    kind: MintKind,
    amount: u64,
    now: i64,
)
    requires
        bank.wf(),
        user.spec_position(kind).within(bank),
        deposit_outcome(bank, user, kind, amount) is Ok,
        interest_fits(
            user.spec_position(kind).deposited_amount + amount,
            bank.deposited_interest_ratio as int,
            user.last_updated as int,
            now as int,
        ),
        amount * (bank.total_deposited_shares + shares_minted(
            bank.total_deposited_amount as int,
            bank.total_deposited_shares as int,
            amount as int,
        )) <= u128::MAX,
    ensures
        deposit_outcome(bank, user, kind, amount) matches Ok((b1, u1)) && withdraw_outcome(
            b1,
            u1,
            kind,
            amount,
            now,
        ) matches Ok((b2, u2)) && b2 == bank && u2 == user,
{
    let t = bank.total_deposited_amount as int;
    let s = bank.total_deposited_shares as int;
    let p = user.spec_position(kind);
    let m = shares_minted(t, s, amount as int);
    let (b1, u1) = deposit_outcome(bank, user, kind, amount).unwrap();
    let p1 = u1.spec_position(kind);
    assert(p1.deposited_amount == p.deposited_amount + amount);
    assert(p1.deposited_shares == p.deposited_shares + m);
    if t == 0 {
        assert(s == 0);
        assert(p.deposited_shares == 0 && p.deposited_amount == 0);
        lemma_change_shares_at_par(amount as int, amount as int);
        assert(change_shares(amount as int, t + amount, s + m) == m);
    } else {
        lemma_mint_then_burn(t, s, amount as int);
    }
    assert(shares_burned(t + amount, s + m, p1.deposited_shares as int, amount as int) == m);
    assert(units_released(p1.deposited_amount as int, amount as int) == amount);
    lemma_accrued_interest_monotone(
        p1.deposited_amount,
        bank.deposited_interest_ratio,
        user.last_updated,
        now,
        now,
    );
    let (b2, u2) = withdraw_outcome(b1, u1, kind, amount, now).unwrap();
    assert(b2 == bank);
    assert(u2.spec_position(kind) == p);
    match kind {
        MintKind::SOL => assert(u2 == user),
        MintKind::USDC => assert(u2 == user),
    }
}

/// The ledgers after `m` cycles of a deposit of `amount` followed by a
/// withdrawal of the same amount at `now`; `None` once an operation fails.
pub open spec fn deposit_withdraw_cycles(
    bank: Bank,
    user: User,
    kind: MintKind,
    amount: u64,
    now: i64,
    m: nat,
) -> Option<(Bank, User)>
    decreases m,
{
    if m == 0 {
        Some((bank, user))
    } else {
        match deposit_outcome(bank, user, kind, amount) {
            Ok((b1, u1)) => match withdraw_outcome(b1, u1, kind, amount, now) {
                Ok((b2, u2)) => deposit_withdraw_cycles(b2, u2, kind, amount, now, (m - 1) as nat),
                Err(_) => None,
            },
            Err(_) => None,
        }
    }
}

/// Any number of deposit-and-withdraw cycles of one amount, with nothing in
/// between, all succeed and leave the pool's amount and share totals, and
/// the position, exactly as they were: rounding never drifts.
pub proof fn lemma_repeated_cycles_restore(
    bank: Bank,
    user: User,
    kind: MintKind,
    amount: u64,
    now: i64,
    m: nat,
)
    requires
        bank.wf(),
        user.spec_position(kind).within(bank),
        deposit_outcome(bank, user, kind, amount) is Ok,
        interest_fits(
            user.spec_position(kind).deposited_amount + amount,
            bank.deposited_interest_ratio as int,
            user.last_updated as int,
            now as int,
        ),
        amount * (bank.total_deposited_shares + shares_minted(
            bank.total_deposited_amount as int,
            bank.total_deposited_shares as int,
            amount as int,
        )) <= u128::MAX,
    ensures
        deposit_withdraw_cycles(bank, user, kind, amount, now, m) == Some((bank, user)),
    decreases m,
{
    if m > 0 {
        lemma_deposit_withdraw_round_trip(bank, user, kind, amount, now);
        lemma_repeated_cycles_restore(bank, user, kind, amount, now, (m - 1) as nat);
    }
}

} // verus!
