use lending::enums::{mint_kind_from_name, MintKind, ShareOp};
use lending::errors::ErrorCode;
use lending::instructions::{borrow_handler, deposit_handler, repay_handler, withdraw_handler};
use lending::interest::{
    calc_accrued_interest, calc_base_sum_interest, growth_factor, RATE_SCALE,
};
use lending::shares::{
    calc_change_shares, calc_new_total_shares, div_round, round_to_n_decimal, SHARE_SCALE,
};
use lending::states::{init_bank_handler, init_user_handler, Bank, BankConfig, Position, User};

const HALF: u64 = 5_000;

fn config(max_ltv: u64, deposit_rate: u64, borrow_rate: u64) -> BankConfig {
    BankConfig {
        liquidate_threshold: 8_000,
        liquidate_bonus: 500,
        liquidate_close_factor: 2_500,
        max_ltv,
        deposited_interest_ratio: deposit_rate,
        borrowed_interest_ratio: borrow_rate,
    }
}

fn bank(max_ltv: u64) -> Bank {
    init_bank_handler([1; 32], [2; 32], config(max_ltv, 0, 0), 254, 100).unwrap()
}

fn user() -> User {
    init_user_handler([3; 32], 255, 100)
}

/// A user with `collateral` SOL units deposited, and the USDC pool it
/// borrows from, which holds `liquidity` USDC units from another depositor.
fn borrower(collateral: u64, liquidity: u64) -> (Bank, Bank, User) {
    let mut sol = bank(HALF);
    let mut usdc = bank(HALF);
    let mut u = user();
    deposit_handler(&mut sol, &mut u, MintKind::SOL, collateral).unwrap();
    let mut lender = user();
    deposit_handler(&mut usdc, &mut lender, MintKind::USDC, liquidity).unwrap();
    (sol, usdc, u)
}

#[test]
fn first_deposit_mints_one_share_per_unit() {
    let mut b = bank(HALF);
    let mut u = user();
    assert_eq!(deposit_handler(&mut b, &mut u, MintKind::SOL, 1_000), Ok(1_000));
    assert_eq!(b.total_deposited_amount, 1_000);
    assert_eq!(b.total_deposited_shares, 1_000 * SHARE_SCALE);
    assert_eq!(u.sol.deposited_amount, 1_000);
    assert_eq!(u.sol.deposited_shares, 1_000 * SHARE_SCALE);
    assert_eq!(u.usdc, Position { deposited_amount: 0, deposited_shares: 0, borrowed_amount: 0, borrowed_shares: 0 });
}

#[test]
fn deposit_at_par_mints_the_amount_in_shares() {
    let mut b = bank(HALF);
    let mut first = user();
    deposit_handler(&mut b, &mut first, MintKind::USDC, 1_000).unwrap();
    assert_eq!(b.total_deposited_shares, 1_000 * SHARE_SCALE);
    let mut second = user();
    deposit_handler(&mut b, &mut second, MintKind::USDC, 250).unwrap();
    assert_eq!(second.usdc.deposited_shares, 250 * SHARE_SCALE);
    assert_eq!(b.total_deposited_amount, 1_250);
    assert_eq!(b.total_deposited_shares, 1_250 * SHARE_SCALE);
}

#[test]
fn deposit_after_appreciation_mints_fewer_shares() {
    // 1000 units against 500 shares: a share is worth two units.
    let mut b = bank(HALF);
    b.total_deposited_amount = 1_000;
    b.total_deposited_shares = 500 * SHARE_SCALE;
    let mut u = user();
    deposit_handler(&mut b, &mut u, MintKind::SOL, 3).unwrap();
    // 3 / 1000 * 500 = 1.5 shares exactly.
    assert_eq!(u.sol.deposited_shares, 15_000);
    assert_eq!(b.total_deposited_shares, 500 * SHARE_SCALE + 15_000);
}

#[test]
fn zero_deposit_is_rejected() {
    let mut b = bank(HALF);
    let mut u = user();
    assert_eq!(
        deposit_handler(&mut b, &mut u, MintKind::SOL, 0),
        Err(ErrorCode::DepositedAmountLessOrEqualZero)
    );
    assert_eq!(b.total_deposited_amount, 0);
    assert_eq!(u.sol.deposited_amount, 0);
}

#[test]
fn deposit_overflow_is_rejected_without_change() {
    let mut b = bank(HALF);
    let mut u = user();
    deposit_handler(&mut b, &mut u, MintKind::SOL, u64::MAX).unwrap();
    assert_eq!(
        deposit_handler(&mut b, &mut u, MintKind::SOL, 1),
        Err(ErrorCode::MathOverflow)
    );
    assert_eq!(b.total_deposited_amount, u64::MAX);
    assert_eq!(u.sol.deposited_amount, u64::MAX);
}

#[test]
fn borrow_at_the_ltv_limit_succeeds() {
    let (_sol, mut usdc, mut u) = borrower(1_000, 10_000);
    // Collateral worth 1000 at price 1, limit 0.5: a value of 500.0000.
    let r = borrow_handler(&mut usdc, &mut u, MintKind::SOL, MintKind::USDC, 500 * 10_000, 1, 1, 100);
    assert_eq!(r, Ok(500));
    assert_eq!(u.usdc.borrowed_amount, 500);
    assert_eq!(u.usdc.borrowed_shares, 500 * SHARE_SCALE);
    assert_eq!(usdc.total_borrowed_amount, 500);
    assert_eq!(usdc.total_borrowed_shares, 500 * SHARE_SCALE);
}

#[test]
fn borrow_past_the_ltv_limit_fails() {
    let (_sol, mut usdc, mut u) = borrower(1_000, 10_000);
    let before = usdc.total_borrowed_amount;
    // 500.01
    let r = borrow_handler(&mut usdc, &mut u, MintKind::SOL, MintKind::USDC, 5_000_100, 1, 1, 100);
    assert_eq!(r, Err(ErrorCode::NotEnoughLiquidationAssets));
    assert_eq!(usdc.total_borrowed_amount, before);
    assert_eq!(u.usdc.borrowed_amount, 0);
}

#[test]
fn borrow_converts_value_at_the_borrowed_price() {
    let (_sol, mut usdc, mut u) = borrower(1_000, 10_000);
    // Collateral at price 30 is worth 30000; 0.5 of it is 15000. A value of
    // 14999.9999 at a borrowed price of 4 buys 3749 units (rounded down).
    let r = borrow_handler(&mut usdc, &mut u, MintKind::SOL, MintKind::USDC, 149_999_999, 30, 4, 100);
    assert_eq!(r, Ok(3_749));
    assert_eq!(usdc.total_borrowed_amount, 3_749);
}

#[test]
fn same_asset_borrow_is_rejected() {
    let (mut sol, _usdc, mut u) = borrower(1_000_000, 10_000);
    let r = borrow_handler(&mut sol, &mut u, MintKind::SOL, MintKind::SOL, 10 * 10_000, 1, 1, 100);
    assert_eq!(r, Err(ErrorCode::BorrowNotAllowed));
    assert_eq!(sol.total_borrowed_amount, 0);
}

#[test]
fn borrow_without_collateral_is_rejected() {
    let mut usdc = bank(HALF);
    let mut u = user();
    let r = borrow_handler(&mut usdc, &mut u, MintKind::SOL, MintKind::USDC, 1, 1, 1, 100);
    assert_eq!(r, Err(ErrorCode::DepositedValueLessOrEqualZero));
    let (_sol, mut usdc, mut u) = borrower(1_000, 10_000);
    let r = borrow_handler(&mut usdc, &mut u, MintKind::SOL, MintKind::USDC, 1, -5, 1, 100);
    assert_eq!(r, Err(ErrorCode::DepositedValueLessOrEqualZero));
}

#[test]
fn borrow_at_a_zero_price_is_rejected() {
    let (_sol, mut usdc, mut u) = borrower(1_000, 10_000);
    let r = borrow_handler(&mut usdc, &mut u, MintKind::SOL, MintKind::USDC, 100, 1, 0, 100);
    assert_eq!(r, Err(ErrorCode::InvalidPrice));
}

#[test]
fn repay_beyond_the_debt_fails_and_full_repay_clears_shares() {
    let (_sol, mut usdc, mut u) = borrower(1_000, 10_000);
    borrow_handler(&mut usdc, &mut u, MintKind::SOL, MintKind::USDC, 100 * 10_000, 1, 1, 100).unwrap();
    assert_eq!(u.usdc.borrowed_amount, 100);
    assert_eq!(
        repay_handler(&mut usdc, &mut u, MintKind::USDC, 101, 100),
        Err(ErrorCode::RepayExceedBorrowed)
    );
    assert_eq!(u.usdc.borrowed_shares, 100 * SHARE_SCALE);
    assert_eq!(repay_handler(&mut usdc, &mut u, MintKind::USDC, 100, 100), Ok(100));
    assert_eq!(u.usdc.borrowed_shares, 0);
    assert_eq!(u.usdc.borrowed_amount, 0);
    assert_eq!(usdc.total_borrowed_shares, 0);
    assert_eq!(usdc.total_borrowed_amount, 0);
}

#[test]
fn repay_without_debt_is_rejected() {
    let mut b = bank(HALF);
    let mut u = user();
    assert_eq!(
        repay_handler(&mut b, &mut u, MintKind::USDC, 1, 100),
        Err(ErrorCode::NoNeedToRepay)
    );
}

#[test]
fn partial_repay_burns_proportional_shares() {
    let (_sol, mut usdc, mut u) = borrower(1_000, 10_000);
    borrow_handler(&mut usdc, &mut u, MintKind::SOL, MintKind::USDC, 100 * 10_000, 1, 1, 100).unwrap();
    repay_handler(&mut usdc, &mut u, MintKind::USDC, 40, 100).unwrap();
    assert_eq!(u.usdc.borrowed_amount, 60);
    assert_eq!(u.usdc.borrowed_shares, 60 * SHARE_SCALE);
    assert_eq!(usdc.total_borrowed_shares, 60 * SHARE_SCALE);
}

#[test]
fn withdraw_releases_amount_and_shares() {
    let mut b = bank(HALF);
    let mut u = user();
    deposit_handler(&mut b, &mut u, MintKind::SOL, 1_000).unwrap();
    assert_eq!(withdraw_handler(&mut b, &mut u, MintKind::SOL, 400, 100), Ok(400));
    assert_eq!(b.total_deposited_amount, 600);
    assert_eq!(b.total_deposited_shares, 600 * SHARE_SCALE);
    assert_eq!(u.sol.deposited_amount, 600);
    assert_eq!(u.sol.deposited_shares, 600 * SHARE_SCALE);
}

#[test]
fn withdraw_beyond_the_balance_is_rejected() {
    let mut b = bank(HALF);
    let mut u = user();
    assert_eq!(
        withdraw_handler(&mut b, &mut u, MintKind::SOL, 1, 100),
        Err(ErrorCode::NotEnoughBalance)
    );
    deposit_handler(&mut b, &mut u, MintKind::SOL, 1_000).unwrap();
    assert_eq!(
        withdraw_handler(&mut b, &mut u, MintKind::SOL, 1_001, 100),
        Err(ErrorCode::NotEnoughBalance)
    );
    assert_eq!(b.total_deposited_amount, 1_000);
}

#[test]
fn withdraw_may_reach_accrued_interest() {
    // 0.5 per second for one second: 1000 units grow to 1648.7213. Another
    // depositor's 5000 units keep the pool's recorded total above that.
    let mut b = init_bank_handler([1; 32], [2; 32], config(HALF, RATE_SCALE as u64 / 2, 0), 1, 100).unwrap();
    let mut u = user();
    deposit_handler(&mut b, &mut u, MintKind::SOL, 1_000).unwrap();
    let mut other = user();
    deposit_handler(&mut b, &mut other, MintKind::SOL, 5_000).unwrap();
    assert_eq!(
        withdraw_handler(&mut b, &mut u, MintKind::SOL, 1_649, 101),
        Err(ErrorCode::NotEnoughBalance)
    );
    assert_eq!(withdraw_handler(&mut b, &mut u, MintKind::SOL, 1_648, 101), Ok(1_648));
    // The principal and all of the position's shares are released; the
    // interest above principal does not lower the recorded total.
    assert_eq!(u.sol.deposited_amount, 0);
    assert_eq!(u.sol.deposited_shares, 0);
    assert_eq!(b.total_deposited_amount, 5_000);
    assert_eq!(b.total_deposited_shares, 5_000 * SHARE_SCALE);
}

#[test]
fn withdraw_beyond_the_pool_total_is_rejected() {
    // One holder of the whole pool, 0.5 per second, one second later: the
    // interest would cover 1001 units, the pool records only 1000.
    let mut b = init_bank_handler([1; 32], [2; 32], config(HALF, RATE_SCALE as u64 / 2, 0), 1, 100).unwrap();
    let mut u = user();
    deposit_handler(&mut b, &mut u, MintKind::SOL, 1_000).unwrap();
    assert_eq!(
        withdraw_handler(&mut b, &mut u, MintKind::SOL, 1_001, 101),
        Err(ErrorCode::PoolTotalExceeded)
    );
    assert_eq!(b.total_deposited_amount, 1_000);
    assert_eq!(b.total_deposited_shares, 1_000 * SHARE_SCALE);
    assert_eq!(u.sol.deposited_amount, 1_000);
    assert_eq!(withdraw_handler(&mut b, &mut u, MintKind::SOL, 1_000, 101), Ok(1_000));
    assert_eq!(b.total_deposited_amount, 0);
    assert_eq!(b.total_deposited_shares, 0);
}

#[test]
fn withdraw_that_would_orphan_the_pool_amount_is_rejected() {
    // One holder has all shares; another holds an amount without shares.
    let mut b = bank(HALF);
    b.total_deposited_amount = 1_000;
    b.total_deposited_shares = 1;
    let mut u = user();
    u.sol.deposited_amount = 999;
    u.sol.deposited_shares = 1;
    assert_eq!(
        withdraw_handler(&mut b, &mut u, MintKind::SOL, 999, 100),
        Err(ErrorCode::PoolTotalsInconsistent)
    );
    assert_eq!(b.total_deposited_amount, 1_000);
    assert_eq!(u.sol.deposited_amount, 999);
}

#[test]
fn accrual_past_an_exponent_of_one() {
    // 1000 units at 1.0 per second for two seconds: 1000 * (e^2 - 1) = 6389.0560989...
    assert_eq!(calc_accrued_interest(1_000, RATE_SCALE as u64, 0, 2), Ok(63_890_561));
    // 2.5 seconds: 1000 * (e^2.5 - 1) = 11182.4939607...
    assert_eq!(calc_accrued_interest(1_000, RATE_SCALE as u64 / 2, 0, 5), Ok(111_824_940));
    let mut b = init_bank_handler([1; 32], [2; 32], config(HALF, RATE_SCALE as u64, 0), 1, 100).unwrap();
    let mut u = user();
    deposit_handler(&mut b, &mut u, MintKind::SOL, 1_000).unwrap();
    let mut other = user();
    deposit_handler(&mut b, &mut other, MintKind::SOL, 100_000).unwrap();
    // 1000 * e^2 = 7389.056...
    assert_eq!(withdraw_handler(&mut b, &mut u, MintKind::SOL, 7_390, 102), Err(ErrorCode::NotEnoughBalance));
    assert_eq!(withdraw_handler(&mut b, &mut u, MintKind::SOL, 7_389, 102), Ok(7_389));
}

#[test]
fn accrual_on_a_zero_balance_is_zero() {
    assert_eq!(calc_accrued_interest(0, RATE_SCALE as u64, 0, 2), Ok(0));
    assert_eq!(calc_accrued_interest(0, u64::MAX, i64::MIN, i64::MAX), Ok(0));
    assert_eq!(calc_base_sum_interest(0, u64::MAX, i64::MIN, i64::MAX), Ok(0));
}

#[test]
fn accrual_that_does_not_fit_overflows() {
    assert_eq!(calc_accrued_interest(1, u64::MAX, i64::MIN, i64::MAX), Err(ErrorCode::MathOverflow));
    assert_eq!(calc_accrued_interest(u64::MAX, RATE_SCALE as u64, 0, 60), Err(ErrorCode::MathOverflow));
    assert_eq!(calc_base_sum_interest(u64::MAX, RATE_SCALE as u64, 0, 60), Err(ErrorCode::MathOverflow));
    let mut b = init_bank_handler([1; 32], [2; 32], config(HALF, u64::MAX, 0), 1, 100).unwrap();
    let mut u = user();
    deposit_handler(&mut b, &mut u, MintKind::SOL, 1_000).unwrap();
    assert_eq!(withdraw_handler(&mut b, &mut u, MintKind::SOL, 1, i64::MAX), Err(ErrorCode::MathOverflow));
    assert_eq!(b.total_deposited_amount, 1_000);
}

#[test]
fn repeated_deposit_withdraw_cycles_leave_totals_unchanged() {
    let mut b = bank(HALF);
    let mut first = user();
    deposit_handler(&mut b, &mut first, MintKind::SOL, 1_000).unwrap();
    // Make a share worth an awkward number of units.
    b.total_deposited_amount = 1_003;
    first.sol.deposited_amount = 1_003;
    let mut u = user();
    for _ in 0..50 {
        deposit_handler(&mut b, &mut u, MintKind::SOL, 7).unwrap();
        withdraw_handler(&mut b, &mut u, MintKind::SOL, 7, 100).unwrap();
        assert_eq!(b.total_deposited_amount, 1_003);
        assert_eq!(b.total_deposited_shares, 1_000 * SHARE_SCALE);
        assert_eq!(u.sol.deposited_shares, 0);
    }
}

#[test]
fn shares_sum_to_the_pool_total_over_many_operations() {
    let mut b = bank(HALF);
    let mut users = vec![user(), user(), user()];
    let steps: [(usize, bool, u64); 9] = [
        (0, true, 1_000),
        (1, true, 333),
        (2, true, 77),
        (1, false, 100),
        (0, true, 5),
        (2, false, 77),
        (0, false, 999),
        (1, true, 12),
        (2, true, 1),
    ];
    for (who, is_deposit, amount) in steps {
        let u = &mut users[who];
        if is_deposit {
            deposit_handler(&mut b, u, MintKind::USDC, amount).unwrap();
        } else {
            withdraw_handler(&mut b, u, MintKind::USDC, amount, 100).unwrap();
        }
        let shares: u128 = users.iter().map(|u| u.usdc.deposited_shares).sum();
        let amounts: u64 = users.iter().map(|u| u.usdc.deposited_amount).sum();
        assert_eq!(shares, b.total_deposited_shares);
        assert_eq!(amounts, b.total_deposited_amount);
    }
}

#[test]
fn accrued_interest_values() {
    // 1000000 units at 0.1 for one second: 1000000 * (e^0.1 - 1) = 105170.918075...
    assert_eq!(calc_accrued_interest(1_000_000, RATE_SCALE as u64 / 10, 0, 1), Ok(1_051_709_181));
    // 1000 units at 0.5 for one second: 648.72127070...
    assert_eq!(calc_accrued_interest(1_000, RATE_SCALE as u64 / 2, 10, 11), Ok(6_487_213));
    assert_eq!(calc_base_sum_interest(1_000, RATE_SCALE as u64 / 2, 10, 11), Ok(16_487_213));
    assert_eq!(calc_accrued_interest(0, RATE_SCALE as u64 / 2, 10, 11), Ok(0));
}

#[test]
fn accrued_interest_is_zero_without_elapsed_time() {
    assert_eq!(calc_accrued_interest(1_000, RATE_SCALE as u64 / 2, 10, 10), Ok(0));
    assert_eq!(calc_accrued_interest(1_000, RATE_SCALE as u64 / 2, 10, 3), Ok(0));
    assert_eq!(calc_accrued_interest(1_000, RATE_SCALE as u64, i64::MAX, i64::MIN), Ok(0));
    assert_eq!(calc_base_sum_interest(1_000, 7, 10, 3), Ok(10_000_000));
}

#[test]
fn accrued_interest_does_not_decrease_over_time() {
    let rate = 1_000_000_000u64; // 1e-9 per second
    let mut previous = 0u128;
    for now in [0i64, 1, 2, 60, 3_600, 86_400, 31_536_000, 900_000_000, 1_000_000_000, 1_100_000_000, 2_500_000_000] {
        let v = calc_accrued_interest(5_000_000, rate, 0, now).unwrap();
        assert!(v >= previous);
        previous = v;
    }
    assert!(previous > 0);
}

#[test]
fn growth_series_approximates_e() {
    assert_eq!(growth_factor(0), 0);
    let g = growth_factor(RATE_SCALE);
    // e - 1 = 1.718281828459045235...
    assert!(g <= 1_718_281_828_459_045_236);
    assert!(g >= 1_718_281_828_459_045_200);
}

#[test]
fn rounding_is_half_up() {
    assert_eq!(div_round(4, 10), 0);
    assert_eq!(div_round(5, 10), 1);
    assert_eq!(div_round(14, 10), 1);
    assert_eq!(div_round(15, 10), 2);
    assert_eq!(div_round(u128::MAX, 1), u128::MAX);
    assert_eq!(round_to_n_decimal(123_456_789, 6, 4), 1_234_568);
    assert_eq!(round_to_n_decimal(123_456_749, 6, 4), 1_234_567);
    assert_eq!(round_to_n_decimal(42, 4, 4), 42);
}

#[test]
fn share_changes_are_proportional() {
    assert_eq!(calc_change_shares(1, 3, 10_000), 3_333);
    assert_eq!(calc_change_shares(2, 3, 10_000), 6_667);
    assert_eq!(calc_new_total_shares(2, 3, 10_000, ShareOp::Increase), 16_667);
    assert_eq!(calc_new_total_shares(2, 3, 10_000, ShareOp::Decrease), 3_333);
}

#[test]
fn pool_configuration_is_checked() {
    assert_eq!(
        init_bank_handler([0; 32], [0; 32], config(8_000, 0, 0), 1, 0).err(),
        Some(ErrorCode::BuilderError)
    );
    let mut c = config(HALF, 0, 0);
    c.liquidate_threshold = 10_001;
    assert_eq!(init_bank_handler([0; 32], [0; 32], c, 1, 0).err(), Some(ErrorCode::BuilderError));
    let b = init_bank_handler([4; 32], [5; 32], config(HALF, 9, 11), 7, 123).unwrap();
    assert_eq!(b.authority, [4; 32]);
    assert_eq!(b.mint, [5; 32]);
    assert_eq!(b.max_ltv, HALF);
    assert_eq!(b.liquidate_threshold, 8_000);
    assert_eq!(b.deposited_interest_ratio, 9);
    assert_eq!(b.borrowed_interest_ratio, 11);
    assert_eq!(b.bump, 7);
    assert_eq!(b.last_updated, 123);
    let u = init_user_handler([6; 32], 8, 321);
    assert_eq!(u.owner, [6; 32]);
    assert_eq!(u.bump, 8);
    assert_eq!(u.last_updated, 321);
}

#[test]
fn asset_kinds_are_named() {
    assert_eq!(mint_kind_from_name("SOL"), Ok(MintKind::SOL));
    assert_eq!(mint_kind_from_name("USDC"), Ok(MintKind::USDC));
    assert_eq!(mint_kind_from_name("BTC"), Err(ErrorCode::UnsupportedMintKind));
    assert_eq!(mint_kind_from_name("sol"), Err(ErrorCode::UnsupportedMintKind));
    assert_eq!(mint_kind_from_name(""), Err(ErrorCode::UnsupportedMintKind));
}
