use vstd::prelude::*;

verus! {

/// Every way a ledger operation can fail.
#[derive(Clone, Copy, Debug, PartialEq, Eq, Structural)]
pub enum ErrorCode {
    /// The risk parameters given for a new pool are out of bounds.
    BuilderError,
    /// The clock could not be read.
    GetClockTimeError,
    /// A deposit of zero units.
    DepositedAmountLessOrEqualZero,
    /// The collateral offered for a borrow is worth nothing.
    DepositedValueLessOrEqualZero,
    /// An asset kind that the pool does not support.
    UnsupportedMintKind,
    /// The requested borrow exceeds the collateral's loan-to-value limit.
    NotEnoughLiquidationAssets,
    /// There is no outstanding debt of this asset kind.
    NoNeedToRepay,
    /// The repayment exceeds the outstanding debt with interest.
    RepayExceedBorrowed,
    /// Collateral and borrowed asset kinds are the same.
    BorrowNotAllowed,
    /// Nothing deposited, or less than the requested withdrawal.
    NotEnoughBalance,
    /// The price feed is older than the allowed window.
    StalePrice,
    /// An oracle price that is zero or negative where a divisor is needed.
    InvalidPrice,
    /// A withdrawal larger than the pool's recorded deposits.
    PoolTotalExceeded,
    /// A result does not fit the ledger's integer fields.
    MathOverflow,
    /// The operation would leave a pool with shares but no amount, or an
    /// amount but no shares.
    PoolTotalsInconsistent,
}

} // verus!
