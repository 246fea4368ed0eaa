use vstd::prelude::*;
use crate::enums::MintKind;
use crate::errors::ErrorCode;

verus! {

/// Risk parameters and fractions are fixed-point with four digits: this
/// value stands for one.
pub const RATIO_SCALE: u64 = 10_000;

/// The pool ledger of one asset kind.
///
/// Amounts are in the asset's smallest unit. Shares carry
/// `SHARE_DECIMALS` digits. Ratios carry four digits (`RATIO_SCALE` is one).
/// Interest rates are per second and carry `RATE_DECIMALS` digits.
#[derive(Clone, Copy, Debug)]
pub struct Bank {
    pub authority: [u8; 32],
    pub mint: [u8; 32],
    pub total_deposited_amount: u64,
    pub total_deposited_shares: u128,
    pub total_borrowed_amount: u64,
    pub total_borrowed_shares: u128,
    pub liquidate_threshold: u64,
    pub liquidate_bonus: u64,
    pub liquidate_close_factor: u64,
    pub max_ltv: u64,
    pub deposited_interest_ratio: u64,
    pub borrowed_interest_ratio: u64,
    pub bump: u8,
    pub last_updated: i64,
}

/// The configuration a pool ledger is created with.
#[derive(Clone, Copy, Debug)]
pub struct BankConfig {
    pub liquidate_threshold: u64,
    pub liquidate_bonus: u64,
    pub liquidate_close_factor: u64,
    pub max_ltv: u64,
    pub deposited_interest_ratio: u64,
    pub borrowed_interest_ratio: u64,
}

/// One participant's balances in one asset kind.
#[derive(Clone, Copy, Debug, PartialEq, Eq, Structural)]
pub struct Position {
    pub deposited_amount: u64,
    pub deposited_shares: u128,
    pub borrowed_amount: u64,
    pub borrowed_shares: u128,
}

/// The position ledger of one participant, one `Position` per asset kind.
#[derive(Clone, Copy, Debug)]
pub struct User {
    pub owner: [u8; 32],
    pub sol: Position,
    pub usdc: Position,
    pub bump: u8,
    pub last_updated: i64,
}

/// Risk parameters that a pool may hold: the fractions lie in `[0, 1]`
/// and the loan-to-value limit lies below the liquidation threshold.
pub open spec fn config_valid(c: BankConfig) -> bool {
    &&& c.max_ltv < c.liquidate_threshold
    &&& c.liquidate_threshold <= RATIO_SCALE
    &&& c.liquidate_close_factor <= RATIO_SCALE
}

impl Bank {
    /// The ledger invariant: a side of the pool has shares exactly when it
    /// has an amount, and the risk parameters are valid.
    pub open spec fn wf(&self) -> bool {
        &&& (self.total_deposited_shares == 0) == (self.total_deposited_amount == 0)
        &&& (self.total_borrowed_shares == 0) == (self.total_borrowed_amount == 0)
        &&& config_valid(self.config())
    }

    /// Whether the ledger invariant holds.
    pub fn is_well_formed(&self) -> (r: bool)
        ensures
            r == self.wf(),
    {
        (self.total_deposited_shares == 0) == (self.total_deposited_amount == 0) && (
        self.total_borrowed_shares == 0) == (self.total_borrowed_amount == 0) && self.max_ltv
            < self.liquidate_threshold && self.liquidate_threshold <= RATIO_SCALE
            && self.liquidate_close_factor <= RATIO_SCALE
    }

    /// The risk parameters and rates of the pool.
    pub open spec fn config(&self) -> BankConfig {
        BankConfig {
            liquidate_threshold: self.liquidate_threshold,
            liquidate_bonus: self.liquidate_bonus,
            liquidate_close_factor: self.liquidate_close_factor,
            max_ltv: self.max_ltv,
            deposited_interest_ratio: self.deposited_interest_ratio,
            borrowed_interest_ratio: self.borrowed_interest_ratio,
        }
    }
}

impl Position {
    /// A position with nothing deposited or borrowed.
    pub open spec fn spec_empty() -> Position {
        Position { deposited_amount: 0, deposited_shares: 0, borrowed_amount: 0, borrowed_shares: 0 }
    }

    /// The position's balances lie within the pool's totals.
    pub open spec fn within(&self, bank: Bank) -> bool {
        &&& self.deposited_amount <= bank.total_deposited_amount
        &&& self.deposited_shares <= bank.total_deposited_shares
        &&& self.borrowed_amount <= bank.total_borrowed_amount
        &&& self.borrowed_shares <= bank.total_borrowed_shares
    }
}

impl Position {
    /// Whether the position's balances lie within the pool's totals.
    pub fn fits_within(&self, bank: &Bank) -> (r: bool)
        ensures
            r == self.within(*bank),
    {
        self.deposited_amount <= bank.total_deposited_amount && self.deposited_shares
            <= bank.total_deposited_shares && self.borrowed_amount <= bank.total_borrowed_amount
            && self.borrowed_shares <= bank.total_borrowed_shares
    }
}

impl User {
    /// The balances held in asset kind `kind`.
    pub open spec fn spec_position(&self, kind: MintKind) -> Position {
        match kind {
            MintKind::SOL => self.sol,
            MintKind::USDC => self.usdc,
        }
    }

    /// This user with the balances of `kind` replaced by `p`.
    pub open spec fn with_position(self, kind: MintKind, p: Position) -> User {
        match kind {
            MintKind::SOL => User { sol: p, ..self },
            MintKind::USDC => User { usdc: p, ..self },
        }
    }

    /// The balances held in asset kind `kind`.
    pub fn position(&self, kind: MintKind) -> (r: Position)
        ensures
            r == self.spec_position(kind),
    {
        match kind {
            MintKind::SOL => self.sol,
            MintKind::USDC => self.usdc,
        }
    }

    /// Replaces the balances held in asset kind `kind`.
    pub fn set_position(&mut self, kind: MintKind, p: Position)
        ensures
            *final(self) == old(self).with_position(kind, p),
    {
        match kind {
            MintKind::SOL => self.sol = p,
            MintKind::USDC => self.usdc = p,
        }
    }
}

/// Creates the pool ledger of one asset kind, empty, with the given risk
/// parameters and rates. Fails with `BuilderError` when the parameters are
/// not valid.
pub fn init_bank_handler(
    authority: [u8; 32],
    mint: [u8; 32],
    config: BankConfig,
    bump: u8,
    now: i64,
) -> (r: Result<Bank, ErrorCode>)
    ensures
        config_valid(config) <==> r.is_ok(),
        !config_valid(config) ==> r == Err::<Bank, ErrorCode>(ErrorCode::BuilderError),
        r matches Ok(b) ==> {
            &&& b.wf()
            &&& b.authority == authority
            &&& b.mint == mint
            &&& b.config() == config
            &&& b.total_deposited_amount == 0
            &&& b.total_deposited_shares == 0
            &&& b.total_borrowed_amount == 0
            &&& b.total_borrowed_shares == 0
            &&& b.bump == bump
            &&& b.last_updated == now
        },
{
    if !(config.max_ltv < config.liquidate_threshold && config.liquidate_threshold <= RATIO_SCALE
        && config.liquidate_close_factor <= RATIO_SCALE) {
        return Err(ErrorCode::BuilderError);
    }
    Ok(
        Bank {
            authority,
            mint,
            total_deposited_amount: 0,
            total_deposited_shares: 0,
            total_borrowed_amount: 0,
            total_borrowed_shares: 0,
            liquidate_threshold: config.liquidate_threshold,
            liquidate_bonus: config.liquidate_bonus,
            liquidate_close_factor: config.liquidate_close_factor,
            max_ltv: config.max_ltv,
            deposited_interest_ratio: config.deposited_interest_ratio,
            borrowed_interest_ratio: config.borrowed_interest_ratio,
            bump,
            last_updated: now,
        },
    )
}

/// Creates the position ledger of `owner`, with nothing deposited or
/// borrowed.
pub fn init_user_handler(owner: [u8; 32], bump: u8, now: i64) -> (r: User)
    ensures
        r.owner == owner,
        r.sol == Position::spec_empty(),
        r.usdc == Position::spec_empty(),
        r.bump == bump,
        r.last_updated == now,
{
    let empty = Position {
        deposited_amount: 0,
        deposited_shares: 0,
        borrowed_amount: 0,
        borrowed_shares: 0,
    };
    User { owner, sol: empty, usdc: empty, bump, last_updated: now }
}

} // verus!
