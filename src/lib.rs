//! Accounting core of a two-asset collateralised lending pool.
//!
//! Shares and interest-bearing amounts are fixed-point integers with four
//! decimal digits; interest rates are fixed-point integers with eighteen.
//! The four ledger operations (deposit, borrow, repay, withdraw) mutate a
//! pool ledger (`Bank`) and a position ledger (`User`) together, or leave
//! both untouched and report why.

pub mod enums;
pub mod errors;
pub mod instructions;
pub mod interest;
pub mod laws;
pub mod shares;
pub mod states;
