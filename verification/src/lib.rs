//! Constant-product automated market maker: a liquidity pool over a pair of
//! token ledgers, with proportional share issuance and fee-adjusted swap
//! quoting, plus a registry that keeps one pool per unordered token pair.

pub mod laws;
pub mod ledger;
pub mod pool;
pub mod route;
