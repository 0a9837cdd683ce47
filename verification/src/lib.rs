//! A two-asset liquidity-bootstrapping pool: a weighted automated market
//! maker whose relative asset weights slide linearly from an initial
//! configuration to a target configuration over a fixed number of days.
//!
//! The verified core is the weight schedule and the swap pricing engine,
//! both expressed over a deterministic fixed-point decimal type. Custody of
//! the two assets (the reserve), share-token minting and the host clock are
//! external collaborators: the caller reads balances and the current time and
//! passes them in as plain values, then performs the deposit and withdrawal
//! that a successful swap asks for.

pub mod decimal;
pub mod laws;
pub mod pool;
