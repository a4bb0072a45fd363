//! A two-asset constant-product liquidity pool.
//!
//! The crate is organised around a small set of verified components:
//! integer decimal rescaling and the swap-pricing formula (`utils`), a
//! per-account balance ledger with a tracked total supply (`ledger`), the
//! pool aggregate with proportional liquidity provisioning and two-phase
//! withdrawals (`amm`), a plain fungible-token contract over the same
//! ledger (`token`), and a fixed two-token swap pair (`swap_pair`).

pub mod amm;
pub mod errors;
pub mod ledger;
pub mod swap_pair;
pub mod token;
pub mod utils;
