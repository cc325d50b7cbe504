//! Monitor library for a two-reserve liquidity pool.
//!
//! The library models the pool snapshot, parses the decimal strings the
//! ledger reports, derives the pool's exchange rate in fixed-point
//! arithmetic, and lays out the rows of the append-only record store.
//! Network fetches and file writes live outside the library; it is handed
//! plain response text and returns plain rows.

pub mod amount;
pub mod json;
pub mod monitor;
pub mod pool;
pub mod rate;
pub mod record;
