//! One poll cycle's decision.
//!
//! Given the decoded pool and the two rates the cycle resolved, decide
//! whether the cycle contributes a row, and with which values. A cycle
//! contributes exactly when the pool decoded and both reserve amounts
//! are positive; a missing pool identifier owes the console a warning
//! but never aborts the cycle.

use vstd::prelude::*;
use crate::pool::PoolDecode;
use crate::pool::base_amount_e7;
use crate::pool::target_amount_e7;
use crate::pool::split_reserves;
use crate::rate::RATE_CAP_E4;
use crate::rate::clamp_rate_e4;
use crate::rate::compute_rate_e4;
use crate::rate::rate_e4_spec;
use crate::record::Row;

verus! {

/// What one cycle contributes: at most one row, and whether the pool
/// fetch degraded.
pub struct CycleOutcome {
    pub row: Option<Row>,
    pub pool_missing: bool,
}

/// Decide one cycle from the decoded pool, the resolved rates (capped
/// here if oversized) and the cycle's timestamp.
pub fn run_cycle(
    pool: &PoolDecode,
    crypto_usd_e4: u64,
    usd_fiat_e4: u64,
    date: String,
    time: String,
) -> (o: CycleOutcome)
    ensures
        o.pool_missing == (pool is MissingId),
        (o.row is Some) <==> (pool matches PoolDecode::Parsed(p) && base_amount_e7(p.reserves@)
            > 0 && target_amount_e7(p.reserves@) > 0),
        pool matches PoolDecode::Parsed(p) ==> (o.row matches Some(r) ==> {
            &&& r.date@ == date@
            &&& r.time@ == time@
            &&& r.base_e7 as int == base_amount_e7(p.reserves@)
            &&& r.target_e7 as int == target_amount_e7(p.reserves@)
            &&& r.crypto_usd_e4 as int == clamp_rate_e4(crypto_usd_e4)
            &&& r.usd_fiat_e4 as int == clamp_rate_e4(usd_fiat_e4)
            &&& r.rate_e4 as int == rate_e4_spec(
                base_amount_e7(p.reserves@),
                target_amount_e7(p.reserves@),
                clamp_rate_e4(crypto_usd_e4),
                clamp_rate_e4(usd_fiat_e4),
            )
            &&& r.trustlines@ == p.total_trustlines@
        }),
{
    let u = if crypto_usd_e4 <= RATE_CAP_E4 {
        crypto_usd_e4
    } else {
        RATE_CAP_E4
    };
    let f = if usd_fiat_e4 <= RATE_CAP_E4 {
        usd_fiat_e4
    } else {
        RATE_CAP_E4
    };
    match pool {
        PoolDecode::MissingId => CycleOutcome { row: None, pool_missing: true },
        PoolDecode::BadShape => CycleOutcome { row: None, pool_missing: false },
        PoolDecode::Parsed(p) => {
            let (base, target) = split_reserves(&p.reserves);
            match compute_rate_e4(base, target, u, f) {
                Some(rate) => CycleOutcome {
                    row: Some(
                        Row {
                            date,
                            time,
                            rate_e4: rate,
                            target_e7: target,
                            base_e7: base,
                            crypto_usd_e4: u,
                            usd_fiat_e4: f,
                            trustlines: p.total_trustlines.clone(),
                        },
                    ),
                    pool_missing: false,
                },
                None => CycleOutcome { row: None, pool_missing: false },
            }
        },
    }
}

} // verus!
