//! The derived exchange rate.
//!
//! The rate of one target unit in fiat is `(base / target) * crypto_usd *
//! usd_fiat`. Amounts are held in 1e-7 units and rates in 1e-4 units, so in
//! fixed point the derived rate in 1e-4 units is the integer quotient
//! `(base_e7 * crypto_usd_e4 * usd_fiat_e4) / (target_e7 * 10_000)`.
//! A rate source that cannot be read falls back to a fixed default.

use vstd::prelude::*;

verus! {

/// Default crypto-to-USD rate (e4 units): 0.45.
pub const FALLBACK_CRYPTO_USD_E4: u64 = 4_500;

/// Default USD-to-fiat rate (e4 units): 95.00.
pub const FALLBACK_USD_FIAT_E4: u64 = 950_000;

/// Largest live rate the monitor works with (e4 units).
pub const RATE_CAP_E4: u64 = 4_294_967_295;

/// A rate held to the cap.
pub open spec fn clamp_rate_e4(v: u64) -> int {
    if v <= RATE_CAP_E4 {
        v as int
    } else {
        RATE_CAP_E4 as int
    }
}

/// The derived rate in 1e-4 units, rounded toward zero.
pub open spec fn rate_e4_spec(base_e7: int, target_e7: int, u_e4: int, f_e4: int) -> int {
    (base_e7 * u_e4 * f_e4) / (target_e7 * 10_000)
}

/// The crypto-to-USD rate a cycle uses: the fetched value when there is
/// one (quantized to e4 and capped), the fixed default when there is none.
/// A fetched zero flows through.
pub open spec fn crypto_usd_e4_spec(raw_e7: Option<u64>) -> int {
    match raw_e7 {
        None => FALLBACK_CRYPTO_USD_E4 as int,
        Some(v) => if v as int / 1_000 <= RATE_CAP_E4 as int {
            v as int / 1_000
        } else {
            RATE_CAP_E4 as int
        },
    }
}

/// The USD-to-fiat rate a cycle uses. The feed reports fiat-per-USD
/// inverted (USD per fiat unit, e7): a present, positive value is
/// inverted into e4 units and capped; a missing or zero value falls back
/// to the fixed default.
pub open spec fn usd_fiat_e4_spec(raw_e7: Option<u64>) -> int {
    match raw_e7 {
        None => FALLBACK_USD_FIAT_E4 as int,
        Some(v) => if v == 0 {
            FALLBACK_USD_FIAT_E4 as int
        } else if 100_000_000_000int / (v as int) <= RATE_CAP_E4 as int {
            100_000_000_000int / (v as int)
        } else {
            RATE_CAP_E4 as int
        },
    }
}

/// Pick the cycle's crypto-to-USD rate from the fetched value.
pub fn resolve_crypto_usd(raw_e7: Option<u64>) -> (r: u64)
    ensures
        r as int == crypto_usd_e4_spec(raw_e7),
        r <= RATE_CAP_E4,
{
    match raw_e7 {
        None => FALLBACK_CRYPTO_USD_E4,
        Some(v) => {
            let q = v / 1_000;
            if q <= RATE_CAP_E4 {
                q
            } else {
                RATE_CAP_E4
            }
        },
    }
}

/// Pick the cycle's USD-to-fiat rate from the fetched value.
pub fn resolve_usd_fiat(raw_e7: Option<u64>) -> (r: u64)
    ensures
        r as int == usd_fiat_e4_spec(raw_e7),
        r <= RATE_CAP_E4,
{
    match raw_e7 {
        None => FALLBACK_USD_FIAT_E4,
        Some(v) => {
            if v == 0 {
                FALLBACK_USD_FIAT_E4
            } else {
                let q = 100_000_000_000u64 / v;
                if q <= RATE_CAP_E4 {
                    q
                } else {
                    RATE_CAP_E4
                }
            }
        },
    }
}

/// A zero or missing fiat rate falls back to the fixed default.
pub proof fn lemma_fiat_fallback(raw_e7: Option<u64>)
    requires
        raw_e7 is None || raw_e7 == Some(0u64),
    ensures
        usd_fiat_e4_spec(raw_e7) == FALLBACK_USD_FIAT_E4 as int,
{
}

/// Derive the rate of one target unit in fiat, in 1e-4 units. There is no
/// rate when either reserve is empty.
pub fn compute_rate_e4(base_e7: u64, target_e7: u64, crypto_usd_e4: u64, usd_fiat_e4: u64) -> (r:
    Option<u128>)
    requires
        crypto_usd_e4 <= RATE_CAP_E4,
        usd_fiat_e4 <= RATE_CAP_E4,
    ensures
        (r is None) <==> (base_e7 == 0 || target_e7 == 0),
        r matches Some(v) ==> v as int == rate_e4_spec(
            base_e7 as int,
            target_e7 as int,
            crypto_usd_e4 as int,
            usd_fiat_e4 as int,
        ),
{
    if base_e7 == 0 || target_e7 == 0 {
        return None;
    }
    proof {
        vstd::arithmetic::mul::lemma_mul_upper_bound(
            base_e7 as int,
            18_446_744_073_709_551_615,
            crypto_usd_e4 as int,
            4_294_967_295,
        );
    }
    let bu: u128 = base_e7 as u128 * crypto_usd_e4 as u128;
    proof {
        vstd::arithmetic::mul::lemma_mul_upper_bound(
            bu as int,
            79_228_162_495_817_593_515_539_431_425,
            usd_fiat_e4 as int,
            4_294_967_295,
        );
        vstd::arithmetic::mul::lemma_mul_nonnegative(base_e7 as int, crypto_usd_e4 as int);
        vstd::arithmetic::mul::lemma_mul_nonnegative(bu as int, usd_fiat_e4 as int);
    }
    let num: u128 = bu * usd_fiat_e4 as u128;
    let den: u128 = target_e7 as u128 * 10_000;
    Some(num / den)
}

/// When the fixed-point division is exact, multiplying the rate back by
/// the scaled target recovers the scaled product exactly: the rate is
/// `(base / target) * crypto_usd * usd_fiat` with no remainder.
pub proof fn lemma_rate_exact(base_e7: int, target_e7: int, u_e4: int, f_e4: int)
    requires
        target_e7 > 0,
        (base_e7 * u_e4 * f_e4) % (target_e7 * 10_000) == 0,
    ensures
        rate_e4_spec(base_e7, target_e7, u_e4, f_e4) * (target_e7 * 10_000) == base_e7 * u_e4
            * f_e4,
{
    let num = base_e7 * u_e4 * f_e4;
    let den = target_e7 * 10_000;
    vstd::arithmetic::div_mod::lemma_fundamental_div_mod(num, den);
    vstd::arithmetic::mul::lemma_mul_is_commutative(den, num / den);
}

/// Raising the crypto-to-USD rate never lowers the derived rate.
pub proof fn lemma_rate_monotonic_crypto(
    base_e7: int,
    target_e7: int,
    u1_e4: int,
    u2_e4: int,
    f_e4: int,
)
    requires
        base_e7 >= 0,
        target_e7 > 0,
        f_e4 >= 0,
        0 <= u1_e4 <= u2_e4,
    ensures
        rate_e4_spec(base_e7, target_e7, u1_e4, f_e4) <= rate_e4_spec(
            base_e7,
            target_e7,
            u2_e4,
            f_e4,
        ),
{
    assert(base_e7 * u1_e4 <= base_e7 * u2_e4) by {
        vstd::arithmetic::mul::lemma_mul_inequality(u1_e4, u2_e4, base_e7);
        vstd::arithmetic::mul::lemma_mul_is_commutative(base_e7, u1_e4);
        vstd::arithmetic::mul::lemma_mul_is_commutative(base_e7, u2_e4);
    }
    assert(base_e7 * u1_e4 * f_e4 <= base_e7 * u2_e4 * f_e4) by {
        vstd::arithmetic::mul::lemma_mul_inequality(base_e7 * u1_e4, base_e7 * u2_e4, f_e4);
    }
    vstd::arithmetic::div_mod::lemma_div_is_ordered(
        base_e7 * u1_e4 * f_e4,
        base_e7 * u2_e4 * f_e4,
        target_e7 * 10_000,
    );
}

/// Raising the USD-to-fiat rate never lowers the derived rate.
pub proof fn lemma_rate_monotonic_fiat(
    base_e7: int,
    target_e7: int,
    u_e4: int,
    f1_e4: int,
    f2_e4: int,
)
    requires
        base_e7 >= 0,
        target_e7 > 0,
        u_e4 >= 0,
        0 <= f1_e4 <= f2_e4,
    ensures
        rate_e4_spec(base_e7, target_e7, u_e4, f1_e4) <= rate_e4_spec(
            base_e7,
            target_e7,
            u_e4,
            f2_e4,
        ),
{
    assert(base_e7 * u_e4 * f1_e4 <= base_e7 * u_e4 * f2_e4) by {
        vstd::arithmetic::mul::lemma_mul_nonnegative(base_e7, u_e4);
        vstd::arithmetic::mul::lemma_mul_inequality(f1_e4, f2_e4, base_e7 * u_e4);
        vstd::arithmetic::mul::lemma_mul_is_commutative(base_e7 * u_e4, f1_e4);
        vstd::arithmetic::mul::lemma_mul_is_commutative(base_e7 * u_e4, f2_e4);
    }
    vstd::arithmetic::div_mod::lemma_div_is_ordered(
        base_e7 * u_e4 * f1_e4,
        base_e7 * u_e4 * f2_e4,
        target_e7 * 10_000,
    );
}

} // verus!
