//! The pool snapshot and its reserves.
//!
//! A pool holds an identifier, an ordered list of reserves, and a
//! string-encoded participant count. Each reserve carries an asset
//! descriptor and a decimal-string amount. A reserve whose descriptor
//! starts with the monitored code prefix plays the target role; the
//! native-asset marker plays the base role; any other asset is ignored.

use vstd::prelude::*;
use vstd::string::*;
use crate::amount::parse_e7_spec;
use crate::amount::parse_amount_e7;

verus! {

pub struct Reserve {
    pub asset: String,
    pub amount: String,
}

pub struct Pool {
    pub id: String,
    pub reserves: Vec<Reserve>,
    pub total_trustlines: String,
}

/// An on-demand position record: the owning pool and a share count,
/// either of which the source may omit.
pub struct Position {
    pub pool_id: Option<String>,
    pub shares: Option<String>,
}

/// What decoding a pool response yields. A response without a
/// string-typed identifier — an unparsable body included — is
/// `MissingId` and owes the console a warning; one whose identifier is
/// in order but whose structure is not degrades silently to `BadShape`.
pub enum PoolDecode {
    Parsed(Pool),
    MissingId,
    BadShape,
}

/// The target role: the descriptor starts with the monitored code
/// followed by the issuer separator.
pub open spec fn is_target_asset(a: Seq<char>) -> bool {
    a.len() >= 4 && a[0] == 'R' && a[1] == 'U' && a[2] == 'V' && a[3] == ':'
}

/// The base role: the descriptor is exactly the native-asset marker.
pub open spec fn is_base_asset(a: Seq<char>) -> bool {
    a.len() == 6 && a[0] == 'n' && a[1] == 'a' && a[2] == 't' && a[3] == 'i' && a[4] == 'v'
        && a[5] == 'e'
}

pub open spec fn reserve_amount_e7(r: Reserve) -> int {
    parse_e7_spec(r.amount@)
}

/// The base amount a reserve list yields: the parsed amount of the last
/// base-role reserve, 0 when there is none. A target-role descriptor is
/// never read as base, whatever else it looks like.
pub open spec fn base_amount_e7(rs: Seq<Reserve>) -> int
    decreases rs.len(),
{
    if rs.len() == 0 {
        0
    } else if is_target_asset(rs.last().asset@) {
        base_amount_e7(rs.drop_last())
    } else if is_base_asset(rs.last().asset@) {
        reserve_amount_e7(rs.last())
    } else {
        base_amount_e7(rs.drop_last())
    }
}

/// The target amount a reserve list yields: the parsed amount of the last
/// target-role reserve, 0 when there is none.
pub open spec fn target_amount_e7(rs: Seq<Reserve>) -> int
    decreases rs.len(),
{
    if rs.len() == 0 {
        0
    } else if is_target_asset(rs.last().asset@) {
        reserve_amount_e7(rs.last())
    } else {
        target_amount_e7(rs.drop_last())
    }
}

fn asset_is_target(a: &str) -> (b: bool)
    ensures
        b == is_target_asset(a@),
{
    let n = a.unicode_len();
    n >= 4 && a.get_char(0) == 'R' && a.get_char(1) == 'U' && a.get_char(2) == 'V' && a.get_char(3)
        == ':'
}

fn asset_is_base(a: &str) -> (b: bool)
    ensures
        b == is_base_asset(a@),
{
    let n = a.unicode_len();
    n == 6 && a.get_char(0) == 'n' && a.get_char(1) == 'a' && a.get_char(2) == 't' && a.get_char(3)
        == 'i' && a.get_char(4) == 'v' && a.get_char(5) == 'e'
}

/// Walk the reserves and pick out the base and target amounts, later
/// entries of a role shadowing earlier ones.
pub fn split_reserves(rs: &Vec<Reserve>) -> (r: (u64, u64))
    ensures
        r.0 as int == base_amount_e7(rs@),
        r.1 as int == target_amount_e7(rs@),
{
    let mut base: u64 = 0;
    let mut target: u64 = 0;
    let mut i: usize = 0;
    while i < rs.len()
        invariant
            i <= rs@.len(),
            base as int == base_amount_e7(rs@.take(i as int)),
            target as int == target_amount_e7(rs@.take(i as int)),
        decreases rs@.len() - i,
    {
        let entry = &rs[i];
        if asset_is_target(entry.asset.as_str()) {
            target = parse_amount_e7(entry.amount.as_str());
        } else if asset_is_base(entry.asset.as_str()) {
            base = parse_amount_e7(entry.amount.as_str());
        }
        proof {
            assert(rs@.take(i + 1).drop_last() =~= rs@.take(i as int));
            assert(rs@.take(i + 1).last() == rs@[i as int]);
        }
        i = i + 1;
    }
    proof {
        assert(rs@.take(rs@.len() as int) =~= rs@);
    }
    (base, target)
}

/// The displayed form of a pool identifier: its first eight characters,
/// or all of it when it is shorter.
pub fn short_pool_id(s: &str) -> (r: String)
    ensures
        r@ == (if s@.len() >= 8 {
            s@.take(8)
        } else {
            s@
        }),
{
    let n = s.unicode_len();
    if n >= 8 {
        let t = s.substring_char(0, 8);
        proof {
            assert(t@ =~= s@.take(8));
        }
        t.to_owned()
    } else {
        s.to_owned()
    }
}

} // verus!
