//! Reading the fetched JSON responses.
//!
//! The response bodies are parsed by serde_json behind a few trusted
//! wrappers. A JSON value is opaque here, so what each serde_json call
//! returns is given a name — whether a text parses (`wf_json`) and to
//! what (`json_of`), what a field lookup yields (`has_field`,
//! `field_of`), and what a string, number or array holds (`is_str` /
//! `str_of`, `is_num` / `num_text_of`, `is_arr` / `elems_of`). Every
//! decision the monitor takes about the parsed values — which fields
//! must be present, what shape they must have, what their text means —
//! is verified code whose contracts are exact over those names.

use vstd::prelude::*;
use crate::amount::parse_amount_e7;
use crate::amount::parse_e7_spec;
use crate::pool::Pool;
use crate::pool::PoolDecode;
use crate::pool::Position;
use crate::pool::Reserve;

verus! {

#[verifier::external_type_specification]
#[verifier::external_body]
pub struct ExValue(serde_json::Value);

/// Whether serde_json parses this text as a JSON document.
pub uninterp spec fn wf_json(text: Seq<char>) -> bool;

/// The value serde_json parses this text to, when it parses.
pub uninterp spec fn json_of(text: Seq<char>) -> serde_json::Value;

/// Whether a field lookup on this value finds the key: the value is an
/// object holding it.
pub uninterp spec fn has_field(v: serde_json::Value, key: Seq<char>) -> bool;

/// The value a field lookup finds, when it finds one.
pub uninterp spec fn field_of(v: serde_json::Value, key: Seq<char>) -> serde_json::Value;

/// Whether the value is a JSON string.
pub uninterp spec fn is_str(v: serde_json::Value) -> bool;

/// The text of a JSON string.
pub uninterp spec fn str_of(v: serde_json::Value) -> Seq<char>;

/// Whether the value is a JSON number.
pub uninterp spec fn is_num(v: serde_json::Value) -> bool;

/// The decimal text a JSON number displays as.
pub uninterp spec fn num_text_of(v: serde_json::Value) -> Seq<char>;

/// Whether the value is a JSON array.
pub uninterp spec fn is_arr(v: serde_json::Value) -> bool;

/// The elements of a JSON array, in order.
pub uninterp spec fn elems_of(v: serde_json::Value) -> Seq<serde_json::Value>;

/// Relies on serde_json::from_str: parses a JSON document, `Some`
/// exactly when the text is well-formed JSON (named `wf_json`), and then
/// the parsed value (named `json_of`); both depend on the text alone.
#[verifier::external_body]
fn parse_json(text: &str) -> (r: Option<serde_json::Value>)
    ensures
        r is Some <==> wf_json(text@),
        r matches Some(v) ==> v == json_of(text@),
{
    serde_json::from_str(text).ok()
}

/// Relies on serde_json::Value::get: looks a key up, `Some` exactly when
/// the value is an object with that key (named `has_field`), and then
/// the field's value (named `field_of`).
#[verifier::external_body]
fn json_get<'a>(v: &'a serde_json::Value, key: &str) -> (r: Option<&'a serde_json::Value>)
    ensures
        r is Some <==> has_field(*v, key@),
        r matches Some(f) ==> *f == field_of(*v, key@),
{
    v.get(key)
}

/// Relies on serde_json::Value::String: hands the text of a JSON string
/// out, `Some` exactly when the value is a string (named `is_str`), with
/// the text named `str_of`.
#[verifier::external_body]
fn json_string(v: &serde_json::Value) -> (r: Option<String>)
    ensures
        r is Some <==> is_str(*v),
        r matches Some(s) ==> s@ == str_of(*v),
{
    match v {
        serde_json::Value::String(s) => Some(s.clone()),
        _ => None,
    }
}

/// Relies on serde_json::Value::Number and Number's Display: hands a
/// JSON number out as its decimal text, `Some` exactly when the value is
/// a number (named `is_num`), with the text named `num_text_of`.
#[verifier::external_body]
fn json_number_text(v: &serde_json::Value) -> (r: Option<String>)
    ensures
        r is Some <==> is_num(*v),
        r matches Some(t) ==> t@ == num_text_of(*v),
{
    match v {
        serde_json::Value::Number(n) => Some(n.to_string()),
        _ => None,
    }
}

/// Relies on serde_json::Value::as_array: hands the elements of a JSON
/// array out, `Some` exactly when the value is an array (named
/// `is_arr`), with the elements named `elems_of`.
#[verifier::external_body]
fn json_array<'a>(v: &'a serde_json::Value) -> (r: Option<&'a Vec<serde_json::Value>>)
    ensures
        r is Some <==> is_arr(*v),
        r matches Some(a) ==> a@ == elems_of(*v),
{
    v.as_array()
}

/// The pool response carries a string-typed identifier.
pub open spec fn pool_id_ok(text: Seq<char>) -> bool {
    &&& wf_json(text)
    &&& has_field(json_of(text), "id"@)
    &&& is_str(field_of(json_of(text), "id"@))
}

/// One reserve entry decodes: string-typed asset and amount fields.
pub open spec fn reserve_shape_ok(v: serde_json::Value) -> bool {
    &&& has_field(v, "asset"@)
    &&& is_str(field_of(v, "asset"@))
    &&& has_field(v, "amount"@)
    &&& is_str(field_of(v, "amount"@))
}

/// The pool response decodes structurally: a reserves array whose every
/// entry decodes, and a string-typed trustline count.
pub open spec fn pool_shape_ok(text: Seq<char>) -> bool {
    let root = json_of(text);
    &&& has_field(root, "reserves"@)
    &&& is_arr(field_of(root, "reserves"@))
    &&& (forall|i: int|
        0 <= i < elems_of(field_of(root, "reserves"@)).len() ==> reserve_shape_ok(
            #[trigger] elems_of(field_of(root, "reserves"@))[i],
        ))
    &&& has_field(root, "total_trustlines"@)
    &&& is_str(field_of(root, "total_trustlines"@))
}

/// Decode a pool response. The identifier must be present and
/// string-typed before any structural decoding is tried; a response
/// without it — including an unparsable body — degrades to `MissingId`,
/// which owes the console a warning. A present identifier with any other
/// shape mismatch degrades silently to `BadShape`.
pub fn decode_pool(text: &str) -> (r: PoolDecode)
    ensures
        r is MissingId <==> !pool_id_ok(text@),
        r is BadShape <==> (pool_id_ok(text@) && !pool_shape_ok(text@)),
        r is Parsed <==> (pool_id_ok(text@) && pool_shape_ok(text@)),
        r matches PoolDecode::Parsed(p) ==> {
            let root = json_of(text@);
            let elems = elems_of(field_of(root, "reserves"@));
            &&& p.id@ == str_of(field_of(root, "id"@))
            &&& p.total_trustlines@ == str_of(field_of(root, "total_trustlines"@))
            &&& p.reserves@.len() == elems.len()
            &&& (forall|i: int|
                0 <= i < p.reserves@.len() ==> (#[trigger] p.reserves@[i]).asset@ == str_of(
                    field_of(elems[i], "asset"@),
                ) && p.reserves@[i].amount@ == str_of(field_of(elems[i], "amount"@)))
        },
{
    let v = match parse_json(text) {
        Some(v) => v,
        None => {
            return PoolDecode::MissingId;
        },
    };
    let idv = match json_get(&v, "id") {
        Some(x) => x,
        None => {
            return PoolDecode::MissingId;
        },
    };
    let id = match json_string(idv) {
        Some(s) => s,
        None => {
            return PoolDecode::MissingId;
        },
    };
    let reserves_v = match json_get(&v, "reserves") {
        Some(rv) => rv,
        None => {
            return PoolDecode::BadShape;
        },
    };
    let arr = match json_array(reserves_v) {
        Some(a) => a,
        None => {
            return PoolDecode::BadShape;
        },
    };
    let ghost elems = elems_of(field_of(json_of(text@), "reserves"@));
    let mut reserves: Vec<Reserve> = Vec::new();
    let mut i: usize = 0;
    while i < arr.len()
        invariant
            pool_id_ok(text@),
            elems == elems_of(field_of(json_of(text@), "reserves"@)),
            i <= arr@.len(),
            arr@ == elems,
            reserves@.len() == i,
            forall|j: int| 0 <= j < i ==> reserve_shape_ok(#[trigger] elems[j]),
            forall|j: int|
                0 <= j < i ==> (#[trigger] reserves@[j]).asset@ == str_of(
                    field_of(elems[j], "asset"@),
                ) && reserves@[j].amount@ == str_of(field_of(elems[j], "amount"@)),
        decreases arr@.len() - i,
    {
        let elem = &arr[i];
        let asset = match json_get(elem, "asset") {
            Some(av) => match json_string(av) {
                Some(s) => s,
                None => {
                    proof {
                        assert(!reserve_shape_ok(elems[i as int]));
                    }
                    return PoolDecode::BadShape;
                },
            },
            None => {
                proof {
                    assert(!reserve_shape_ok(elems[i as int]));
                }
                return PoolDecode::BadShape;
            },
        };
        let amount = match json_get(elem, "amount") {
            Some(av) => match json_string(av) {
                Some(s) => s,
                None => {
                    proof {
                        assert(!reserve_shape_ok(elems[i as int]));
                    }
                    return PoolDecode::BadShape;
                },
            },
            None => {
                proof {
                    assert(!reserve_shape_ok(elems[i as int]));
                }
                return PoolDecode::BadShape;
            },
        };
        reserves.push(Reserve { asset, amount });
        i = i + 1;
    }
    let total_trustlines = match json_get(&v, "total_trustlines") {
        Some(tv) => match json_string(tv) {
            Some(s) => s,
            None => {
                return PoolDecode::BadShape;
            },
        },
        None => {
            return PoolDecode::BadShape;
        },
    };
    PoolDecode::Parsed(Pool { id, reserves, total_trustlines })
}

/// The response carries a number at `outer.inner`.
pub open spec fn rate_num_ok(text: Seq<char>, outer: Seq<char>, inner: Seq<char>) -> bool {
    &&& wf_json(text)
    &&& has_field(json_of(text), outer)
    &&& has_field(field_of(json_of(text), outer), inner)
    &&& is_num(field_of(field_of(json_of(text), outer), inner))
}

/// The decimal text of the number at `outer.inner`.
pub open spec fn rate_num_text(text: Seq<char>, outer: Seq<char>, inner: Seq<char>) -> Seq<char> {
    num_text_of(field_of(field_of(json_of(text), outer), inner))
}

fn nested_number_e7(v: &serde_json::Value, outer: &str, inner: &str) -> (r: Option<u64>)
    ensures
        r is Some <==> (has_field(*v, outer@) && has_field(field_of(*v, outer@), inner@) && is_num(
            field_of(field_of(*v, outer@), inner@),
        )),
        r matches Some(n) ==> n as int == parse_e7_spec(
            num_text_of(field_of(field_of(*v, outer@), inner@)),
        ),
{
    match json_get(v, outer) {
        Some(level) => match json_get(level, inner) {
            Some(nv) => match json_number_text(nv) {
                Some(t) => Some(parse_amount_e7(t.as_str())),
                None => None,
            },
            None => None,
        },
        None => None,
    }
}

/// Read the crypto-to-USD rate out of the price response, in 1e-7 units:
/// the parsed decimal text of the number at `stellar.usd`. `None` when
/// the body, the path or the number is missing; a number whose text is
/// not a plain decimal reads as 0.
pub fn decode_crypto_usd(text: &str) -> (r: Option<u64>)
    ensures
        r is Some <==> rate_num_ok(text@, "stellar"@, "usd"@),
        r matches Some(n) ==> n as int == parse_e7_spec(rate_num_text(text@, "stellar"@, "usd"@)),
{
    match parse_json(text) {
        Some(v) => nested_number_e7(&v, "stellar", "usd"),
        None => None,
    }
}

/// Read the USD rate out of the daily fiat feed, in 1e-7 units of USD
/// per fiat unit: the parsed decimal text of the number at `rates.USD`.
/// `None` when the body, the path or the number is missing; a number
/// whose text is not a plain decimal reads as 0.
pub fn decode_usd_fiat(text: &str) -> (r: Option<u64>)
    ensures
        r is Some <==> rate_num_ok(text@, "rates"@, "USD"@),
        r matches Some(n) ==> n as int == parse_e7_spec(rate_num_text(text@, "rates"@, "USD"@)),
{
    match parse_json(text) {
        Some(v) => nested_number_e7(&v, "rates", "USD"),
        None => None,
    }
}

/// The positions response carries a records array at `_embedded.records`.
pub open spec fn positions_ok(text: Seq<char>) -> bool {
    &&& wf_json(text)
    &&& has_field(json_of(text), "_embedded"@)
    &&& has_field(field_of(json_of(text), "_embedded"@), "records"@)
    &&& is_arr(field_of(field_of(json_of(text), "_embedded"@), "records"@))
}

/// The records of the positions response, in order.
pub open spec fn position_records(text: Seq<char>) -> Seq<serde_json::Value> {
    elems_of(field_of(field_of(json_of(text), "_embedded"@), "records"@))
}

/// The text of one string field under a record's `liquidity_pool`
/// object, when the whole path is there.
pub open spec fn position_text_field(rec: serde_json::Value, key: Seq<char>) -> Option<Seq<char>> {
    if has_field(rec, "liquidity_pool"@) {
        let lp = field_of(rec, "liquidity_pool"@);
        if has_field(lp, key) && is_str(field_of(lp, key)) {
            Some(str_of(field_of(lp, key)))
        } else {
            None
        }
    } else {
        None
    }
}

/// Decode a positions response into the records' pool identifiers and
/// share counts, in order; any shape mismatch yields what was readable,
/// down to no records at all.
pub fn decode_positions(text: &str) -> (r: Vec<Position>)
    ensures
        !positions_ok(text@) ==> r@.len() == 0,
        positions_ok(text@) ==> {
            &&& r@.len() == position_records(text@).len()
            &&& (forall|i: int|
                0 <= i < r@.len() ==> (#[trigger] r@[i]).pool_id.deep_view()
                    == position_text_field(position_records(text@)[i], "id"@)
                    && r@[i].shares.deep_view() == position_text_field(
                    position_records(text@)[i],
                    "shares"@,
                ))
        },
{
    let mut out: Vec<Position> = Vec::new();
    let v = match parse_json(text) {
        Some(v) => v,
        None => {
            return out;
        },
    };
    let embedded = match json_get(&v, "_embedded") {
        Some(e) => e,
        None => {
            return out;
        },
    };
    let records = match json_get(embedded, "records") {
        Some(x) => x,
        None => {
            return out;
        },
    };
    let arr = match json_array(records) {
        Some(a) => a,
        None => {
            return out;
        },
    };
    let ghost recs = position_records(text@);
    let mut i: usize = 0;
    while i < arr.len()
        invariant
            i <= arr@.len(),
            arr@ == recs,
            out@.len() == i,
            forall|j: int|
                0 <= j < i ==> (#[trigger] out@[j]).pool_id.deep_view() == position_text_field(
                    recs[j],
                    "id"@,
                ) && out@[j].shares.deep_view() == position_text_field(recs[j], "shares"@),
        decreases arr@.len() - i,
    {
        let rec = &arr[i];
        let entry = match json_get(rec, "liquidity_pool") {
            Some(lp) => {
                let pool_id = match json_get(lp, "id") {
                    Some(x) => json_string(x),
                    None => None,
                };
                let shares = match json_get(lp, "shares") {
                    Some(x) => json_string(x),
                    None => None,
                };
                Position { pool_id, shares }
            },
            None => Position { pool_id: None, shares: None },
        };
        out.push(entry);
        i = i + 1;
    }
    out
}

} // verus!
