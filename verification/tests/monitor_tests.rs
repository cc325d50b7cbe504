use ruv_monitor::json::decode_crypto_usd;
use ruv_monitor::json::decode_pool;
use ruv_monitor::json::decode_positions;
use ruv_monitor::json::decode_usd_fiat;
use ruv_monitor::monitor::run_cycle;
use ruv_monitor::pool::Pool;
use ruv_monitor::pool::PoolDecode;
use ruv_monitor::pool::Reserve;
use ruv_monitor::pool::short_pool_id;
use ruv_monitor::pool::split_reserves;
use ruv_monitor::rate::compute_rate_e4;
use ruv_monitor::rate::resolve_crypto_usd;
use ruv_monitor::rate::resolve_usd_fiat;
use ruv_monitor::record::RecordStore;
use ruv_monitor::record::Row;
use ruv_monitor::record::header_cells;
use ruv_monitor::record::row_cells;

const POOL_JSON: &str = "{\"id\":\"bfad578200fecbf7210294aa939d68ee\",\
    \"total_trustlines\":\"321\",\
    \"reserves\":[{\"asset\":\"native\",\"amount\":\"1000000\"},\
    {\"asset\":\"RUV:ISSUER\",\"amount\":\"500\"}]}";

#[test]
fn derives_the_example_rate() {
    // (1000000 / 500) * 0.45 * 95 = 85500
    let r = compute_rate_e4(10_000_000_000_000, 5_000_000_000, 4_500, 950_000);
    assert_eq!(r, Some(855_000_000));
}

#[test]
fn no_rate_without_both_reserves() {
    assert_eq!(compute_rate_e4(0, 5_000_000_000, 4_500, 950_000), None);
    assert_eq!(compute_rate_e4(10_000_000_000_000, 0, 4_500, 950_000), None);
    assert_eq!(compute_rate_e4(0, 0, 4_500, 950_000), None);
}

#[test]
fn rate_is_monotonic_in_the_live_rates() {
    let base = compute_rate_e4(10_000_000_000_000, 5_000_000_000, 4_500, 950_000).unwrap();
    let more_crypto = compute_rate_e4(10_000_000_000_000, 5_000_000_000, 4_600, 950_000).unwrap();
    let more_fiat = compute_rate_e4(10_000_000_000_000, 5_000_000_000, 4_500, 960_000).unwrap();
    assert!(more_crypto >= base);
    assert!(more_fiat >= base);
}

#[test]
fn crypto_rate_falls_back_only_when_missing() {
    assert_eq!(resolve_crypto_usd(None), 4_500);
    assert_eq!(resolve_crypto_usd(Some(4_500_000)), 4_500);
    assert_eq!(resolve_crypto_usd(Some(0)), 0);
}

#[test]
fn fiat_rate_falls_back_when_missing_or_zero() {
    assert_eq!(resolve_usd_fiat(None), 950_000);
    assert_eq!(resolve_usd_fiat(Some(0)), 950_000);
    // 0.01 USD per fiat unit inverts to 100.00
    assert_eq!(resolve_usd_fiat(Some(100_000)), 1_000_000);
}

#[test]
fn splits_reserves_by_role() {
    let reserves = vec![
        Reserve { asset: "native".to_string(), amount: "1000000".to_string() },
        Reserve { asset: "RUV:ISSUER".to_string(), amount: "500".to_string() },
        Reserve { asset: "OTHER:ISSUER".to_string(), amount: "7".to_string() },
    ];
    let (base, target) = split_reserves(&reserves);
    assert_eq!(base, 10_000_000_000_000);
    assert_eq!(target, 5_000_000_000);
}

#[test]
fn later_reserves_shadow_earlier_ones() {
    let reserves = vec![
        Reserve { asset: "native".to_string(), amount: "1".to_string() },
        Reserve { asset: "native".to_string(), amount: "2".to_string() },
    ];
    let (base, target) = split_reserves(&reserves);
    assert_eq!(base, 20_000_000);
    assert_eq!(target, 0);
}

#[test]
fn decodes_a_full_pool() {
    match decode_pool(POOL_JSON) {
        PoolDecode::Parsed(p) => {
            assert_eq!(p.id, "bfad578200fecbf7210294aa939d68ee");
            assert_eq!(p.total_trustlines, "321");
            assert_eq!(p.reserves.len(), 2);
            assert_eq!(p.reserves[0].asset, "native");
            assert_eq!(p.reserves[0].amount, "1000000");
            assert_eq!(p.reserves[1].asset, "RUV:ISSUER");
            assert_eq!(p.reserves[1].amount, "500");
        }
        _ => panic!("expected a parsed pool"),
    }
}

#[test]
fn missing_identifier_yields_zero_pools() {
    assert!(matches!(decode_pool("{\"reserves\":[]}"), PoolDecode::MissingId));
    assert!(matches!(decode_pool("{\"id\":5}"), PoolDecode::MissingId));
    assert!(matches!(decode_pool("not json"), PoolDecode::MissingId));
    assert!(matches!(decode_pool(""), PoolDecode::MissingId));
}

#[test]
fn bad_shape_with_identifier_degrades_silently() {
    assert!(matches!(decode_pool("{\"id\":\"x\"}"), PoolDecode::BadShape));
    assert!(matches!(
        decode_pool("{\"id\":\"x\",\"reserves\":[{\"asset\":\"native\"}],\"total_trustlines\":\"1\"}"),
        PoolDecode::BadShape
    ));
}

#[test]
fn reads_the_crypto_rate() {
    assert_eq!(decode_crypto_usd("{\"stellar\":{\"usd\":0.45}}"), Some(4_500_000));
    assert_eq!(decode_crypto_usd("{\"stellar\":{}}"), None);
    assert_eq!(decode_crypto_usd("{}"), None);
    assert_eq!(decode_crypto_usd("nope"), None);
}

#[test]
fn reads_the_fiat_rate() {
    assert_eq!(decode_usd_fiat("{\"rates\":{\"USD\":0.01}}"), Some(100_000));
    assert_eq!(decode_usd_fiat("{\"rates\":{\"USD\":0}}"), Some(0));
    assert_eq!(decode_usd_fiat("{\"rates\":{}}"), None);
}

#[test]
fn reads_positions() {
    let text = "{\"_embedded\":{\"records\":[\
        {\"liquidity_pool\":{\"id\":\"abcdefgh1234\",\"shares\":\"12.5\"}},\
        {\"liquidity_pool\":{}}]}}";
    let positions = decode_positions(text);
    assert_eq!(positions.len(), 2);
    assert_eq!(positions[0].pool_id.as_deref(), Some("abcdefgh1234"));
    assert_eq!(positions[0].shares.as_deref(), Some("12.5"));
    assert!(positions[1].pool_id.is_none());
    assert!(positions[1].shares.is_none());
    assert!(decode_positions("{}").is_empty());
}

#[test]
fn shortens_pool_identifiers() {
    assert_eq!(short_pool_id("bfad578200fecbf7"), "bfad5782");
    assert_eq!(short_pool_id("abc"), "abc");
}

#[test]
fn a_cycle_writes_the_example_row() {
    let decoded = decode_pool(POOL_JSON);
    let outcome = run_cycle(
        &decoded,
        4_500,
        950_000,
        "2024-01-02".to_string(),
        "03:04:05".to_string(),
    );
    assert!(!outcome.pool_missing);
    let row = outcome.row.expect("a qualifying pool contributes a row");
    let cells = row_cells(&row);
    assert_eq!(
        cells,
        vec![
            "2024-01-02", "03:04:05", "85500.0000", "500", "1000000.00", "0.4500", "95.00", "321",
        ]
    );
}

#[test]
fn a_cycle_without_positive_reserves_emits_no_row() {
    let pool = PoolDecode::Parsed(Pool {
        id: "p".to_string(),
        reserves: vec![Reserve { asset: "native".to_string(), amount: "1000000".to_string() }],
        total_trustlines: "1".to_string(),
    });
    let outcome = run_cycle(&pool, 4_500, 950_000, "d".to_string(), "t".to_string());
    assert!(outcome.row.is_none());
    assert!(!outcome.pool_missing);
}

#[test]
fn a_missing_pool_warns_and_emits_no_row() {
    let decoded = decode_pool("{\"reserves\":[]}");
    let outcome = run_cycle(&decoded, 4_500, 950_000, "d".to_string(), "t".to_string());
    assert!(outcome.pool_missing);
    assert!(outcome.row.is_none());
}

fn sample_row(date: &str) -> Row {
    Row {
        date: date.to_string(),
        time: "03:04:05".to_string(),
        rate_e4: 855_000_000,
        target_e7: 5_000_000_000,
        base_e7: 10_000_000_000_000,
        crypto_usd_e4: 4_500,
        usd_fiat_e4: 950_000,
        trustlines: "321".to_string(),
    }
}

#[test]
fn the_header_is_written_once_before_any_rows() {
    let header = header_cells();
    assert_eq!(
        header,
        vec!["date", "time", "ruv_rub", "ruv", "xlm", "xlm_usd", "usd_rub", "trustlines"]
    );

    let mut store = RecordStore::new();
    assert_eq!(store.lines(), vec![header.clone()]);

    store.append_row(sample_row("2024-01-02"));
    store.append_row(sample_row("2024-01-03"));
    let lines = store.lines();
    assert_eq!(lines.len(), 3);
    assert_eq!(lines[0], header);
    assert_eq!(lines[1][0], "2024-01-02");
    assert_eq!(lines[2][0], "2024-01-03");
    assert_eq!(lines.iter().filter(|l| **l == header).count(), 1);
}
