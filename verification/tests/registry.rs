use price_oracle::registry::{fresh_at, OracleError, PriceOracle};

#[test]
fn unwritten_pair_reads_absent() {
    let o = PriceOracle::new();
    let pair = String::from("BTC/USD");
    assert_eq!(o.get_price(&pair), None);
    assert_eq!(o.get_timestamp(&pair), None);
    assert_eq!(o.get_provider(&pair), None);
    assert!(!o.is_fresh(&pair, 0, 0));
    assert!(!o.is_fresh(&pair, u64::MAX, u64::MAX));
}

#[test]
fn read_after_write_returns_written_values() {
    let mut o = PriceOracle::new();
    let pair = String::from("XLM/USD");
    let r = o.set_price(pair.clone(), 42, String::from("feeder"), 7_777, true);
    assert_eq!(r, Ok(()));
    assert_eq!(o.get_price(&pair), Some(42));
    assert_eq!(o.get_timestamp(&pair), Some(7_777));
    assert_eq!(o.get_provider(&pair), Some(String::from("feeder")));
}

#[test]
fn overwrite_replaces_all_three_fields() {
    let mut o = PriceOracle::new();
    let pair = String::from("XLM/USD");
    o.set_price(pair.clone(), 42, String::from("feeder"), 7_777, true)
        .unwrap();
    o.set_price(pair.clone(), -5, String::from("other"), 8_888, true)
        .unwrap();
    assert_eq!(o.get_price(&pair), Some(-5));
    assert_eq!(o.get_timestamp(&pair), Some(8_888));
    assert_eq!(o.get_provider(&pair), Some(String::from("other")));
}

#[test]
fn repeated_identical_write_keeps_second_timestamp() {
    let mut o = PriceOracle::new();
    let pair = String::from("BTC/USD");
    o.set_price(pair.clone(), 100, String::from("P1"), 1_000, true)
        .unwrap();
    o.set_price(pair.clone(), 100, String::from("P1"), 2_000, true)
        .unwrap();
    assert_eq!(o.get_price(&pair), Some(100));
    assert_eq!(o.get_provider(&pair), Some(String::from("P1")));
    assert_eq!(o.get_timestamp(&pair), Some(2_000));
}

#[test]
fn unauthorized_write_is_rejected_and_changes_nothing() {
    let mut o = PriceOracle::new();
    let pair = String::from("BTC/USD");
    o.set_price(pair.clone(), 100, String::from("P1"), 1_000, true)
        .unwrap();
    let r = o.set_price(pair.clone(), 999, String::from("P2"), 2_000, false);
    assert_eq!(r, Err(OracleError::Unauthorized));
    assert_eq!(o.get_price(&pair), Some(100));
    assert_eq!(o.get_timestamp(&pair), Some(1_000));
    assert_eq!(o.get_provider(&pair), Some(String::from("P1")));
}

#[test]
fn unauthorized_first_write_leaves_pair_unset() {
    let mut o = PriceOracle::new();
    let pair = String::from("BTC/USD");
    let r = o.set_price(pair.clone(), 100, String::from("P1"), 1_000, false);
    assert_eq!(r, Err(OracleError::Unauthorized));
    assert_eq!(o.get_price(&pair), None);
    assert_eq!(o.get_timestamp(&pair), None);
    assert_eq!(o.get_provider(&pair), None);
    assert!(!o.is_fresh(&pair, 1_000_000, 1_000));
}

#[test]
fn pairs_are_independent() {
    let mut o = PriceOracle::new();
    o.set_price(String::from("BTC/USD"), 1, String::from("P1"), 10, true)
        .unwrap();
    o.set_price(String::from("ETH/USD"), 2, String::from("P2"), 20, true)
        .unwrap();
    assert_eq!(o.get_price(&String::from("BTC/USD")), Some(1));
    assert_eq!(o.get_price(&String::from("ETH/USD")), Some(2));
    assert_eq!(o.get_provider(&String::from("BTC/USD")), Some(String::from("P1")));
    assert_eq!(o.get_timestamp(&String::from("ETH/USD")), Some(20));
    assert_eq!(o.get_price(&String::from("eth/usd")), None);
}

#[test]
fn freshness_boundary_is_inclusive() {
    let mut o = PriceOracle::new();
    let pair = String::from("BTC/USD");
    o.set_price(pair.clone(), 1, String::from("P1"), 5_000, true)
        .unwrap();
    assert!(o.is_fresh(&pair, 100, 5_100));
    assert!(!o.is_fresh(&pair, 100, 5_101));
    assert!(o.is_fresh(&pair, 0, 5_000));
    assert!(!o.is_fresh(&pair, 0, 5_001));
}

#[test]
fn btc_usd_scenario() {
    let mut o = PriceOracle::new();
    let pair = String::from("BTC/USD");
    o.set_price(pair.clone(), 6_500_000, String::from("P1"), 1_000_000, true)
        .unwrap();
    assert_eq!(o.get_price(&pair), Some(6_500_000));
    assert_eq!(o.get_timestamp(&pair), Some(1_000_000));
    assert_eq!(o.get_provider(&pair), Some(String::from("P1")));
    assert!(o.is_fresh(&pair, 100, 1_000_050));
    assert!(!o.is_fresh(&pair, 100, 1_000_150));
}

#[test]
fn regressed_clock_reports_fresh() {
    // The chosen policy: the age of a record dated after the current clock
    // reading is clamped to zero, so the record counts as fresh rather than
    // spuriously stale through unsigned wraparound.
    let mut o = PriceOracle::new();
    let pair = String::from("BTC/USD");
    o.set_price(pair.clone(), 1, String::from("P1"), 1_000_000, true)
        .unwrap();
    assert!(o.is_fresh(&pair, 100, 999_000));
    assert!(o.is_fresh(&pair, 0, 999_000));
}

#[test]
fn fresh_at_exact_values() {
    assert!(fresh_at(1_000_000, 1_000_050, 100));
    assert!(fresh_at(1_000_000, 1_000_100, 100));
    assert!(!fresh_at(1_000_000, 1_000_101, 100));
    assert!(fresh_at(1_000_000, 999_000, 0));
    assert!(fresh_at(0, u64::MAX, u64::MAX));
    assert!(!fresh_at(0, u64::MAX, u64::MAX - 1));
}
