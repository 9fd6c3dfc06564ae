use algotrader::ccy::Ccy;
use algotrader::decimal::{units_from_decimal, Dec};
use algotrader::market::MarketState;
use algotrader::pair::TradingPair;
use algotrader::snapshot::{MarketSnapshot, MarketTicker, SnapshotError};

const UNIT: i128 = 1_000_000_000_000_000_000;

fn ticker(code: &str, sequence: u128, frozen: u8, ask: &str) -> MarketTicker {
    MarketTicker {
        instrument_code: code.to_string(),
        sequence,
        time: "2021-05-01T12:00:00Z".to_string(),
        is_frozen: frozen,
        quote_volume: "123456.78".to_string(),
        base_volume: "1000".to_string(),
        last_price: "1.0".to_string(),
        best_bid: "0.97".to_string(),
        best_ask: ask.to_string(),
        high: "1.2".to_string(),
        low: "-0.5".to_string(),
    }
}

#[test]
fn ticker_reads_exactly() {
    let s = MarketSnapshot::from_raw(&ticker("DOGE_EUR", 7, 0, "0.974")).unwrap();
    assert_eq!(s.pair, TradingPair { base: Ccy::DOGE, quote: Ccy::EUR });
    assert_eq!(s.sequence, 7);
    assert_eq!(s.time_ms, 1_619_870_400_000);
    assert!(!s.frozen);
    assert_eq!(s.best_ask, 974 * UNIT / 1000);
    assert_eq!(s.best_bid, 97 * UNIT / 100);
    assert_eq!(s.quote_volume, Dec { mantissa: 12_345_678, scale: 2 });
    assert_eq!(s.base_volume, Dec { mantissa: 1000, scale: 0 });
    assert_eq!(s.last_price, Dec { mantissa: 10, scale: 1 });
    assert_eq!(s.high, Dec { mantissa: 12, scale: 1 });
    assert_eq!(s.low, Dec { mantissa: -5, scale: 1 });
    let f = MarketSnapshot::from_raw(&ticker("DOGE_EUR", 7, 1, "0.974")).unwrap();
    assert!(f.frozen);
}

#[test]
fn malformed_tickers_are_rejected() {
    let bad = [
        ticker("DOGE_EUR", 1, 2, "1"),
        ticker("DOGE-EUR", 1, 0, "1"),
        ticker("DOGE_EUR", 1, 0, "abc"),
        ticker("DOGE_EUR", 1, 0, "0.0000000000000000001"),
        ticker("DOGE_EUR", 1, 0, "100000000000"),
    ];
    for t in bad.iter() {
        assert_eq!(MarketSnapshot::from_raw(t), Err(SnapshotError::MalformedSnapshot));
    }
    let mut t = ticker("DOGE_EUR", 1, 0, "1");
    t.time = "yesterday".to_string();
    assert_eq!(MarketSnapshot::from_raw(&t), Err(SnapshotError::MalformedSnapshot));
}

#[test]
fn large_or_fine_volumes_stay_exact() {
    let mut t = ticker("BTC_EUR", 1, 0, "1");
    t.quote_volume = "987654321098765.4321".to_string();
    t.base_volume = "0.0000000000000000000000000001".to_string();
    let s = MarketSnapshot::from_raw(&t).unwrap();
    assert_eq!(s.quote_volume, Dec { mantissa: 9_876_543_210_987_654_321, scale: 4 });
    assert_eq!(s.base_volume, Dec { mantissa: 1, scale: 28 });
    t.quote_volume = "1.2.3".to_string();
    assert_eq!(MarketSnapshot::from_raw(&t), Err(SnapshotError::MalformedSnapshot));
}

#[test]
fn decimals_convert_to_units() {
    assert_eq!(units_from_decimal(974, 3), Some(974 * UNIT / 1000));
    assert_eq!(units_from_decimal(-15, 1), Some(-15 * UNIT / 10));
    assert_eq!(units_from_decimal(12_000_000_000_000, 28), Some(1_200));
    assert_eq!(units_from_decimal(12_300_000_000_001, 28), None);
    assert_eq!(units_from_decimal(10_000_000_000, 0), Some(10_000_000_000 * UNIT));
    assert_eq!(units_from_decimal(10_000_000_001, 0), None);
    assert_eq!(units_from_decimal(0, 0), Some(0));
}

#[test]
fn stale_snapshots_are_ignored() {
    let pair = TradingPair { base: Ccy::BTC, quote: Ccy::EUR };
    let mut m = MarketState::new();
    assert_eq!(m.latest(pair), None);
    let s5 = MarketSnapshot::from_raw(&ticker("BTC_EUR", 5, 0, "1")).unwrap();
    let s5b = MarketSnapshot::from_raw(&ticker("BTC_EUR", 5, 0, "2")).unwrap();
    let s4 = MarketSnapshot::from_raw(&ticker("BTC_EUR", 4, 0, "3")).unwrap();
    let s6 = MarketSnapshot::from_raw(&ticker("BTC_EUR", 6, 0, "4")).unwrap();
    let other = MarketSnapshot::from_raw(&ticker("ETH_EUR", 1, 0, "5")).unwrap();
    assert!(m.offer(s5));
    assert!(!m.offer(s5b));
    assert!(!m.offer(s4));
    assert_eq!(m.latest(pair), Some(s5));
    assert!(m.offer(other));
    assert!(m.offer(s6));
    assert_eq!(m.latest(pair), Some(s6));
    assert_eq!(m.latest(other.pair), Some(other));
}
