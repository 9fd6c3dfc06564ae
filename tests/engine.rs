use algotrader::ccy::{Ccy, NUM_CCY};
use algotrader::engine::{
    mid_range, virtual_book, MarketData, decide_all, decide_buy, decide_pair, decide_sells, BuyIntent, Config, EngineError, Ratio, SellIntent,
};
use algotrader::ledger::{LedgerError, Lot, Side, Trade};
use algotrader::market::MarketState;
use algotrader::pair::TradingPair;
use algotrader::portfolio::Portfolio;
use algotrader::snapshot::{MarketSnapshot, MarketTicker};

const UNIT: i128 = 1_000_000_000_000_000_000;
const DOGE_EUR: TradingPair = TradingPair { base: Ccy::DOGE, quote: Ccy::EUR };

fn config() -> Config {
    Config {
        trade_size: 50 * UNIT,
        buy_ratio: Ratio { num: 975, den: 1000 },
        sell_ratio: Ratio { num: 105, den: 100 },
        cooldown_ms: 3_600_000,
    }
}

fn snapshot(pair: TradingPair, sequence: u128, frozen: bool, bid: &str, ask: &str) -> MarketSnapshot {
    MarketSnapshot::from_raw(&MarketTicker {
        instrument_code: pair.render(),
        sequence,
        time: "2021-05-01T12:00:00Z".to_string(),
        is_frozen: if frozen { 1 } else { 0 },
        quote_volume: "0".to_string(),
        base_volume: "0".to_string(),
        last_price: ask.to_string(),
        best_bid: bid.to_string(),
        best_ask: ask.to_string(),
        high: ask.to_string(),
        low: bid.to_string(),
    })
    .unwrap()
}

fn initial_eur(eur: i128) -> Vec<i128> {
    let mut v = vec![0i128; NUM_CCY];
    v[Ccy::EUR.index()] = eur;
    v
}

#[test]
fn no_buy_without_funds() {
    let s = snapshot(DOGE_EUR, 1, false, "0.01", "0.01");
    assert_eq!(decide_buy(&config(), &s, UNIT, 40 * UNIT, None, 0), None);
    assert_eq!(decide_buy(&config(), &s, UNIT, 50 * UNIT - 1, None, 0), None);
    assert!(decide_buy(&config(), &s, UNIT, 50 * UNIT, None, 0).is_some());
}

#[test]
fn buy_threshold_and_cooldown() {
    let cfg = config();
    let at = snapshot(DOGE_EUR, 1, false, "0.97", "0.975");
    let above = snapshot(DOGE_EUR, 1, false, "0.97", "0.976");
    assert!(decide_buy(&cfg, &at, UNIT, 100 * UNIT, None, 0).is_some());
    assert_eq!(decide_buy(&cfg, &above, UNIT, 100 * UNIT, None, 0), None);
    let now: i64 = 10_000_000;
    assert_eq!(decide_buy(&cfg, &at, UNIT, 100 * UNIT, Some(now - 1_800_000), now), None);
    assert_eq!(decide_buy(&cfg, &at, UNIT, 100 * UNIT, Some(now - 3_600_000), now), None);
    assert!(decide_buy(&cfg, &at, UNIT, 100 * UNIT, Some(now - 3_600_001), now).is_some());
    let frozen = snapshot(DOGE_EUR, 1, true, "100", "0.5");
    assert_eq!(decide_buy(&cfg, &frozen, UNIT, 100 * UNIT, None, 0), None);
}

#[test]
fn sells_cheapest_first_and_stop() {
    let cfg = config();
    let book = vec![
        Lot { price: 10 * UNIT, amount: 3 * UNIT, time_ms: 1 },
        Lot { price: 12 * UNIT, amount: 2 * UNIT, time_ms: 2 },
        Lot { price: 15 * UNIT, amount: UNIT, time_ms: 3 },
    ];
    let s = snapshot(DOGE_EUR, 1, false, "13", "13.1");
    let sells = decide_sells(&cfg, &s, &book);
    assert_eq!(
        sells,
        vec![
            SellIntent { pair: DOGE_EUR, base_amount: 3 * UNIT, price: 13 * UNIT, lot_price: 10 * UNIT },
            SellIntent { pair: DOGE_EUR, base_amount: 2 * UNIT, price: 13 * UNIT, lot_price: 12 * UNIT },
        ]
    );
    let frozen = snapshot(DOGE_EUR, 1, true, "100", "100");
    assert!(decide_sells(&cfg, &frozen, &book).is_empty());
    let low = snapshot(DOGE_EUR, 1, false, "10.49", "10.5");
    assert!(decide_sells(&cfg, &low, &book).is_empty());
    let exact = snapshot(DOGE_EUR, 1, false, "10.5", "10.6");
    assert_eq!(decide_sells(&cfg, &exact, &book).len(), 1);
}

#[test]
fn missing_snapshot_and_overdraft() {
    let cfg = config();
    let market = MarketState::new();
    let p = Portfolio::new(initial_eur(100 * UNIT));
    assert_eq!(decide_pair(&cfg, &market, &p, DOGE_EUR, UNIT, 0).err(), Some(EngineError::InsufficientData));
    let mut market = MarketState::new();
    assert!(market.offer(snapshot(DOGE_EUR, 1, false, "1", "1")));
    let mut p = Portfolio::new(initial_eur(100 * UNIT));
    p.record(Trade { pair: DOGE_EUR, side: Side::Sell, price: UNIT, base_amount: UNIT, quote_amount: UNIT, time_ms: 0 }).unwrap();
    assert_eq!(decide_pair(&cfg, &market, &p, DOGE_EUR, UNIT, 0).err(), Some(EngineError::OverdraftedSell));
    let btc = TradingPair { base: Ccy::BTC, quote: Ccy::EUR };
    assert!(market.offer(snapshot(btc, 1, false, "1", "0.9")));
    let all = decide_all(&cfg, &market, &p, &vec![DOGE_EUR, btc], &vec![UNIT, UNIT], 0);
    assert_eq!(all.len(), 2);
    assert_eq!(all[0].as_ref().err(), Some(&EngineError::OverdraftedSell));
    let d = all[1].as_ref().ok().unwrap();
    assert_eq!(d.buy, Some(BuyIntent { pair: btc, quote_amount: 50 * UNIT, price: 9 * UNIT / 10 }));
}

#[test]
fn buy_dip_then_sell_rise() {
    let cfg = config();
    let mut market = MarketState::new();
    let mut p = Portfolio::new(initial_eur(100 * UNIT));
    let reference = UNIT;
    let t0: i64 = 1_619_870_400_000;
    assert!(market.offer(snapshot(DOGE_EUR, 1, false, "0.97", "0.974")));
    let d = decide_pair(&cfg, &market, &p, DOGE_EUR, reference, t0).ok().unwrap();
    let buy = d.buy.unwrap();
    assert_eq!(buy, BuyIntent { pair: DOGE_EUR, quote_amount: 50 * UNIT, price: 974 * UNIT / 1000 });
    assert!(d.sells.is_empty());
    // the exchange fills 50 EUR at 0.974: 51.334702258726899383 DOGE
    let acquired: i128 = 51_334_702_258_726_899_383;
    p.record(Trade { pair: DOGE_EUR, side: Side::Buy, price: buy.price, base_amount: acquired, quote_amount: 50 * UNIT, time_ms: t0 }).unwrap();
    assert_eq!(p.balance(Ccy::EUR), 50 * UNIT);
    assert_eq!(p.balance(Ccy::DOGE), acquired);
    assert!(market.offer(snapshot(DOGE_EUR, 2, false, "1.03", "1.04")));
    let d = decide_pair(&cfg, &market, &p, DOGE_EUR, reference, t0 + 60_000).ok().unwrap();
    assert_eq!(d.buy, None);
    assert_eq!(
        d.sells,
        vec![SellIntent { pair: DOGE_EUR, base_amount: acquired, price: 103 * UNIT / 100, lot_price: 974 * UNIT / 1000 }]
    );
    // a bid under 1.05 x 0.974 = 1.0227 sells nothing
    assert!(market.offer(snapshot(DOGE_EUR, 3, false, "1.0226", "1.03")));
    let d = decide_pair(&cfg, &market, &p, DOGE_EUR, reference, t0 + 120_000).ok().unwrap();
    assert!(d.sells.is_empty());
}

#[test]
fn market_data_thresholds() {
    let cfg = config();
    let d = MarketData { bid: 1_0227 * UNIT / 10_000, ask: 975 * UNIT / 1000, avg: UNIT };
    assert!(d.should_buy(&cfg));
    assert!(!MarketData { ask: 975 * UNIT / 1000 + 1, ..d }.should_buy(&cfg));
    assert!(d.should_sell(&cfg, 974 * UNIT / 1000));
    assert!(!MarketData { bid: 10_227 * UNIT / 10_000 - 1, ..d }.should_sell(&cfg, 974 * UNIT / 1000));
    assert!(MarketData { bid: 21 * UNIT, ..d }.should_sell(&cfg, 20 * UNIT));
}

#[test]
fn virtual_book_counters() {
    let cfg = config();
    let mut p = Portfolio::new(initial_eur(100 * UNIT));
    let v = virtual_book(&cfg, &p, DOGE_EUR, 0).unwrap();
    assert!(v.can_buy);
    assert_eq!(v.can_sell, 0);
    p.record(Trade { pair: DOGE_EUR, side: Side::Buy, price: UNIT, base_amount: 60 * UNIT, quote_amount: 60 * UNIT, time_ms: 1_000 }).unwrap();
    p.record(Trade { pair: DOGE_EUR, side: Side::Sell, price: 2 * UNIT, base_amount: 10 * UNIT, quote_amount: 20 * UNIT, time_ms: 2_000 }).unwrap();
    let v = virtual_book(&cfg, &p, DOGE_EUR, 2_000).unwrap();
    assert_eq!(v.can_sell, 1);
    assert_eq!(v.lots, vec![Lot { price: UNIT, amount: 50 * UNIT, time_ms: 1_000 }]);
    assert!(!v.can_buy);
    let later = virtual_book(&cfg, &p, DOGE_EUR, 1_000 + 3_600_001).unwrap();
    assert!(later.can_buy);
    p.record(Trade { pair: DOGE_EUR, side: Side::Buy, price: UNIT, base_amount: 20 * UNIT, quote_amount: 20 * UNIT, time_ms: 3_000 }).unwrap();
    let poor = virtual_book(&cfg, &p, DOGE_EUR, 10_000_000).unwrap();
    assert_eq!(p.balance(Ccy::EUR), 40 * UNIT);
    assert!(!poor.can_buy);
    assert_eq!(poor.can_sell, 2);
    p.record(Trade { pair: DOGE_EUR, side: Side::Sell, price: UNIT, base_amount: 71 * UNIT, quote_amount: 71 * UNIT, time_ms: 4_000 }).unwrap();
    assert_eq!(virtual_book(&cfg, &p, DOGE_EUR, 0).err(), Some(LedgerError::OverdraftedSell));
}

#[test]
fn mid_range_reference() {
    let s = snapshot(DOGE_EUR, 1, false, "0.9", "1.3");
    // high is the ask text, low the bid text
    assert_eq!(mid_range(&s), Some(11 * UNIT / 10));
    let s = snapshot(DOGE_EUR, 1, false, "-3", "0");
    assert_eq!(mid_range(&s), Some(-3 * UNIT / 2));
    let mut t = MarketTicker {
        instrument_code: "DOGE_EUR".to_string(),
        sequence: 1,
        time: "2021-05-01T12:00:00Z".to_string(),
        is_frozen: 0,
        quote_volume: "0".to_string(),
        base_volume: "0".to_string(),
        last_price: "1".to_string(),
        best_bid: "1".to_string(),
        best_ask: "1".to_string(),
        high: "100000000000".to_string(),
        low: "1".to_string(),
    };
    assert_eq!(mid_range(&MarketSnapshot::from_raw(&t).unwrap()), None);
    t.high = "3".to_string();
    assert_eq!(mid_range(&MarketSnapshot::from_raw(&t).unwrap()), Some(2 * UNIT));
}

#[test]
fn snapshot_staleness_bound() {
    let s = snapshot(DOGE_EUR, 1, false, "1", "1");
    let t = s.time_ms;
    assert!(!s.is_stale(t + 5_000, 5_000));
    assert!(s.is_stale(t + 5_001, 5_000));
    assert!(!s.is_stale(t - 1, 0));
}
