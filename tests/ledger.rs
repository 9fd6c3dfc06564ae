use algotrader::ccy::{Ccy, NUM_CCY};
use algotrader::ledger::{replay_book, replay_wallet, LedgerError, Lot, Side, Trade};
use algotrader::pair::TradingPair;
use algotrader::portfolio::Portfolio;
use algotrader::snapshot::trade_from_fill;

const UNIT: i128 = 1_000_000_000_000_000_000;
const BTC_EUR: TradingPair = TradingPair { base: Ccy::BTC, quote: Ccy::EUR };

fn trade(side: Side, price: i128, base: i128, time_ms: i64) -> Trade {
    Trade { pair: BTC_EUR, side, price: price * UNIT, base_amount: base * UNIT, quote_amount: price * base * UNIT, time_ms }
}

fn initial(eur: i128) -> Vec<i128> {
    let mut v = vec![0i128; NUM_CCY];
    v[Ccy::EUR.index()] = eur * UNIT;
    v
}

#[test]
fn book_is_cheapest_first() {
    let trades = vec![
        trade(Side::Buy, 12, 1, 1),
        trade(Side::Buy, 10, 2, 2),
        trade(Side::Buy, 15, 3, 3),
        trade(Side::Buy, 10, 4, 4),
    ];
    let b = replay_book(&trades, BTC_EUR).unwrap();
    let prices: Vec<i128> = b.iter().map(|l| l.price / UNIT).collect();
    assert_eq!(prices, vec![10, 10, 12, 15]);
    assert_eq!(b[0].time_ms, 2);
    assert_eq!(b[1].time_ms, 4);
}

#[test]
fn sells_consume_cheapest_lots() {
    let trades = vec![
        trade(Side::Buy, 12, 1, 1),
        trade(Side::Buy, 10, 2, 2),
        trade(Side::Buy, 15, 3, 3),
        trade(Side::Sell, 13, 2, 4),
    ];
    let b = replay_book(&trades, BTC_EUR).unwrap();
    assert_eq!(b, vec![Lot { price: 12 * UNIT, amount: UNIT, time_ms: 1 }, Lot { price: 15 * UNIT, amount: 3 * UNIT, time_ms: 3 }]);
    let mut partial = trades.clone();
    partial.push(Trade { base_amount: UNIT / 2, ..trade(Side::Sell, 13, 1, 6) });
    let b = replay_book(&partial, BTC_EUR).unwrap();
    assert_eq!(b[0], Lot { price: 12 * UNIT, amount: UNIT / 2, time_ms: 1 });
    assert_eq!(b.len(), 2);
}

#[test]
fn overdrafted_sell_is_reported() {
    let trades = vec![trade(Side::Buy, 10, 1, 1), trade(Side::Sell, 11, 2, 2)];
    assert_eq!(replay_book(&trades, BTC_EUR), Err(LedgerError::OverdraftedSell));
    let other = TradingPair { base: Ccy::ETH, quote: Ccy::EUR };
    assert_eq!(replay_book(&trades, other), Ok(vec![]));
}

#[test]
fn wallet_follows_trades() {
    let trades = vec![trade(Side::Buy, 10, 2, 1), trade(Side::Sell, 12, 1, 2)];
    let w = replay_wallet(&initial(100), &trades).unwrap();
    assert_eq!(w[Ccy::EUR.index()], (100 - 20 + 12) * UNIT);
    assert_eq!(w[Ccy::BTC.index()], UNIT);
    assert_eq!(w[Ccy::ETH.index()], 0);
}

#[test]
fn wallet_overflow_is_reported() {
    let mut init = vec![0i128; NUM_CCY];
    init[Ccy::EUR.index()] = i128::MAX - UNIT;
    let trades = vec![trade(Side::Sell, 2, 1, 1)];
    assert_eq!(replay_wallet(&init, &trades), Err(LedgerError::BalanceOverflow));
    let mut p = Portfolio::new(init);
    assert_eq!(p.record(trade(Side::Sell, 2, 1, 1)), Err(LedgerError::BalanceOverflow));
    assert!(p.trades().is_empty());
}

#[test]
fn incremental_balances_match_full_replay() {
    let trades = vec![
        trade(Side::Buy, 10, 2, 1),
        trade(Side::Buy, 9, 1, 2),
        trade(Side::Sell, 12, 2, 3),
        trade(Side::Buy, 11, 1, 4),
    ];
    let mut p = Portfolio::new(initial(100));
    for t in trades.iter() {
        p.record(*t).unwrap();
    }
    let first = replay_wallet(&initial(100), p.trades()).unwrap();
    let second = replay_wallet(&initial(100), p.trades()).unwrap();
    assert_eq!(first, second);
    assert_eq!(p.balances(), first);
    assert_eq!(replay_book(p.trades(), BTC_EUR), p.book_for(BTC_EUR));
    assert_eq!(p.book_for(BTC_EUR), p.book_for(BTC_EUR));
    assert_eq!(p.last_buy_time(BTC_EUR), Some(4));
    assert_eq!(p.last_buy_time(TradingPair { base: Ccy::ETH, quote: Ccy::EUR }), None);
}

#[test]
fn unmatched_buys_within_base_balance() {
    let trades = vec![
        trade(Side::Buy, 10, 2, 1),
        trade(Side::Buy, 9, 1, 2),
        trade(Side::Sell, 12, 2, 3),
        trade(Side::Buy, 11, 3, 4),
    ];
    let mut p = Portfolio::new(initial(1000));
    for t in trades.iter() {
        p.record(*t).unwrap();
        let total: i128 = p.book_for(BTC_EUR).unwrap().iter().map(|l| l.amount).sum();
        assert!(total <= p.balance(Ccy::BTC));
        assert_eq!(total, p.balance(Ccy::BTC));
    }
}

#[test]
fn fills_read_into_trades() {
    let t = trade_from_fill(
        BTC_EUR,
        Side::Buy,
        &"0.974".to_string(),
        &"51.334702258726899383".to_string(),
        &"50".to_string(),
        &"2021-05-01T12:00:00.250Z".to_string(),
    )
    .unwrap();
    assert_eq!(
        t,
        Trade {
            pair: BTC_EUR,
            side: Side::Buy,
            price: 974 * UNIT / 1000,
            base_amount: 51_334_702_258_726_899_383,
            quote_amount: 50 * UNIT,
            time_ms: 1_619_870_400_250,
        }
    );
    let s = "1".to_string();
    let time = "2021-05-01T12:00:00Z".to_string();
    assert_eq!(trade_from_fill(BTC_EUR, Side::Sell, &"0".to_string(), &s, &s, &time), None);
    assert_eq!(trade_from_fill(BTC_EUR, Side::Sell, &s, &"-1".to_string(), &s, &time), None);
    assert_eq!(trade_from_fill(BTC_EUR, Side::Sell, &s, &s, &"x".to_string(), &time), None);
    assert_eq!(trade_from_fill(BTC_EUR, Side::Sell, &s, &s, &s, &"noon".to_string()), None);
    assert!(trade_from_fill(BTC_EUR, Side::Sell, &s, &s, &s, &time).is_some());
}

#[test]
fn ledger_takes_large_amounts() {
    let mut p = Portfolio::new(initial(0));
    let big = Trade { pair: BTC_EUR, side: Side::Buy, price: 1, base_amount: 1_000_000_000_000 * UNIT, quote_amount: UNIT, time_ms: 0 };
    p.record(big).unwrap();
    assert_eq!(p.balance(Ccy::BTC), 1_000_000_000_000 * UNIT);
    assert_eq!(p.book_for(BTC_EUR).unwrap()[0].amount, 1_000_000_000_000 * UNIT);
}
