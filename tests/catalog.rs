use algotrader::ccy::{Ccy, NUM_CCY};
use algotrader::pair::{CatalogError, TradingPair};

const DOGE_EUR: TradingPair = TradingPair { base: Ccy::DOGE, quote: Ccy::EUR };

#[test]
fn bitpanda_trading_pair_serde() {
    assert_eq!(
        r#""DOGE_EUR""#,
        serde_json::to_string(&DOGE_EUR.render()).as_deref().unwrap()
    );
    let text: String = serde_json::from_str(r#""DOGE_EUR""#).unwrap();
    assert_eq!(DOGE_EUR, TradingPair::parse(&text).unwrap());
}

#[test]
fn types_trading_pair_serde() {
    assert_eq!(
        serde_json::to_string(&DOGE_EUR.render()).as_deref().unwrap(),
        r#""DOGE_EUR""#
    );
    let text: String = serde_json::from_str(r#""DOGE_EUR""#).unwrap();
    assert_eq!(TradingPair::parse(&text).unwrap(), DOGE_EUR);
}

#[test]
fn every_pair_text_round_trips() {
    for i in 0..NUM_CCY {
        for j in 0..NUM_CCY {
            if i == j {
                continue;
            }
            let p = TradingPair { base: Ccy::from_index(i), quote: Ccy::from_index(j) };
            let text = p.render();
            assert_eq!(TradingPair::parse(&text), Ok(p));
            assert_eq!(TradingPair::parse(&text).unwrap().render(), text);
        }
    }
}

#[test]
fn render_joins_codes() {
    let p = TradingPair { base: Ccy::MIOTA, quote: Ccy::CHF };
    assert_eq!(p.render(), "MIOTA_CHF");
    assert_eq!(Ccy::USDT.code(), "USDT");
}

#[test]
fn currency_codes_parse() {
    assert_eq!(Ccy::parse("BTC"), Ok(Ccy::BTC));
    assert_eq!(Ccy::parse("XTZ"), Ok(Ccy::XTZ));
    assert_eq!(Ccy::parse("btc"), Err(CatalogError::UnknownCurrency));
    assert_eq!(Ccy::parse("FOO"), Err(CatalogError::UnknownCurrency));
    assert_eq!(Ccy::parse(""), Err(CatalogError::UnknownCurrency));
    assert_eq!(Ccy::parse("BTCé"), Err(CatalogError::UnknownCurrency));
    for i in 0..NUM_CCY {
        let c = Ccy::from_index(i);
        assert_eq!(c.index(), i);
        assert_eq!(Ccy::parse(c.code()), Ok(c));
    }
}

#[test]
fn malformed_pairs_are_rejected() {
    for s in ["DOGE-EUR", "FOO_EUR", "DOGE_FOO", "EUR_EUR", "DOGE_EUR_BTC", "", "_", "DOGE_", "_EUR", "doge_eur", "DOGÉ_EUR"] {
        assert_eq!(TradingPair::parse(s), Err(CatalogError::InvalidPairFormat), "{}", s);
    }
}
