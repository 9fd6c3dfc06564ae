use vstd::prelude::*;
use crate::ccy::ccy_index;
use crate::decimal::{in_range, units_from_decimal, units_of, MAX_UNITS};
use crate::ledger::{all_lots_wf, book_after, last_buy_time, price_sorted, LedgerError, Lot};
use crate::market::MarketState;
use crate::pair::TradingPair;
use crate::portfolio::Portfolio;
use crate::snapshot::MarketSnapshot;

verus! {

/// A threshold factor `num / den`, such as 975 / 1000.
#[derive(Clone, Copy, Debug, PartialEq, Eq, Structural)]
pub struct Ratio {
    pub num: u16,
    pub den: u16,
}

/// The fixed parameters of the decisions.
#[derive(Clone, Copy, Debug, PartialEq, Eq, Structural)]
pub struct Config {
    /// Quote units spent by one buy.
    pub trade_size: i128,
    /// A buy fires when ask <= buy_ratio * reference price.
    pub buy_ratio: Ratio,
    /// A sell fires when bid >= sell_ratio * the buy's price.
    pub sell_ratio: Ratio,
    /// Time that must pass after a buy before the next one of the same pair.
    pub cooldown_ms: i64,
}

impl Config {
    pub open spec fn wf(self) -> bool {
        &&& 0 < self.trade_size <= MAX_UNITS
        &&& self.buy_ratio.den > 0
        &&& self.sell_ratio.den > 0
        &&& self.cooldown_ms >= 0
    }
}

/// An order to spend `quote_amount` of the quote currency at `price`.
#[derive(Clone, Copy, Debug, PartialEq, Eq, Structural)]
pub struct BuyIntent {
    pub pair: TradingPair,
    pub quote_amount: i128,
    pub price: i128,
}

/// An order to sell `base_amount` at `price`, closing a buy made at `lot_price`.
#[derive(Clone, Copy, Debug, PartialEq, Eq, Structural)]
pub struct SellIntent {
    pub pair: TradingPair,
    pub base_amount: i128,
    pub price: i128,
    pub lot_price: i128,
}

/// The derived state of one pair: its unmatched buys, cheapest first, whether
/// a buy is allowed now (cooldown over and funds for one trade), and how many
/// unmatched buys there are to sell.
pub struct VirtualBook {
    pub lots: Vec<Lot>,
    pub can_buy: bool,
    pub can_sell: usize,
}

/// Everything decided for one pair in one tick.
pub struct Decision {
    pub buy: Option<BuyIntent>,
    pub sells: Vec<SellIntent>,
}

#[derive(Clone, Copy, Debug, PartialEq, Eq, Structural)]
pub enum EngineError {
    /// No snapshot of the pair has been seen yet.
    InsufficientData,
    /// The pair's ledger overdrafts its unmatched buys.
    OverdraftedSell,
}

/// More than the cooldown has passed since the last buy, or there was none.
pub open spec fn cooldown_elapsed(cfg: Config, last_buy: Option<int>, now: int) -> bool {
    match last_buy {
        None => true,
        Some(t) => now - t > cfg.cooldown_ms,
    }
}

/// The ask has dropped to the buy threshold of the reference price.
pub open spec fn buy_signal(cfg: Config, ask: int, reference: int) -> bool {
    ask * cfg.buy_ratio.den <= cfg.buy_ratio.num * reference
}

/// A buy is emitted: trading is open, the cooldown is over, the quote balance
/// covers one trade and the ask is low enough.
pub open spec fn buy_fires(
    cfg: Config,
    snap: MarketSnapshot,
    reference: int,
    quote_balance: int,
    last_buy: Option<int>,
    now: int,
) -> bool {
    &&& !snap.frozen
    &&& cooldown_elapsed(cfg, last_buy, now)
    &&& quote_balance >= cfg.trade_size
    &&& buy_signal(cfg, snap.best_ask as int, reference)
}

/// The bid clears the sell threshold of a buy made at `price`.
pub open spec fn sell_clears(cfg: Config, bid: int, price: int) -> bool {
    bid * cfg.sell_ratio.den >= cfg.sell_ratio.num * price
}

/// The sell emitted for a lot.
pub open spec fn sell_for(snap: MarketSnapshot, lot: Lot) -> SellIntent {
    SellIntent { pair: snap.pair, base_amount: lot.amount, price: snap.best_bid, lot_price: lot.price }
}

/// The sells for a book: one per lot from the front, cheapest first, for as
/// long as the bid clears the lot's threshold; none while trading is frozen.
pub open spec fn sells_match(cfg: Config, snap: MarketSnapshot, book: Seq<Lot>, r: Seq<SellIntent>) -> bool {
    if snap.frozen {
        r.len() == 0
    } else {
        &&& r.len() <= book.len()
        &&& forall|i: int| 0 <= i < r.len() ==> sell_clears(cfg, snap.best_bid as int, book[i].price as int)
            && #[trigger] r[i] == sell_for(snap, book[i])
        &&& r.len() < book.len() ==> !sell_clears(cfg, snap.best_bid as int, book[r.len() as int].price as int)
    }
}

/// The prices that one decision reads: best bid, best ask and the trailing
/// reference price, in units.
#[derive(Clone, Copy, Debug, PartialEq, Eq, Structural)]
pub struct MarketData {
    pub bid: i128,
    pub ask: i128,
    pub avg: i128,
}

impl MarketData {
    pub open spec fn wf(self) -> bool {
        &&& in_range(self.bid as int)
        &&& in_range(self.ask as int)
        &&& in_range(self.avg as int)
    }

    /// The ask has dropped to the buy threshold of the reference price.
    pub fn should_buy(&self, cfg: &Config) -> (r: bool)
        requires
            self.wf(),
        ensures
            r == buy_signal(*cfg, self.ask as int, self.avg as int),
    {
        proof {
            assert(-MAX_UNITS * 65535 <= self.ask * cfg.buy_ratio.den <= MAX_UNITS * 65535) by (nonlinear_arith)
                requires
                    -MAX_UNITS <= self.ask <= MAX_UNITS,
                    0 <= cfg.buy_ratio.den <= 65535,
            ;
            assert(-MAX_UNITS * 65535 <= cfg.buy_ratio.num * self.avg <= MAX_UNITS * 65535) by (nonlinear_arith)
                requires
                    -MAX_UNITS <= self.avg <= MAX_UNITS,
                    0 <= cfg.buy_ratio.num <= 65535,
            ;
        }
        self.ask * (cfg.buy_ratio.den as i128) <= (cfg.buy_ratio.num as i128) * self.avg
    }

    /// The bid clears the sell threshold of a buy made at `buy_price`.
    pub fn should_sell(&self, cfg: &Config, buy_price: i128) -> (r: bool)
        requires
            self.wf(),
            buy_price >= 0,
        ensures
            r == sell_clears(*cfg, self.bid as int, buy_price as int),
    {
        proof {
            assert(-MAX_UNITS * 65535 <= self.bid * cfg.sell_ratio.den <= MAX_UNITS * 65535) by (nonlinear_arith)
                requires
                    -MAX_UNITS <= self.bid <= MAX_UNITS,
                    0 <= cfg.sell_ratio.den <= 65535,
            ;
            assert(cfg.sell_ratio.num * buy_price >= 0) by (nonlinear_arith)
                requires
                    buy_price >= 0,
                    cfg.sell_ratio.num >= 0,
            ;
        }
        let lhs = self.bid * (cfg.sell_ratio.den as i128);
        match (cfg.sell_ratio.num as i128).checked_mul(buy_price) {
            Some(rhs) => lhs >= rhs,
            // the threshold lies above every bid the library can hold
            None => false,
        }
    }
}

/// The virtual book of `pair` at `now_ms`, replayed from the ledger.
pub fn virtual_book(cfg: &Config, portfolio: &Portfolio, pair: TradingPair, now_ms: i64) -> (r: Result<
    VirtualBook,
    LedgerError,
>)
    requires
        cfg.wf(),
        portfolio.wf(),
    ensures
        r is Err <==> book_after(portfolio.trades_view(), pair) is None,
        r matches Err(e) ==> e == LedgerError::OverdraftedSell,
        r matches Ok(v) ==> {
            &&& book_after(portfolio.trades_view(), pair) == Some(v.lots@)
            &&& v.can_sell == v.lots@.len()
            &&& v.can_buy == (cooldown_elapsed(*cfg, last_buy_time(portfolio.trades_view(), pair), now_ms as int)
                && portfolio.wallet()[ccy_index(pair.quote) as int] >= cfg.trade_size)
        },
{
    let lots = portfolio.book_for(pair)?;
    let last_buy = portfolio.last_buy_time(pair);
    let cooled = match last_buy {
        None => true,
        Some(t) => (now_ms as i128) - (t as i128) > cfg.cooldown_ms as i128,
    };
    let can_buy = cooled && portfolio.balance(pair.quote) >= cfg.trade_size;
    let can_sell = lots.len();
    Ok(VirtualBook { lots, can_buy, can_sell })
}

/// Midpoint of the snapshot's 24h high and low in units, a trailing
/// reference price; none where either is not a whole number of units in range.
pub fn mid_range(snap: &MarketSnapshot) -> (r: Option<i128>)
    requires
        snap.wf(),
    ensures
        r is Some <==> units_of(snap.high.mantissa as int, snap.high.scale as nat) is Some
            && units_of(snap.low.mantissa as int, snap.low.scale as nat) is Some,
        r matches Some(m) ==> {
            let sum = units_of(snap.high.mantissa as int, snap.high.scale as nat)->0 + units_of(
                snap.low.mantissa as int,
                snap.low.scale as nat,
            )->0;
            &&& m as int == if sum >= 0 {
                sum / 2
            } else {
                -((-sum) / 2)
            }
            &&& in_range(m as int)
        },
{
    let high = match units_from_decimal(snap.high.mantissa, snap.high.scale) {
        Some(u) => u,
        None => return None,
    };
    let low = match units_from_decimal(snap.low.mantissa, snap.low.scale) {
        Some(u) => u,
        None => return None,
    };
    let sum = high + low;
    if sum >= 0 {
        Some(sum / 2)
    } else {
        Some(-((-sum) / 2))
    }
}

/// Decides whether to buy `snap.pair` now.
pub fn decide_buy(
    cfg: &Config,
    snap: &MarketSnapshot,
    reference: i128,
    quote_balance: i128,
    last_buy: Option<i64>,
    now_ms: i64,
) -> (r: Option<BuyIntent>)
    requires
        cfg.wf(),
        snap.wf(),
        in_range(reference as int),
    ensures
        r is Some <==> buy_fires(
            *cfg,
            *snap,
            reference as int,
            quote_balance as int,
            match last_buy {
                Some(t) => Some(t as int),
                None => None,
            },
            now_ms as int,
        ),
        r matches Some(i) ==> i == (BuyIntent {
            pair: snap.pair,
            quote_amount: cfg.trade_size,
            price: snap.best_ask,
        }),
{
    if snap.frozen {
        return None;
    }
    let cooled = match last_buy {
        None => true,
        Some(t) => (now_ms as i128) - (t as i128) > cfg.cooldown_ms as i128,
    };
    if !cooled || quote_balance < cfg.trade_size {
        return None;
    }
    let data = MarketData { bid: snap.best_bid, ask: snap.best_ask, avg: reference };
    if data.should_buy(cfg) {
        Some(BuyIntent { pair: snap.pair, quote_amount: cfg.trade_size, price: snap.best_ask })
    } else {
        None
    }
}

/// Decides the sells for a book of unmatched buys, cheapest first, stopping
/// at the first buy that the bid does not clear.
pub fn decide_sells(cfg: &Config, snap: &MarketSnapshot, book: &Vec<Lot>) -> (r: Vec<SellIntent>)
    requires
        cfg.wf(),
        snap.wf(),
        all_lots_wf(book@),
    ensures
        sells_match(*cfg, *snap, book@, r@),
        !snap.frozen && price_sorted(book@) ==> forall|j: int|
            r@.len() <= j < book@.len() ==> !sell_clears(*cfg, snap.best_bid as int, #[trigger] book@[j].price as int),
{
    let mut r: Vec<SellIntent> = Vec::new();
    if snap.frozen {
        return r;
    }
    let data = MarketData { bid: snap.best_bid, ask: snap.best_ask, avg: 0 };
    let mut i: usize = 0;
    let mut stop = false;
    while i < book.len() && !stop
        invariant
            data.wf(),
            data.bid == snap.best_bid,
            all_lots_wf(book@),
            snap.wf(),
            !snap.frozen,
            i <= book@.len(),
            stop ==> i < book@.len() && !sell_clears(*cfg, snap.best_bid as int, book@[i as int].price as int),
            r@.len() == i,
            forall|k: int| 0 <= k < i ==> sell_clears(*cfg, snap.best_bid as int, book@[k].price as int)
                && #[trigger] r@[k] == sell_for(*snap, book@[k]),
        decreases book@.len() - i + (if stop { 0int } else { 1int }),
    {
        assert(book@[i as int].wf());
        let lot = book[i];
        if data.should_sell(cfg, lot.price) {
            r.push(SellIntent { pair: snap.pair, base_amount: lot.amount, price: snap.best_bid, lot_price: lot.price });
            i = i + 1;
        } else {
            stop = true;
        }
    }
    proof {
        if price_sorted(book@) && i < book@.len() {
            assert forall|j: int| i <= j < book@.len() implies !sell_clears(*cfg, snap.best_bid as int, #[trigger] book@[j].price as int) by {
                let p0 = book@[i as int].price as int;
                let pj = book@[j].price as int;
                assert(p0 <= pj);
                assert(cfg.sell_ratio.num * p0 <= cfg.sell_ratio.num * pj) by (nonlinear_arith)
                    requires
                        p0 <= pj,
                        cfg.sell_ratio.num >= 0,
                ;
            }
        }
    }
    r
}

/// With less quote currency than one trade, no buy is ever emitted, whatever
/// the prices.
pub proof fn lemma_buy_gated(
    cfg: Config,
    snap: MarketSnapshot,
    reference: int,
    quote_balance: int,
    last_buy: Option<int>,
    now: int,
)
    requires
        quote_balance < cfg.trade_size,
    ensures
        !buy_fires(cfg, snap, reference, quote_balance, last_buy, now),
{
}

/// A frozen instrument gets no buy and no sell.
pub proof fn lemma_frozen_no_intent(
    cfg: Config,
    snap: MarketSnapshot,
    reference: int,
    quote_balance: int,
    last_buy: Option<int>,
    now: int,
    book: Seq<Lot>,
    sells: Seq<SellIntent>,
)
    requires
        snap.frozen,
        sells_match(cfg, snap, book, sells),
    ensures
        !buy_fires(cfg, snap, reference, quote_balance, last_buy, now),
        sells.len() == 0,
{
}

/// What the engine owes for one pair in one tick: `InsufficientData` without a
/// snapshot, `OverdraftedSell` where the pair's book cannot be replayed,
/// otherwise the buy and sell decisions on the latest snapshot.
pub open spec fn decided(
    cfg: Config,
    market: MarketState,
    portfolio: Portfolio,
    pair: TradingPair,
    reference: int,
    now_ms: int,
    r: Result<Decision, EngineError>,
) -> bool {
    &&& (r matches Err(e) ==> (e == EngineError::InsufficientData <==> !market@.contains_key(pair)))
    &&& (r matches Err(e) ==> (e == EngineError::OverdraftedSell <==> market@.contains_key(pair)
        && book_after(portfolio.trades_view(), pair) is None))
    &&& (r is Ok <==> market@.contains_key(pair) && book_after(portfolio.trades_view(), pair) is Some)
    &&& (r matches Ok(d) ==> {
        let snap = market@[pair];
        &&& (d.buy is Some <==> buy_fires(
            cfg,
            snap,
            reference,
            portfolio.wallet()[ccy_index(pair.quote) as int],
            last_buy_time(portfolio.trades_view(), pair),
            now_ms,
        ))
        &&& (d.buy matches Some(i) ==> i == (BuyIntent {
            pair,
            quote_amount: cfg.trade_size,
            price: snap.best_ask,
        }))
        &&& sells_match(cfg, snap, book_after(portfolio.trades_view(), pair)->0, d.sells@)
    })
}

/// Decides one tick for `pair` from its latest snapshot, its balances and its
/// book of unmatched buys.
pub fn decide_pair(
    cfg: &Config,
    market: &MarketState,
    portfolio: &Portfolio,
    pair: TradingPair,
    reference: i128,
    now_ms: i64,
) -> (r: Result<Decision, EngineError>)
    requires
        cfg.wf(),
        market.wf(),
        portfolio.wf(),
        in_range(reference as int),
    ensures
        decided(*cfg, *market, *portfolio, pair, reference as int, now_ms as int, r),
{
    let snap = match market.latest(pair) {
        Some(s) => s,
        None => return Err(EngineError::InsufficientData),
    };
    let book = match portfolio.book_for(pair) {
        Ok(b) => b,
        Err(_) => return Err(EngineError::OverdraftedSell),
    };
    let last_buy = portfolio.last_buy_time(pair);
    assert(match last_buy {
        Some(t) => Some(t as int),
        None => None,
    } == last_buy_time(portfolio.trades_view(), pair));
    let quote_balance = portfolio.balance(pair.quote);
    let buy = decide_buy(cfg, &snap, reference, quote_balance, last_buy, now_ms);
    let sells = decide_sells(cfg, &snap, &book);
    Ok(Decision { buy, sells })
}

/// Decides one tick for every configured pair; a failure on one pair leaves
/// the others decided. `references[i]` is the reference price of `pairs[i]`.
pub fn decide_all(
    cfg: &Config,
    market: &MarketState,
    portfolio: &Portfolio,
    pairs: &Vec<TradingPair>,
    references: &Vec<i128>,
    now_ms: i64,
) -> (r: Vec<Result<Decision, EngineError>>)
    requires
        cfg.wf(),
        market.wf(),
        portfolio.wf(),
        pairs@.len() == references@.len(),
        forall|i: int| 0 <= i < references@.len() ==> in_range(#[trigger] references@[i] as int),
    ensures
        r@.len() == pairs@.len(),
        forall|i: int|
            0 <= i < pairs@.len() ==> decided(
                *cfg,
                *market,
                *portfolio,
                pairs@[i],
                references@[i] as int,
                now_ms as int,
                #[trigger] r@[i],
            ),
{
    let mut r: Vec<Result<Decision, EngineError>> = Vec::new();
    let mut i: usize = 0;
    while i < pairs.len()
        invariant
            cfg.wf(),
            market.wf(),
            portfolio.wf(),
            pairs@.len() == references@.len(),
            forall|k: int| 0 <= k < references@.len() ==> in_range(#[trigger] references@[k] as int),
            i <= pairs@.len(),
            r@.len() == i,
            forall|k: int|
                0 <= k < i ==> decided(
                    *cfg,
                    *market,
                    *portfolio,
                    pairs@[k],
                    references@[k] as int,
                    now_ms as int,
                    #[trigger] r@[k],
                ),
        decreases pairs@.len() - i,
    {
        let d = decide_pair(cfg, market, portfolio, pairs[i], references[i], now_ms);
        r.push(d);
        i = i + 1;
    }
    r
}

} // verus!
