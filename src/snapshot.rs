use vstd::prelude::*;
use rust_decimal::Decimal;
use crate::decimal::{in_range, units_from_decimal, units_of, Dec, MANTISSA_BOUND, MAX_SCALE};
use crate::ledger::{Side, Trade};
use crate::pair::{is_pair_text, pair_text, TradingPair};

verus! {

/// What `Decimal::from_str_exact` reads from a text: its mantissa and scale.
pub uninterp spec fn exact_decimal_of(s: Seq<char>) -> Option<(int, int)>;

/// What `DateTime::parse_from_rfc3339` reads from a text, as milliseconds
/// since the Unix epoch.
pub uninterp spec fn rfc3339_millis(s: Seq<char>) -> Option<int>;

/// Relies on rust_decimal's `Decimal::from_str_exact` (with `Decimal::mantissa`
/// and `Decimal::scale` to read the result back): the exact value of the text,
/// never rounded; a `Decimal` has a 96-bit mantissa and a scale of at most 28.
#[verifier::external_body]
fn parse_decimal_exact(s: &str) -> (r: Option<(i128, u32)>)
    ensures
        r matches Some(d) ==> exact_decimal_of(s@) == Some((d.0 as int, d.1 as int)),
        r matches Some(d) ==> d.1 <= MAX_SCALE && -MANTISSA_BOUND < d.0 < MANTISSA_BOUND,
        r is None ==> exact_decimal_of(s@) is None,
{
    match Decimal::from_str_exact(s) {
        Ok(d) => Some((d.mantissa(), d.scale())),
        Err(_) => None,
    }
}

/// Relies on chrono's `DateTime::parse_from_rfc3339`, with
/// `DateTime::timestamp_millis` to read the instant as milliseconds.
#[verifier::external_body]
fn parse_time_millis(s: &str) -> (r: Option<i64>)
    ensures
        r matches Some(t) ==> rfc3339_millis(s@) == Some(t as int),
        r is None ==> rfc3339_millis(s@) is None,
{
    match chrono::DateTime::parse_from_rfc3339(s) {
        Ok(d) => Some(d.timestamp_millis()),
        Err(_) => None,
    }
}

/// Units of an exact decimal text, where it has a value the library can hold.
pub open spec fn field_units(s: Seq<char>) -> Option<int> {
    match exact_decimal_of(s) {
        Some(d) => if 0 <= d.1 <= MAX_SCALE {
            units_of(d.0, d.1 as nat)
        } else {
            None
        },
        None => None,
    }
}

/// One ticker record as the exchange sends it, fields still as text.
pub struct MarketTicker {
    pub instrument_code: String,
    pub sequence: u128,
    pub time: String,
    pub is_frozen: u8,
    pub quote_volume: String,
    pub base_volume: String,
    pub last_price: String,
    pub best_bid: String,
    pub best_ask: String,
    pub high: String,
    pub low: String,
}

/// A typed point-in-time observation of one pair. Bid and ask, which the
/// decisions compute with, are in units; the other quantities stay exact
/// decimals as given.
#[derive(Clone, Copy, Debug, PartialEq, Eq, Structural)]
pub struct MarketSnapshot {
    pub pair: TradingPair,
    pub sequence: u128,
    pub time_ms: i64,
    pub frozen: bool,
    pub quote_volume: Dec,
    pub base_volume: Dec,
    pub last_price: Dec,
    pub best_bid: i128,
    pub best_ask: i128,
    pub high: Dec,
    pub low: Dec,
}

#[derive(Clone, Copy, Debug, PartialEq, Eq, Structural)]
pub enum SnapshotError {
    MalformedSnapshot,
}

impl MarketSnapshot {
    pub open spec fn wf(self) -> bool {
        &&& self.pair.wf()
        &&& self.quote_volume.wf()
        &&& self.base_volume.wf()
        &&& self.last_price.wf()
        &&& in_range(self.best_bid as int)
        &&& in_range(self.best_ask as int)
        &&& self.high.wf()
        &&& self.low.wf()
    }
}

/// The record can be read: a valid pair, an RFC 3339 time, a frozen flag of 0
/// or 1, decimal texts, and a bid and ask that units can hold.
pub open spec fn raw_valid(raw: MarketTicker) -> bool {
    &&& is_pair_text(raw.instrument_code@)
    &&& rfc3339_millis(raw.time@) is Some
    &&& raw.is_frozen <= 1
    &&& exact_decimal_of(raw.quote_volume@) is Some
    &&& exact_decimal_of(raw.base_volume@) is Some
    &&& exact_decimal_of(raw.last_price@) is Some
    &&& field_units(raw.best_bid@) is Some
    &&& field_units(raw.best_ask@) is Some
    &&& exact_decimal_of(raw.high@) is Some
    &&& exact_decimal_of(raw.low@) is Some
}

/// The snapshot is what the record says.
pub open spec fn reads_as(raw: MarketTicker, s: MarketSnapshot) -> bool {
    &&& s.pair.wf()
    &&& pair_text(s.pair) == raw.instrument_code@
    &&& s.sequence == raw.sequence
    &&& rfc3339_millis(raw.time@) == Some(s.time_ms as int)
    &&& s.frozen == (raw.is_frozen == 1)
    &&& exact_decimal_of(raw.quote_volume@) == Some((s.quote_volume.mantissa as int, s.quote_volume.scale as int))
    &&& exact_decimal_of(raw.base_volume@) == Some((s.base_volume.mantissa as int, s.base_volume.scale as int))
    &&& exact_decimal_of(raw.last_price@) == Some((s.last_price.mantissa as int, s.last_price.scale as int))
    &&& field_units(raw.best_bid@) == Some(s.best_bid as int)
    &&& field_units(raw.best_ask@) == Some(s.best_ask as int)
    &&& exact_decimal_of(raw.high@) == Some((s.high.mantissa as int, s.high.scale as int))
    &&& exact_decimal_of(raw.low@) == Some((s.low.mantissa as int, s.low.scale as int))
}

/// Reads one exact decimal field.
fn exact_field(s: &String) -> (r: Option<Dec>)
    ensures
        r matches Some(d) ==> exact_decimal_of(s@) == Some((d.mantissa as int, d.scale as int)) && d.wf(),
        r is None ==> exact_decimal_of(s@) is None,
{
    match parse_decimal_exact(s.as_str()) {
        Some((m, sc)) => Some(Dec { mantissa: m, scale: sc }),
        None => None,
    }
}

/// Reads one decimal field in units.
fn decimal_field(s: &String) -> (r: Option<i128>)
    ensures
        r matches Some(u) ==> field_units(s@) == Some(u as int) && in_range(u as int),
        r is None ==> field_units(s@) is None,
{
    match parse_decimal_exact(s.as_str()) {
        Some((m, sc)) => units_from_decimal(m, sc),
        None => None,
    }
}

impl MarketSnapshot {
    /// The snapshot is older than `max_age_ms` at `now_ms`.
    pub fn is_stale(&self, now_ms: i64, max_age_ms: i64) -> (r: bool)
        ensures
            r == (now_ms - self.time_ms > max_age_ms),
    {
        (now_ms as i128) - (self.time_ms as i128) > max_age_ms as i128
    }

    /// Reads a ticker record, keeping every decimal exact.
    pub fn from_raw(raw: &MarketTicker) -> (r: Result<MarketSnapshot, SnapshotError>)
        ensures
            r is Ok <==> raw_valid(*raw),
            r matches Ok(s) ==> reads_as(*raw, s) && s.wf(),
    {
        let pair = match TradingPair::parse(raw.instrument_code.as_str()) {
            Ok(p) => p,
            Err(_) => return Err(SnapshotError::MalformedSnapshot),
        };
        let time_ms = match parse_time_millis(raw.time.as_str()) {
            Some(t) => t,
            None => return Err(SnapshotError::MalformedSnapshot),
        };
        if raw.is_frozen > 1 {
            return Err(SnapshotError::MalformedSnapshot);
        }
        let quote_volume = match exact_field(&raw.quote_volume) {
            Some(u) => u,
            None => return Err(SnapshotError::MalformedSnapshot),
        };
        let base_volume = match exact_field(&raw.base_volume) {
            Some(u) => u,
            None => return Err(SnapshotError::MalformedSnapshot),
        };
        let last_price = match exact_field(&raw.last_price) {
            Some(u) => u,
            None => return Err(SnapshotError::MalformedSnapshot),
        };
        let best_bid = match decimal_field(&raw.best_bid) {
            Some(u) => u,
            None => return Err(SnapshotError::MalformedSnapshot),
        };
        let best_ask = match decimal_field(&raw.best_ask) {
            Some(u) => u,
            None => return Err(SnapshotError::MalformedSnapshot),
        };
        let high = match exact_field(&raw.high) {
            Some(u) => u,
            None => return Err(SnapshotError::MalformedSnapshot),
        };
        let low = match exact_field(&raw.low) {
            Some(u) => u,
            None => return Err(SnapshotError::MalformedSnapshot),
        };
        Ok(MarketSnapshot {
            pair,
            sequence: raw.sequence,
            time_ms,
            frozen: raw.is_frozen == 1,
            quote_volume,
            base_volume,
            last_price,
            best_bid,
            best_ask,
            high,
            low,
        })
    }
}

/// Reads a confirmed fill into a ledger trade: price and amounts as decimal
/// texts, the execution time as RFC 3339. None where a field does not read
/// or a quantity is not positive.
pub fn trade_from_fill(
    pair: TradingPair,
    side: Side,
    price: &String,
    base_amount: &String,
    quote_amount: &String,
    time: &String,
) -> (r: Option<Trade>)
    requires
        pair.wf(),
    ensures
        r is Some <==> {
            &&& field_units(price@) matches Some(p) && p > 0
            &&& field_units(base_amount@) matches Some(b) && b > 0
            &&& field_units(quote_amount@) matches Some(q) && q > 0
            &&& rfc3339_millis(time@) is Some
        },
        r matches Some(t) ==> {
            &&& t.wf()
            &&& t.pair == pair
            &&& t.side == side
            &&& field_units(price@) == Some(t.price as int)
            &&& field_units(base_amount@) == Some(t.base_amount as int)
            &&& field_units(quote_amount@) == Some(t.quote_amount as int)
            &&& rfc3339_millis(time@) == Some(t.time_ms as int)
        },
{
    let p = match decimal_field(price) {
        Some(u) => u,
        None => return None,
    };
    let b = match decimal_field(base_amount) {
        Some(u) => u,
        None => return None,
    };
    let q = match decimal_field(quote_amount) {
        Some(u) => u,
        None => return None,
    };
    let t = match parse_time_millis(time.as_str()) {
        Some(t) => t,
        None => return None,
    };
    if p <= 0 || b <= 0 || q <= 0 {
        return None;
    }
    Some(Trade { pair, side, price: p, base_amount: b, quote_amount: q, time_ms: t })
}

} // verus!
