use vstd::prelude::*;
use crate::ccy::{ccy_at, ccy_index, Ccy, NUM_CCY};
use crate::pair::TradingPair;

verus! {

#[derive(Clone, Copy, Debug, PartialEq, Eq, Structural)]
pub enum Side {
    Buy,
    Sell,
}

/// One executed fill; price in quote units per whole base, amounts in units.
#[derive(Clone, Copy, Debug, PartialEq, Eq, Structural)]
pub struct Trade {
    pub pair: TradingPair,
    pub side: Side,
    pub price: i128,
    pub base_amount: i128,
    pub quote_amount: i128,
    pub time_ms: i64,
}

/// An unmatched buy, or what remains of it.
#[derive(Clone, Copy, Debug, PartialEq, Eq, Structural)]
pub struct Lot {
    pub price: i128,
    pub amount: i128,
    pub time_ms: i64,
}

#[derive(Clone, Copy, Debug, PartialEq, Eq, Structural)]
pub enum LedgerError {
    /// A sell took more than the unmatched buys of its pair hold.
    OverdraftedSell,
    /// A balance left the range of `i128`.
    BalanceOverflow,
}

impl Trade {
    pub open spec fn wf(self) -> bool {
        &&& self.pair.wf()
        &&& 0 < self.price
        &&& 0 < self.base_amount
        &&& 0 < self.quote_amount
    }
}

impl Lot {
    pub open spec fn wf(self) -> bool {
        &&& 0 < self.price
        &&& 0 < self.amount
    }
}

pub open spec fn all_trades_wf(trades: Seq<Trade>) -> bool {
    forall|i: int| 0 <= i < trades.len() ==> #[trigger] trades[i].wf()
}

pub open spec fn all_lots_wf(lots: Seq<Lot>) -> bool {
    forall|i: int| 0 <= i < lots.len() ==> #[trigger] lots[i].wf()
}

pub open spec fn ints(s: Seq<i128>) -> Seq<int> {
    s.map_values(|x: i128| x as int)
}

/// Every balance fits in an `i128`.
pub open spec fn fits(w: Seq<int>) -> bool {
    forall|i: int| 0 <= i < w.len() ==> i128::MIN <= #[trigger] w[i] <= i128::MAX
}

/// Balances, indexed by currency, after one trade.
pub open spec fn apply_trade(w: Seq<int>, t: Trade) -> Seq<int> {
    let b = ccy_index(t.pair.base) as int;
    let q = ccy_index(t.pair.quote) as int;
    match t.side {
        Side::Buy => w.update(b, w[b] + t.base_amount).update(q, w[q] - t.quote_amount),
        Side::Sell => w.update(b, w[b] - t.base_amount).update(q, w[q] + t.quote_amount),
    }
}

/// Balances after replaying `trades` over `init`; none once a balance leaves
/// the range of `i128`.
pub open spec fn wallet_after(init: Seq<int>, trades: Seq<Trade>) -> Option<Seq<int>>
    decreases trades.len(),
{
    if trades.len() == 0 {
        Some(init)
    } else {
        match wallet_after(init, trades.drop_last()) {
            None => None,
            Some(w) => {
                let w2 = apply_trade(w, trades.last());
                if fits(w2) {
                    Some(w2)
                } else {
                    None
                }
            },
        }
    }
}

/// Where a lot of the given price goes in a price-ascending book: after every
/// lot of lower or equal price.
pub open spec fn insert_pos(s: Seq<Lot>, price: int) -> nat
    decreases s.len(),
{
    if s.len() == 0 {
        0
    } else if s[0].price > price {
        0
    } else {
        1 + insert_pos(s.drop_first(), price)
    }
}

pub open spec fn insert_lot(s: Seq<Lot>, lot: Lot) -> Seq<Lot> {
    let k = insert_pos(s, lot.price as int) as int;
    s.take(k) + seq![lot] + s.skip(k)
}

/// The book after a sell of `amount`: lots are taken from the front, cheapest
/// first; none where the book holds less than `amount`.
pub open spec fn consume(s: Seq<Lot>, amount: int) -> Option<Seq<Lot>>
    decreases s.len(),
{
    if amount <= 0 {
        Some(s)
    } else if s.len() == 0 {
        None
    } else if s[0].amount > amount {
        Some(s.update(0, Lot { amount: (s[0].amount - amount) as i128, ..s[0] }))
    } else {
        consume(s.drop_first(), amount - s[0].amount)
    }
}

/// The unmatched buys of `pair` after replaying `trades`, cheapest first;
/// none where a sell overdrafts them.
pub open spec fn book_after(trades: Seq<Trade>, pair: TradingPair) -> Option<Seq<Lot>>
    decreases trades.len(),
{
    if trades.len() == 0 {
        Some(Seq::empty())
    } else {
        match book_after(trades.drop_last(), pair) {
            None => None,
            Some(b) => {
                let t = trades.last();
                if t.pair != pair {
                    Some(b)
                } else {
                    match t.side {
                        Side::Buy => Some(
                            insert_lot(b, Lot { price: t.price, amount: t.base_amount, time_ms: t.time_ms }),
                        ),
                        Side::Sell => consume(b, t.base_amount as int),
                    }
                }
            },
        }
    }
}

/// Sum of the amounts of the lots.
pub open spec fn total_amount(s: Seq<Lot>) -> int
    decreases s.len(),
{
    if s.len() == 0 {
        0
    } else {
        s[0].amount + total_amount(s.drop_first())
    }
}

/// The time of the last buy of `pair`.
pub open spec fn last_buy_time(trades: Seq<Trade>, pair: TradingPair) -> Option<int>
    decreases trades.len(),
{
    if trades.len() == 0 {
        None
    } else if trades.last().pair == pair && trades.last().side == Side::Buy {
        Some(trades.last().time_ms as int)
    } else {
        last_buy_time(trades.drop_last(), pair)
    }
}

proof fn lemma_ccy_index_injective(a: Ccy, b: Ccy)
    requires
        ccy_index(a) == ccy_index(b),
    ensures
        a == b,
{
    assert(ccy_at(ccy_index(a)) == a);
    assert(ccy_at(ccy_index(b)) == b);
}

proof fn lemma_wallet_none_stays(init: Seq<int>, trades: Seq<Trade>, k: int)
    requires
        0 <= k <= trades.len(),
        wallet_after(init, trades.take(k)) is None,
    ensures
        wallet_after(init, trades) is None,
    decreases trades.len() - k,
{
    if k < trades.len() {
        assert(trades.take(k + 1).drop_last() =~= trades.take(k));
        lemma_wallet_none_stays(init, trades, k + 1);
    } else {
        assert(trades.take(k) =~= trades);
    }
}

proof fn lemma_book_none_stays(trades: Seq<Trade>, pair: TradingPair, k: int)
    requires
        0 <= k <= trades.len(),
        book_after(trades.take(k), pair) is None,
    ensures
        book_after(trades, pair) is None,
    decreases trades.len() - k,
{
    if k < trades.len() {
        assert(trades.take(k + 1).drop_last() =~= trades.take(k));
        lemma_book_none_stays(trades, pair, k + 1);
    } else {
        assert(trades.take(k) =~= trades);
    }
}

/// Applies one trade to the balances; false where a balance would leave the
/// range of `i128`.
pub(crate) fn apply_trade_exec(w: &mut Vec<i128>, t: &Trade) -> (ok: bool)
    requires
        old(w)@.len() == NUM_CCY,
        t.wf(),
    ensures
        final(w)@.len() == NUM_CCY,
        ok == fits(apply_trade(ints(old(w)@), *t)),
        ok ==> ints(final(w)@) == apply_trade(ints(old(w)@), *t),
{
    let b = t.pair.base.index();
    let q = t.pair.quote.index();
    let ghost w0 = ints(w@);
    let ghost w2 = apply_trade(w0, *t);
    proof {
        if b == q {
            lemma_ccy_index_injective(t.pair.base, t.pair.quote);
        }
        assert(w0[b as int] == w@[b as int] as int);
        assert(w0[q as int] == w@[q as int] as int);
    }
    let (nb, nq) = match t.side {
        Side::Buy => (w[b].checked_add(t.base_amount), w[q].checked_sub(t.quote_amount)),
        Side::Sell => (w[b].checked_sub(t.base_amount), w[q].checked_add(t.quote_amount)),
    };
    match (nb, nq) {
        (Some(x), Some(y)) => {
            w.set(b, x);
            w.set(q, y);
            proof {
                assert(ints(w@) =~= w2);
                assert forall|i: int| 0 <= i < w2.len() implies i128::MIN <= #[trigger] w2[i]
                    <= i128::MAX by {
                    assert(w2[i] == ints(w@)[i]);
                }
            }
            true
        },
        _ => {
            proof {
                if nb is None {
                    assert(!(i128::MIN <= w2[b as int] <= i128::MAX));
                } else {
                    assert(!(i128::MIN <= w2[q as int] <= i128::MAX));
                }
            }
            false
        },
    }
}

/// Replays the whole ledger over the initial balances (indexed by currency).
pub fn replay_wallet(init: &Vec<i128>, trades: &Vec<Trade>) -> (r: Result<Vec<i128>, LedgerError>)
    requires
        init@.len() == NUM_CCY,
        all_trades_wf(trades@),
    ensures
        r matches Ok(w) ==> w@.len() == NUM_CCY && wallet_after(ints(init@), trades@) == Some(
            ints(w@),
        ),
        r is Err ==> wallet_after(ints(init@), trades@) is None,
        r matches Err(e) ==> e == LedgerError::BalanceOverflow,
{
    let mut w = init.clone();
    assert(w@ =~= init@);
    let mut i: usize = 0;
    assert(trades@.take(0) =~= Seq::<Trade>::empty());
    while i < trades.len()
        invariant
            init@.len() == NUM_CCY,
            all_trades_wf(trades@),
            i <= trades@.len(),
            w@.len() == NUM_CCY,
            wallet_after(ints(init@), trades@.take(i as int)) == Some(ints(w@)),
        decreases trades@.len() - i,
    {
        assert(trades@.take(i + 1).drop_last() =~= trades@.take(i as int));
        assert(trades@.take(i + 1).last() == trades@[i as int]);
        if !apply_trade_exec(&mut w, &trades[i]) {
            proof {
                lemma_wallet_none_stays(ints(init@), trades@, i + 1);
            }
            return Err(LedgerError::BalanceOverflow);
        }
        i = i + 1;
    }
    assert(trades@.take(i as int) =~= trades@);
    Ok(w)
}

proof fn lemma_insert_pos(s: Seq<Lot>, p: int, k: int)
    requires
        0 <= k <= s.len(),
        forall|j: int| 0 <= j < k ==> s[j].price <= p,
        k == s.len() || s[k].price > p,
    ensures
        insert_pos(s, p) == k,
    decreases k,
{
    if k > 0 {
        lemma_insert_pos(s.drop_first(), p, k - 1);
    }
}

/// Inserts a lot after every lot of lower or equal price.
fn insert_lot_exec(b: &mut Vec<Lot>, lot: Lot)
    requires
        all_lots_wf(old(b)@),
        lot.wf(),
    ensures
        final(b)@ == insert_lot(old(b)@, lot),
        all_lots_wf(final(b)@),
{
    let mut k: usize = 0;
    while k < b.len() && b[k].price <= lot.price
        invariant
            k <= b@.len(),
            forall|j: int| 0 <= j < k ==> b@[j].price <= lot.price,
        decreases b@.len() - k,
    {
        k = k + 1;
    }
    proof {
        lemma_insert_pos(b@, lot.price as int, k as int);
    }
    let ghost b0 = b@;
    b.insert(k, lot);
    assert(b@ =~= b0.take(k as int) + seq![lot] + b0.skip(k as int));
    assert forall|i: int| 0 <= i < b@.len() implies #[trigger] b@[i].wf() by {
        if i < k {
            assert(b@[i] == b0[i]);
        } else if i > k {
            assert(b@[i] == b0[i - 1]);
        }
    }
}

/// Takes `amount` from the front of the book; false where it holds less.
fn consume_exec(b: &mut Vec<Lot>, amount: i128) -> (ok: bool)
    requires
        all_lots_wf(old(b)@),
        0 < amount,
    ensures
        ok == (consume(old(b)@, amount as int) is Some),
        ok ==> Some(final(b)@) == consume(old(b)@, amount as int),
        ok ==> all_lots_wf(final(b)@),
{
    let mut rest: i128 = amount;
    while rest > 0
        invariant
            all_lots_wf(b@),
            0 <= rest,
            consume(old(b)@, amount as int) == consume(b@, rest as int),
        decreases b@.len(), rest,
    {
        if b.len() == 0 {
            return false;
        }
        let first = b[0];
        assert(b@[0].wf());
        if first.amount > rest {
            let ghost b0 = b@;
            let ghost r0 = rest as int;
            b.set(0, Lot { amount: first.amount - rest, ..first });
            rest = 0;
            assert(b@ =~= b0.update(0, Lot { amount: (b0[0].amount - r0) as i128, ..b0[0] }));
            assert(consume(b0, r0) == Some(b@));
            assert forall|i: int| 0 <= i < b@.len() implies #[trigger] b@[i].wf() by {
                if i > 0 {
                    assert(b@[i] == b0[i]);
                } else {
                    assert(b0[0].wf());
                }
            }
        } else {
            let ghost b0 = b@;
            rest = rest - first.amount;
            b.remove(0);
            assert(b@ =~= b0.drop_first());
            assert forall|i: int| 0 <= i < b@.len() implies #[trigger] b@[i].wf() by {
                assert(b@[i] == b0[i + 1]);
            }
        }
    }
    true
}

/// Replays the trades of `pair` in ledger order into its book of unmatched
/// buys, cheapest first.
pub fn replay_book(trades: &Vec<Trade>, pair: TradingPair) -> (r: Result<Vec<Lot>, LedgerError>)
    requires
        all_trades_wf(trades@),
    ensures
        r matches Ok(b) ==> book_after(trades@, pair) == Some(b@) && all_lots_wf(b@),
        r is Err ==> book_after(trades@, pair) is None,
        r matches Err(e) ==> e == LedgerError::OverdraftedSell,
{
    let mut b: Vec<Lot> = Vec::new();
    let mut i: usize = 0;
    assert(trades@.take(0) =~= Seq::<Trade>::empty());
    assert(b@ =~= Seq::<Lot>::empty());
    while i < trades.len()
        invariant
            all_trades_wf(trades@),
            i <= trades@.len(),
            all_lots_wf(b@),
            book_after(trades@.take(i as int), pair) == Some(b@),
        decreases trades@.len() - i,
    {
        assert(trades@.take(i + 1).drop_last() =~= trades@.take(i as int));
        assert(trades@.take(i + 1).last() == trades@[i as int]);
        let t = trades[i];
        assert(t.wf());
        if t.pair == pair {
            match t.side {
                Side::Buy => {
                    insert_lot_exec(&mut b, Lot { price: t.price, amount: t.base_amount, time_ms: t.time_ms });
                },
                Side::Sell => {
                    if !consume_exec(&mut b, t.base_amount) {
                        proof {
                            lemma_book_none_stays(trades@, pair, i + 1);
                        }
                        return Err(LedgerError::OverdraftedSell);
                    }
                },
            }
        }
        i = i + 1;
    }
    assert(trades@.take(i as int) =~= trades@);
    Ok(b)
}

/// Lots are ordered by price, cheapest first.
pub open spec fn price_sorted(s: Seq<Lot>) -> bool {
    forall|i: int, j: int| 0 <= i < j < s.len() ==> #[trigger] s[i].price <= #[trigger] s[j].price
}

proof fn lemma_ccy_index_bound(c: Ccy)
    ensures
        ccy_index(c) < NUM_CCY,
{
}

proof fn lemma_insert_pos_facts(s: Seq<Lot>, p: int)
    ensures
        insert_pos(s, p) <= s.len(),
        forall|j: int| 0 <= j < insert_pos(s, p) ==> s[j].price <= p,
        insert_pos(s, p) < s.len() ==> s[insert_pos(s, p) as int].price > p,
    decreases s.len(),
{
    if s.len() > 0 && s[0].price <= p {
        lemma_insert_pos_facts(s.drop_first(), p);
        assert forall|j: int| 0 <= j < insert_pos(s, p) implies s[j].price <= p by {
            if j > 0 {
                assert(s[j] == s.drop_first()[j - 1]);
            }
        }
    }
}

proof fn lemma_total_concat(a: Seq<Lot>, b: Seq<Lot>)
    ensures
        total_amount(a + b) == total_amount(a) + total_amount(b),
    decreases a.len(),
{
    if a.len() == 0 {
        assert(a + b =~= b);
    } else {
        assert((a + b).drop_first() =~= a.drop_first() + b);
        lemma_total_concat(a.drop_first(), b);
    }
}

proof fn lemma_total_insert(s: Seq<Lot>, lot: Lot)
    ensures
        total_amount(insert_lot(s, lot)) == total_amount(s) + lot.amount,
{
    let k = insert_pos(s, lot.price as int) as int;
    lemma_insert_pos_facts(s, lot.price as int);
    lemma_total_concat(s.take(k) + seq![lot], s.skip(k));
    lemma_total_concat(s.take(k), seq![lot]);
    lemma_total_concat(s.take(k), s.skip(k));
    assert(s =~= s.take(k) + s.skip(k));
    assert(seq![lot].drop_first() =~= Seq::<Lot>::empty());
    assert(total_amount(Seq::<Lot>::empty()) == 0);
    assert(total_amount(seq![lot]) == lot.amount);
}

proof fn lemma_total_consume(s: Seq<Lot>, amount: int)
    requires
        amount >= 0,
        consume(s, amount) is Some,
    ensures
        total_amount(consume(s, amount)->0) == total_amount(s) - amount,
    decreases s.len(),
{
    if amount > 0 && s.len() > 0 {
        if s[0].amount > amount {
            let s2 = s.update(0, Lot { amount: (s[0].amount - amount) as i128, ..s[0] });
            assert(s2.drop_first() =~= s.drop_first());
        } else {
            lemma_total_consume(s.drop_first(), amount - s[0].amount);
        }
    }
}

proof fn lemma_insert_sorted(s: Seq<Lot>, lot: Lot)
    requires
        price_sorted(s),
    ensures
        price_sorted(insert_lot(s, lot)),
{
    let k = insert_pos(s, lot.price as int) as int;
    lemma_insert_pos_facts(s, lot.price as int);
    let r = insert_lot(s, lot);
    assert forall|i: int, j: int| 0 <= i < j < r.len() implies #[trigger] r[i].price
        <= #[trigger] r[j].price by {
        if j < k {
            assert(r[i] == s[i] && r[j] == s[j]);
        } else if j == k {
            assert(r[i] == s[i]);
        } else if i < k {
            assert(r[i] == s[i] && r[j] == s[j - 1]);
        } else if i == k {
            assert(r[j] == s[j - 1]);
            assert(s[k].price <= s[j - 1].price);
        } else {
            assert(r[i] == s[i - 1] && r[j] == s[j - 1]);
        }
    }
}

proof fn lemma_consume_sorted(s: Seq<Lot>, amount: int)
    requires
        price_sorted(s),
        consume(s, amount) is Some,
    ensures
        price_sorted(consume(s, amount)->0),
    decreases s.len(),
{
    if amount > 0 && s.len() > 0 {
        if s[0].amount > amount {
            let s2 = s.update(0, Lot { amount: (s[0].amount - amount) as i128, ..s[0] });
            assert forall|i: int, j: int| 0 <= i < j < s2.len() implies #[trigger] s2[i].price
                <= #[trigger] s2[j].price by {
                assert(s[i].price <= s[j].price);
            }
        } else {
            let t = s.drop_first();
            assert forall|i: int, j: int| 0 <= i < j < t.len() implies #[trigger] t[i].price
                <= #[trigger] t[j].price by {
                assert(s[i + 1].price <= s[j + 1].price);
            }
            lemma_consume_sorted(t, amount - s[0].amount);
        }
    }
}

/// Every replayed book is ordered by price, cheapest first.
pub proof fn lemma_book_sorted(trades: Seq<Trade>, pair: TradingPair)
    requires
        book_after(trades, pair) is Some,
    ensures
        price_sorted(book_after(trades, pair)->0),
    decreases trades.len(),
{
    if trades.len() > 0 {
        let pre = trades.drop_last();
        lemma_book_sorted(pre, pair);
        let b = book_after(pre, pair)->0;
        let t = trades.last();
        if t.pair == pair {
            match t.side {
                Side::Buy => lemma_insert_sorted(b, Lot { price: t.price, amount: t.base_amount, time_ms: t.time_ms }),
                Side::Sell => lemma_consume_sorted(b, t.base_amount as int),
            }
        }
    }
}

/// Replay is a fold: replaying the ledger with one more trade is replaying
/// the ledger and then applying that trade. Updating balances and books
/// trade by trade therefore always agrees with a full replay from empty, and
/// two replays of one ledger give the same balances and books.
pub proof fn lemma_replay_incremental(init: Seq<int>, trades: Seq<Trade>, t: Trade, pair: TradingPair)
    ensures
        wallet_after(init, trades.push(t)) == match wallet_after(init, trades) {
            None => None,
            Some(w) => if fits(apply_trade(w, t)) {
                Some(apply_trade(w, t))
            } else {
                None
            },
        },
        book_after(trades.push(t), pair) == match book_after(trades, pair) {
            None => None,
            Some(b) => if t.pair != pair {
                Some(b)
            } else {
                match t.side {
                    Side::Buy => Some(insert_lot(b, Lot { price: t.price, amount: t.base_amount, time_ms: t.time_ms })),
                    Side::Sell => consume(b, t.base_amount as int),
                }
            },
        },
{
    assert(trades.push(t).drop_last() =~= trades);
}

/// Base amount bought minus base amount sold on `pair`.
pub open spec fn net_bought(trades: Seq<Trade>, pair: TradingPair) -> int
    decreases trades.len(),
{
    if trades.len() == 0 {
        0
    } else {
        let t = trades.last();
        let rest = net_bought(trades.drop_last(), pair);
        if t.pair != pair {
            rest
        } else {
            match t.side {
                Side::Buy => rest + t.base_amount,
                Side::Sell => rest - t.base_amount,
            }
        }
    }
}

/// The unmatched buys of a pair hold exactly what was bought on it minus
/// what was sold on it.
pub proof fn lemma_book_total_is_net_bought(trades: Seq<Trade>, pair: TradingPair)
    requires
        all_trades_wf(trades),
        book_after(trades, pair) is Some,
    ensures
        total_amount(book_after(trades, pair)->0) == net_bought(trades, pair),
    decreases trades.len(),
{
    if trades.len() == 0 {
        assert(total_amount(Seq::<Lot>::empty()) == 0);
    } else {
        let pre = trades.drop_last();
        let t = trades.last();
        assert(t == trades[trades.len() - 1]);
        assert(t.wf());
        assert forall|i: int| 0 <= i < pre.len() implies #[trigger] pre[i].wf() by {
            assert(pre[i] == trades[i]);
        }
        lemma_book_total_is_net_bought(pre, pair);
        let b = book_after(pre, pair)->0;
        if t.pair == pair {
            match t.side {
                Side::Buy => lemma_total_insert(b, Lot { price: t.price, amount: t.base_amount, time_ms: t.time_ms }),
                Side::Sell => lemma_total_consume(b, t.base_amount as int),
            }
        }
    }
}

/// Where the base currency of `pair` moves only through trades of `pair`, the
/// unmatched buys of `pair` add up to what its base balance gained since the
/// start, so they never exceed that balance.
pub proof fn lemma_unmatched_within_wallet(init: Seq<int>, trades: Seq<Trade>, pair: TradingPair)
    requires
        init.len() == NUM_CCY,
        pair.wf(),
        all_trades_wf(trades),
        forall|i: int|
            0 <= i < trades.len() && (#[trigger] trades[i].pair.base == pair.base || trades[i].pair.quote
                == pair.base) ==> trades[i].pair == pair,
        0 <= init[ccy_index(pair.base) as int],
        wallet_after(init, trades) is Some,
        book_after(trades, pair) is Some,
    ensures
        wallet_after(init, trades)->0.len() == NUM_CCY,
        total_amount(book_after(trades, pair)->0) + init[ccy_index(pair.base) as int]
            == wallet_after(init, trades)->0[ccy_index(pair.base) as int],
        total_amount(book_after(trades, pair)->0) <= wallet_after(init, trades)->0[ccy_index(
            pair.base,
        ) as int],
    decreases trades.len(),
{
    let bi = ccy_index(pair.base) as int;
    lemma_ccy_index_bound(pair.base);
    if trades.len() == 0 {
        assert(total_amount(Seq::<Lot>::empty()) == 0);
    } else {
        let pre = trades.drop_last();
        let t = trades.last();
        assert(t == trades[trades.len() - 1]);
        assert forall|i: int|
            0 <= i < pre.len() && (#[trigger] pre[i].pair.base == pair.base || pre[i].pair.quote
                == pair.base) implies pre[i].pair == pair by {
            assert(pre[i] == trades[i]);
        }
        assert forall|i: int| 0 <= i < pre.len() implies #[trigger] pre[i].wf() by {
            assert(pre[i] == trades[i]);
        }
        lemma_unmatched_within_wallet(init, pre, pair);
        let w = wallet_after(init, pre)->0;
        let b = book_after(pre, pair)->0;
        lemma_ccy_index_bound(t.pair.base);
        lemma_ccy_index_bound(t.pair.quote);
        assert(t.wf());
        if t.pair == pair {
            if ccy_index(t.pair.quote) == ccy_index(t.pair.base) {
                lemma_ccy_index_injective(t.pair.quote, t.pair.base);
            }
            match t.side {
                Side::Buy => lemma_total_insert(b, Lot { price: t.price, amount: t.base_amount, time_ms: t.time_ms }),
                Side::Sell => lemma_total_consume(b, t.base_amount as int),
            }
        } else {
            if ccy_index(t.pair.quote) == bi {
                lemma_ccy_index_injective(t.pair.quote, pair.base);
            }
            if ccy_index(t.pair.base) == bi {
                lemma_ccy_index_injective(t.pair.base, pair.base);
            }
        }
    }
}

} // verus!
