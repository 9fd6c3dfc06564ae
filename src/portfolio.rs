use vstd::prelude::*;
use crate::ccy::{ccy_index, Ccy, NUM_CCY};
use crate::ledger::{
    all_lots_wf, all_trades_wf, apply_trade_exec, book_after, ints, last_buy_time, replay_book,
    wallet_after, LedgerError, Lot, Side, Trade,
};
use crate::pair::TradingPair;

verus! {

/// The append-only trade ledger with its balances kept up to date.
pub struct Portfolio {
    initial: Vec<i128>,
    trades: Vec<Trade>,
    balances: Vec<i128>,
}

impl Portfolio {
    /// Balances before any trade, indexed by currency.
    pub closed spec fn initial_view(&self) -> Seq<int> {
        ints(self.initial@)
    }

    /// The ledger, oldest first.
    pub closed spec fn trades_view(&self) -> Seq<Trade> {
        self.trades@
    }

    /// The kept balances always equal a full replay of the ledger.
    pub closed spec fn wf(&self) -> bool {
        &&& self.initial@.len() == NUM_CCY
        &&& self.balances@.len() == NUM_CCY
        &&& all_trades_wf(self.trades@)
        &&& wallet_after(ints(self.initial@), self.trades@) == Some(ints(self.balances@))
    }

    /// Current balances: the replay of the ledger over the initial balances.
    pub open spec fn wallet(&self) -> Seq<int> {
        wallet_after(self.initial_view(), self.trades_view())->0
    }

    pub fn new(initial: Vec<i128>) -> (r: Portfolio)
        requires
            initial@.len() == NUM_CCY,
        ensures
            r.wf(),
            r.initial_view() == ints(initial@),
            r.trades_view() == Seq::<Trade>::empty(),
    {
        let balances = initial.clone();
        assert(balances@ =~= initial@);
        Portfolio { initial, trades: Vec::new(), balances }
    }

    /// Appends an executed trade and updates the balances by that trade
    /// alone. Refused, with nothing changed, only where a balance would leave
    /// the range of `i128`.
    pub fn record(&mut self, t: Trade) -> (r: Result<(), LedgerError>)
        requires
            old(self).wf(),
            t.wf(),
        ensures
            final(self).wf(),
            final(self).initial_view() == old(self).initial_view(),
            r is Ok <==> wallet_after(old(self).initial_view(), old(self).trades_view().push(t)) is Some,
            r is Ok ==> final(self).trades_view() == old(self).trades_view().push(t),
            r is Err ==> final(self).trades_view() == old(self).trades_view(),
            r matches Err(e) ==> e == LedgerError::BalanceOverflow,
    {
        let ghost before = self.trades@;
        proof {
            assert(before.push(t).drop_last() =~= before);
        }
        let mut w = self.balances.clone();
        assert(w@ =~= self.balances@);
        if !apply_trade_exec(&mut w, &t) {
            return Err(LedgerError::BalanceOverflow);
        }
        self.balances = w;
        self.trades.push(t);
        proof {
            assert forall|i: int| 0 <= i < self.trades@.len() implies #[trigger] self.trades@[i].wf() by {
                if i < before.len() {
                    assert(self.trades@[i] == before[i]);
                }
            }
        }
        Ok(())
    }

    /// Balance of one currency.
    pub fn balance(&self, c: Ccy) -> (r: i128)
        requires
            self.wf(),
        ensures
            self.wallet().len() == NUM_CCY,
            r as int == self.wallet()[ccy_index(c) as int],
    {
        let i = c.index();
        assert(ints(self.balances@)[i as int] == self.balances@[i as int] as int);
        self.balances[i]
    }

    /// All balances, indexed by currency.
    pub fn balances(&self) -> (r: Vec<i128>)
        requires
            self.wf(),
        ensures
            ints(r@) == self.wallet(),
            r@.len() == NUM_CCY,
    {
        let r = self.balances.clone();
        assert(r@ =~= self.balances@);
        r
    }

    /// The ledger, oldest first.
    pub fn trades(&self) -> (r: &Vec<Trade>)
        ensures
            r@ == self.trades_view(),
    {
        &self.trades
    }

    /// The unmatched buys of `pair`, cheapest first, replayed from the ledger.
    pub fn book_for(&self, pair: TradingPair) -> (r: Result<Vec<Lot>, LedgerError>)
        requires
            self.wf(),
        ensures
            r matches Ok(b) ==> book_after(self.trades_view(), pair) == Some(b@) && all_lots_wf(
                b@,
            ),
            r is Err ==> book_after(self.trades_view(), pair) is None,
            r matches Err(e) ==> e == LedgerError::OverdraftedSell,
    {
        replay_book(&self.trades, pair)
    }

    /// Time of the last recorded buy of `pair`.
    pub fn last_buy_time(&self, pair: TradingPair) -> (r: Option<i64>)
        ensures
            r matches Some(t) ==> last_buy_time(self.trades_view(), pair) == Some(t as int),
            r is None ==> last_buy_time(self.trades_view(), pair) is None,
    {
        let mut i: usize = self.trades.len();
        assert(self.trades@.take(i as int) =~= self.trades@);
        while i > 0
            invariant
                i <= self.trades@.len(),
                last_buy_time(self.trades@, pair) == last_buy_time(self.trades@.take(i as int), pair),
            decreases i,
        {
            let t = self.trades[i - 1];
            assert(self.trades@.take(i as int).last() == t);
            assert(self.trades@.take(i as int).drop_last() =~= self.trades@.take(i - 1));
            if t.pair == pair && t.side == Side::Buy {
                return Some(t.time_ms);
            }
            i = i - 1;
        }
        None
    }
}

} // verus!
