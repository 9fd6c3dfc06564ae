use vstd::prelude::*;
use crate::pair::TradingPair;
use crate::snapshot::MarketSnapshot;

verus! {

/// The most recent accepted snapshot of each pair.
pub struct MarketState {
    latest: Vec<MarketSnapshot>,
}

/// A snapshot is taken only if it is newer than what is held for its pair.
pub open spec fn accepts(m: Map<TradingPair, MarketSnapshot>, s: MarketSnapshot) -> bool {
    !m.contains_key(s.pair) || m[s.pair].sequence < s.sequence
}

/// What is held after a snapshot is offered.
pub open spec fn after_offer(m: Map<TradingPair, MarketSnapshot>, s: MarketSnapshot) -> Map<
    TradingPair,
    MarketSnapshot,
> {
    if accepts(m, s) {
        m.insert(s.pair, s)
    } else {
        m
    }
}

impl View for MarketState {
    type V = Map<TradingPair, MarketSnapshot>;

    closed spec fn view(&self) -> Map<TradingPair, MarketSnapshot> {
        Map::new(
            |p: TradingPair| exists|i: int| 0 <= i < self.latest@.len() && #[trigger] self.latest@[i].pair == p,
            |p: TradingPair| self.latest@[choose|i: int| 0 <= i < self.latest@.len() && #[trigger] self.latest@[i].pair == p],
        )
    }
}

impl MarketState {
    /// At most one snapshot per pair is held.
    pub closed spec fn wf(&self) -> bool {
        &&& forall|i: int, j: int|
            0 <= i < j < self.latest@.len() ==> #[trigger] self.latest@[i].pair != #[trigger] self.latest@[j].pair
        &&& forall|i: int| 0 <= i < self.latest@.len() ==> #[trigger] self.latest@[i].wf()
    }

    pub fn new() -> (r: MarketState)
        ensures
            r.wf(),
            r@ == Map::<TradingPair, MarketSnapshot>::empty(),
    {
        let r = MarketState { latest: Vec::new() };
        assert(r@ =~= Map::<TradingPair, MarketSnapshot>::empty());
        r
    }

    fn find(&self, pair: TradingPair) -> (r: Option<usize>)
        requires
            self.wf(),
        ensures
            r matches Some(i) ==> i < self.latest@.len() && self.latest@[i as int].pair == pair
                && self@.contains_key(pair) && self@[pair] == self.latest@[i as int],
            r is None ==> !self@.contains_key(pair),
    {
        let mut i: usize = 0;
        while i < self.latest.len()
            invariant
                self.wf(),
                i <= self.latest@.len(),
                forall|j: int| 0 <= j < i ==> self.latest@[j].pair != pair,
            decreases self.latest@.len() - i,
        {
            if self.latest[i].pair == pair {
                proof {
                    assert(self.latest@[i as int].pair == pair);
                    assert(self@.contains_key(pair));
                    let k = choose|k: int| 0 <= k < self.latest@.len() && #[trigger] self.latest@[k].pair == pair;
                    if k < i {
                        assert(self.latest@[k].pair != pair);
                    } else if k > i {
                        assert(self.latest@[i as int].pair != self.latest@[k].pair);
                    }
                }
                return Some(i);
            }
            i = i + 1;
        }
        None
    }

    /// The latest accepted snapshot of `pair`.
    pub fn latest(&self, pair: TradingPair) -> (r: Option<MarketSnapshot>)
        requires
            self.wf(),
        ensures
            r is Some <==> self@.contains_key(pair),
            r matches Some(s) ==> s == self@[pair] && s.wf() && s.pair == pair,
    {
        match self.find(pair) {
            Some(i) => Some(self.latest[i]),
            None => None,
        }
    }

    /// Offers a snapshot: it replaces what is held for its pair only if its
    /// sequence number is higher. Returns whether it was taken.
    pub fn offer(&mut self, s: MarketSnapshot) -> (taken: bool)
        requires
            old(self).wf(),
            s.wf(),
        ensures
            final(self).wf(),
            taken == accepts(old(self)@, s),
            final(self)@ == after_offer(old(self)@, s),
    {
        let ghost m = self@;
        match self.find(s.pair) {
            Some(i) => {
                if self.latest[i].sequence >= s.sequence {
                    return false;
                }
                self.latest.set(i, s);
                proof {
                    assert forall|p: TradingPair| #[trigger] self@.contains_key(p) == m.insert(s.pair, s).contains_key(p) by {
                        if m.contains_key(p) {
                            let k = choose|k: int| 0 <= k < old(self).latest@.len() && #[trigger] old(self).latest@[k].pair == p;
                            if p != s.pair {
                                assert(self.latest@[k].pair == p);
                            }
                        }
                        if self@.contains_key(p) {
                            let k = choose|k: int| 0 <= k < self.latest@.len() && #[trigger] self.latest@[k].pair == p;
                            if k != i {
                                assert(old(self).latest@[k].pair == p);
                            }
                        }
                    }
                    assert forall|p: TradingPair| #[trigger] self@.contains_key(p) implies self@[p] == m.insert(s.pair, s)[p] by {
                        let k = choose|k: int| 0 <= k < self.latest@.len() && #[trigger] self.latest@[k].pair == p;
                        if p != s.pair {
                            assert(old(self).latest@[k].pair == p);
                            let k0 = choose|k0: int| 0 <= k0 < old(self).latest@.len() && #[trigger] old(self).latest@[k0].pair == p;
                            assert(k0 == k);
                        } else {
                            assert(k == i);
                        }
                    }
                    assert(self@ =~= m.insert(s.pair, s));
                }
                true
            },
            None => {
                self.latest.push(s);
                proof {
                    let n = old(self).latest@.len();
                    assert(self.latest@[n as int] == s);
                    assert forall|p: TradingPair| #[trigger] self@.contains_key(p) == m.insert(s.pair, s).contains_key(p) by {
                        if m.contains_key(p) {
                            let k = choose|k: int| 0 <= k < old(self).latest@.len() && #[trigger] old(self).latest@[k].pair == p;
                            assert(self.latest@[k].pair == p);
                        }
                        if self@.contains_key(p) {
                            let k = choose|k: int| 0 <= k < self.latest@.len() && #[trigger] self.latest@[k].pair == p;
                            if k != n {
                                assert(old(self).latest@[k].pair == p);
                            }
                        }
                    }
                    assert forall|p: TradingPair| #[trigger] self@.contains_key(p) implies self@[p] == m.insert(s.pair, s)[p] by {
                        let k = choose|k: int| 0 <= k < self.latest@.len() && #[trigger] self.latest@[k].pair == p;
                        if p != s.pair {
                            assert(old(self).latest@[k].pair == p);
                            let k0 = choose|k0: int| 0 <= k0 < old(self).latest@.len() && #[trigger] old(self).latest@[k0].pair == p;
                            assert(k0 == k);
                        } else {
                            assert(k == n);
                        }
                    }
                    assert(self@ =~= m.insert(s.pair, s));
                }
                true
            },
        }
    }
}

/// A snapshot whose sequence number is not above the one held for its pair
/// changes nothing: it never reaches a decision.
pub proof fn lemma_stale_snapshot_ignored(m: Map<TradingPair, MarketSnapshot>, s: MarketSnapshot)
    requires
        m.contains_key(s.pair),
        s.sequence <= m[s.pair].sequence,
    ensures
        !accepts(m, s),
        after_offer(m, s) == m,
{
}

} // verus!
