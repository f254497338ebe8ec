//! The book engine: two price ladders, one per side, each keyed by price in
//! ticks, every stored quantity non-zero.
use vstd::prelude::*;

verus! {

/// The side of the book a delta applies to.
#[derive(PartialEq, Eq, Structural, Clone, Copy, Debug)]
pub enum Side {
    Buy,
    Sell,
}

/// What a book holds: price to quantity on each side.
pub struct BookView {
    pub bids: Map<u64, i64>,
    pub asks: Map<u64, i64>,
}

/// A side after a delta: zero removes the level, anything else replaces it.
pub open spec fn set_level(m: Map<u64, i64>, price: u64, quantity: i64) -> Map<u64, i64> {
    if quantity == 0 {
        m.remove(price)
    } else {
        m.insert(price, quantity)
    }
}

/// A book after one delta; the other side is left as it was.
pub open spec fn ingest_spec(b: BookView, price: u64, side: Side, quantity: i64) -> BookView {
    match side {
        Side::Buy => BookView { bids: set_level(b.bids, price, quantity), asks: b.asks },
        Side::Sell => BookView { bids: b.bids, asks: set_level(b.asks, price, quantity) },
    }
}

/// `r` holds the best levels of the bid side `m`, highest price first: the
/// `n` best, or all of them when `m` has fewer.
pub open spec fn best_bids(m: Map<u64, i64>, n: nat, r: Seq<(u64, i64)>) -> bool {
    &&& r.len() <= n
    &&& forall|i: int, j: int| 0 <= i < j < r.len() ==> r[i].0 > r[j].0
    &&& forall|i: int|
        0 <= i < r.len() ==> m.contains_key(#[trigger] r[i].0) && m[r[i].0] == r[i].1
    &&& forall|k: u64|
        #![trigger m.contains_key(k)]
        m.contains_key(k) && (r.len() < n || (r.len() > 0 && k >= r.last().0)) ==> exists|i: int|
            0 <= i < r.len() && r[i].0 == k
}

/// `r` holds the best levels of the ask side `m`, lowest price first: the
/// `n` best, or all of them when `m` has fewer.
pub open spec fn best_asks(m: Map<u64, i64>, n: nat, r: Seq<(u64, i64)>) -> bool {
    &&& r.len() <= n
    &&& forall|i: int, j: int| 0 <= i < j < r.len() ==> r[i].0 < r[j].0
    &&& forall|i: int|
        0 <= i < r.len() ==> m.contains_key(#[trigger] r[i].0) && m[r[i].0] == r[i].1
    &&& forall|k: u64|
        #![trigger m.contains_key(k)]
        m.contains_key(k) && (r.len() < n || (r.len() > 0 && k <= r.last().0)) ==> exists|i: int|
            0 <= i < r.len() && r[i].0 == k
}

/// One side of the book: levels in increasing price order.
struct Ladder {
    levels: Vec<(u64, i64)>,
    model: Ghost<Map<u64, i64>>,
}

impl Ladder {
    spec fn wf(&self) -> bool {
        &&& self.model@.dom().finite()
        &&& self.model@.len() == self.levels@.len()
        &&& forall|i: int, j: int|
            0 <= i < j < self.levels@.len() ==> self.levels@[i].0 < self.levels@[j].0
        &&& forall|i: int|
            #![trigger self.levels@[i]]
            0 <= i < self.levels@.len() ==> self.levels@[i].1 != 0 && self.model@.contains_key(
                self.levels@[i].0,
            ) && self.model@[self.levels@[i].0] == self.levels@[i].1
        &&& forall|k: u64|
            #![trigger self.model@.contains_key(k)]
            self.model@.contains_key(k) ==> exists|i: int|
                0 <= i < self.levels@.len() && self.levels@[i].0 == k
    }

    fn new() -> (r: Ladder)
        ensures
            r.wf(),
            r.model@ == Map::<u64, i64>::empty(),
    {
        Ladder { levels: Vec::new(), model: Ghost(Map::empty()) }
    }

    fn set(&mut self, price: u64, quantity: i64)
        requires
            old(self).wf(),
        ensures
            final(self).wf(),
            final(self).model@ == set_level(old(self).model@, price, quantity),
    {
        let mut i: usize = 0;
        while i < self.levels.len() && self.levels[i].0 < price
            invariant
                self.wf(),
                i <= self.levels@.len(),
                forall|j: int| 0 <= j < i ==> self.levels@[j].0 < price,
            decreases self.levels@.len() - i,
        {
            i = i + 1;
        }
        let ghost old_levels = self.levels@;
        let ghost old_model = self.model@;
        if i < self.levels.len() && self.levels[i].0 == price {
            if quantity == 0 {
                self.levels.remove(i);
                self.model = Ghost(old_model.remove(price));
                assert forall|k: u64| #[trigger] self.model@.contains_key(k) implies exists|j: int|
                    0 <= j < self.levels@.len() && self.levels@[j].0 == k by {
                    let j = choose|j: int| 0 <= j < old_levels.len() && old_levels[j].0 == k;
                    if j < i {
                        assert(self.levels@[j].0 == k);
                    } else {
                        assert(self.levels@[j - 1].0 == k);
                    }
                }
            } else {
                self.levels.set(i, (price, quantity));
                self.model = Ghost(old_model.insert(price, quantity));
                assert forall|k: u64| #[trigger] self.model@.contains_key(k) implies exists|j: int|
                    0 <= j < self.levels@.len() && self.levels@[j].0 == k by {
                    if k != price {
                        let j = choose|j: int| 0 <= j < old_levels.len() && old_levels[j].0 == k;
                        assert(self.levels@[j].0 == k);
                    } else {
                        assert(self.levels@[i as int].0 == k);
                    }
                }
            }
        } else {
            assert(!old_model.contains_key(price)) by {
                if old_model.contains_key(price) {
                    let j = choose|j: int| 0 <= j < old_levels.len() && old_levels[j].0 == price;
                    if j >= i {
                        assert(old_levels[i as int].0 <= old_levels[j].0);
                    }
                }
            }
            if quantity == 0 {
                assert(old_model.remove(price) =~= old_model);
            } else {
                self.levels.insert(i, (price, quantity));
                self.model = Ghost(old_model.insert(price, quantity));
                assert forall|k: u64| #[trigger] self.model@.contains_key(k) implies exists|j: int|
                    0 <= j < self.levels@.len() && self.levels@[j].0 == k by {
                    if k != price {
                        let j = choose|j: int| 0 <= j < old_levels.len() && old_levels[j].0 == k;
                        if j < i {
                            assert(self.levels@[j].0 == k);
                        } else {
                            assert(self.levels@[j + 1].0 == k);
                        }
                    } else {
                        assert(self.levels@[i as int].0 == k);
                    }
                }
            }
        }
    }

    /// The `n` lowest levels, lowest first.
    fn lowest(&self, n: usize) -> (r: Vec<(u64, i64)>)
        requires
            self.wf(),
        ensures
            best_asks(self.model@, n as nat, r@),
            r@.len() == if n <= self.model@.len() {
                n as nat
            } else {
                self.model@.len()
            },
    {
        let mut r: Vec<(u64, i64)> = Vec::new();
        let mut i: usize = 0;
        while i < n && i < self.levels.len()
            invariant
                self.wf(),
                i <= n,
                i <= self.levels@.len(),
                r@ == self.levels@.take(i as int),
            decreases n - i,
        {
            r.push(self.levels[i]);
            assert(self.levels@.take(i + 1) =~= self.levels@.take(i as int).push(self.levels@[i as int]));
            i = i + 1;
        }
        assert forall|k: u64|
            #[trigger] self.model@.contains_key(k) && (r@.len() < n || (r@.len() > 0 && k
                <= r@.last().0)) implies exists|j: int| 0 <= j < r@.len() && r@[j].0 == k by {
            let j = choose|j: int| 0 <= j < self.levels@.len() && self.levels@[j].0 == k;
            if j >= i {
                assert(r@.len() == i);
                assert(self.levels@[i - 1].0 < self.levels@[j].0);
            }
            assert(r@[j].0 == k);
        }
        r
    }

    /// The `n` highest levels, highest first.
    fn highest(&self, n: usize) -> (r: Vec<(u64, i64)>)
        requires
            self.wf(),
        ensures
            best_bids(self.model@, n as nat, r@),
            r@.len() == if n <= self.model@.len() {
                n as nat
            } else {
                self.model@.len()
            },
    {
        let mut r: Vec<(u64, i64)> = Vec::new();
        let len = self.levels.len();
        let mut i: usize = 0;
        while i < n && i < len
            invariant
                self.wf(),
                len == self.levels@.len(),
                i <= n,
                i <= len,
                r@.len() == i,
                forall|j: int| 0 <= j < i ==> #[trigger] r@[j] == self.levels@[len - 1 - j],
            decreases n - i,
        {
            r.push(self.levels[len - 1 - i]);
            i = i + 1;
        }
        assert forall|a: int, b: int| 0 <= a < b < r@.len() implies r@[a].0 > r@[b].0 by {
            assert(r@[a] == self.levels@[len - 1 - a]);
            assert(r@[b] == self.levels@[len - 1 - b]);
        }
        assert forall|a: int| 0 <= a < r@.len() implies self.model@.contains_key(
            #[trigger] r@[a].0,
        ) && self.model@[r@[a].0] == r@[a].1 by {
            assert(r@[a] == self.levels@[len - 1 - a]);
        }
        assert forall|k: u64|
            #[trigger] self.model@.contains_key(k) && (r@.len() < n || (r@.len() > 0 && k
                >= r@.last().0)) implies exists|j: int| 0 <= j < r@.len() && r@[j].0 == k by {
            let j = choose|j: int| 0 <= j < self.levels@.len() && self.levels@[j].0 == k;
            if len - 1 - j >= i {
                assert(r@.len() == i);
                assert(r@[i - 1] == self.levels@[len - i]);
                assert(self.levels@[j].0 < self.levels@[len - i].0);
            }
            assert(r@[len - 1 - j] == self.levels@[j]);
        }
        r
    }
}

/// A level-2 order book: bids and asks, each a map from price (in ticks) to
/// a non-zero quantity. A delta's quantity is stored as it comes, so a
/// negative one is kept like a positive one; only zero removes a level.
pub struct OrderBook {
    bids: Ladder,
    asks: Ladder,
}

impl View for OrderBook {
    type V = BookView;

    closed spec fn view(&self) -> BookView {
        BookView { bids: self.bids.model@, asks: self.asks.model@ }
    }
}

impl OrderBook {
    /// The book's invariant: each side is ordered by price and holds no zero
    /// quantity.
    pub closed spec fn wf(&self) -> bool {
        self.bids.wf() && self.asks.wf()
    }

    /// Every stored quantity is non-zero.
    pub proof fn lemma_no_zero_level(&self, price: u64)
        requires
            self.wf(),
        ensures
            self@.bids.contains_key(price) ==> self@.bids[price] != 0,
            self@.asks.contains_key(price) ==> self@.asks[price] != 0,
    {
        if self@.bids.contains_key(price) {
            let i = choose|i: int|
                0 <= i < self.bids.levels@.len() && self.bids.levels@[i].0 == price;
            assert(self.bids.levels@[i].1 != 0);
        }
        if self@.asks.contains_key(price) {
            let i = choose|i: int|
                0 <= i < self.asks.levels@.len() && self.asks.levels@[i].0 == price;
            assert(self.asks.levels@[i].1 != 0);
        }
    }

    /// An empty book.
    pub fn new() -> (r: OrderBook)
        ensures
            r.wf(),
            r@.bids.dom().finite(),
            r@.asks.dom().finite(),
            r@.bids == Map::<u64, i64>::empty(),
            r@.asks == Map::<u64, i64>::empty(),
    {
        OrderBook { bids: Ladder::new(), asks: Ladder::new() }
    }

    /// Applies one delta: a zero quantity removes the level at `price` on
    /// `side`, any other quantity replaces it.
    pub fn ingest(&mut self, price: u64, side: Side, quantity: i64)
        requires
            old(self).wf(),
        ensures
            final(self).wf(),
            final(self)@.bids.dom().finite(),
            final(self)@.asks.dom().finite(),
            final(self)@ == ingest_spec(old(self)@, price, side, quantity),
    {
        match side {
            Side::Buy => self.bids.set(price, quantity),
            Side::Sell => self.asks.set(price, quantity),
        }
    }

    /// The `n` best levels of each side: bids highest price first, asks
    /// lowest price first; fewer where a side holds fewer.
    pub fn top_levels(&self, n: usize) -> (r: (Vec<(u64, i64)>, Vec<(u64, i64)>))
        requires
            self.wf(),
        ensures
            best_bids(self@.bids, n as nat, r.0@),
            best_asks(self@.asks, n as nat, r.1@),
            r.0@.len() == if n <= self@.bids.len() {
                n as nat
            } else {
                self@.bids.len()
            },
            r.1@.len() == if n <= self@.asks.len() {
                n as nat
            } else {
                self@.asks.len()
            },
    {
        (self.bids.highest(n), self.asks.lowest(n))
    }
}

} // verus!
