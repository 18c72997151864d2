//! The per-instrument limit-order book: sorted price levels on each side,
//! accumulators for best orders, the index of live orders and the session
//! statistics, with the opening-cross resolver.
use vstd::prelude::*;
use crate::md::{ExecuteType, Order, OrderType, Side, Snapshot, Trade};
use crate::book_laws::{
    lemma_apply_change_levels, lemma_event_step, lemma_no_cross_after_threshold, Event,
};
use std::collections::HashMap;

verus! {

broadcast use vstd::std_specs::hash::group_hash_axioms;

/// Clock (microseconds) from which a crossed book is resolved after each order.
pub const CROSS_THRESHOLD: i64 = 1587605144280888;

/// Aggregated quantity resting at one price.
#[derive(Clone, Copy, Debug, PartialEq, Eq, Structural)]
pub struct Level {
    pub price: i64,
    pub quantity: i64,
}

/// `a` lies strictly on the aggressive side of `b`: higher for bids, lower for asks.
pub open spec fn more_aggressive(bid: bool, a: i64, b: i64) -> bool {
    if bid {
        a > b
    } else {
        a < b
    }
}

/// The first index at or after `i` whose price is not strictly more
/// aggressive than `price` (or the length).
pub open spec fn scan_from(levels: Seq<Level>, bid: bool, price: i64, i: int) -> int
    decreases levels.len() - i,
{
    if i < 0 || i >= levels.len() || !more_aggressive(bid, levels[i].price, price) {
        i
    } else {
        scan_from(levels, bid, price, i + 1)
    }
}

/// Where `price` stands on a side: the first level not more aggressive than it.
pub open spec fn level_index(levels: Seq<Level>, bid: bool, price: i64) -> int {
    scan_from(levels, bid, price, 0)
}

/// The side has a level at `price` where the scan for it stops.
pub open spec fn has_level(levels: Seq<Level>, bid: bool, price: i64) -> bool {
    let idx = level_index(levels, bid, price);
    idx < levels.len() && levels[idx].price == price
}

/// A side after adding `quantity` (which may be negative) at `price`: a new
/// level is inserted where the scan stops unless a level at that price is
/// there; an existing level is adjusted and dropped once it reaches zero or less.
pub open spec fn change_levels(levels: Seq<Level>, bid: bool, price: i64, quantity: i64) -> Seq<Level> {
    let idx = level_index(levels, bid, price);
    if !has_level(levels, bid, price) {
        levels.insert(idx, Level { price, quantity })
    } else {
        let q = levels[idx].quantity.wrapping_add(quantity);
        if q <= 0 {
            levels.remove(idx)
        } else {
            levels.update(idx, Level { price, quantity: q })
        }
    }
}

/// Prices strictly in aggressive order: descending for bids, ascending for asks.
pub open spec fn side_sorted(levels: Seq<Level>, bid: bool) -> bool {
    forall|i: int, j: int|
        0 <= i < j < levels.len() ==> more_aggressive(bid, #[trigger] levels[i].price, #[trigger] levels[j].price)
}

/// Every level holds a positive quantity.
pub open spec fn side_positive(levels: Seq<Level>) -> bool {
    forall|i: int| 0 <= i < levels.len() ==> #[trigger] levels[i].quantity > 0
}

/// The mathematical state of a book.
pub struct BookView {
    pub inst_id: i32,
    pub timestamp: i64,
    pub bids: Seq<Level>,
    pub bid_best: i64,
    pub asks: Seq<Level>,
    pub ask_best: i64,
    pub orders: Map<i64, Order>,
    pub cum_volume: i64,
    pub cum_amount: i64,
    pub num_trades: i64,
    pub close: i64,
    pub open_price: i64,
}

/// A fresh book for an instrument: empty sides, all counters zero.
pub open spec fn empty_book(inst_id: i32) -> BookView {
    BookView {
        inst_id,
        timestamp: 0,
        bids: Seq::empty(),
        bid_best: 0,
        asks: Seq::empty(),
        ask_best: 0,
        orders: Map::empty(),
        cum_volume: 0,
        cum_amount: 0,
        num_trades: 0,
        close: 0,
        open_price: 0,
    }
}

/// Both sides sorted in aggressive order.
pub open spec fn levels_sorted(b: BookView) -> bool {
    side_sorted(b.bids, true) && side_sorted(b.asks, false)
}

/// Every level of both sides holds a positive quantity.
pub open spec fn levels_positive(b: BookView) -> bool {
    side_positive(b.bids) && side_positive(b.asks)
}

/// The book after a level change on one side; an unknown side changes nothing.
pub open spec fn apply_change_spec(b: BookView, side: Side, price: i64, quantity: i64) -> BookView {
    match side {
        Side::Bid => BookView { bids: change_levels(b.bids, true, price, quantity), ..b },
        Side::Ask => BookView { asks: change_levels(b.asks, false, price, quantity), ..b },
        Side::Unknown => b,
    }
}

/// Both sides have a level and the best ask is at or below the best bid.
pub open spec fn crossed(b: BookView) -> bool {
    b.bids.len() > 0 && b.asks.len() > 0 && b.asks[0].price <= b.bids[0].price
}

/// The smaller of two integers.
pub open spec fn min_i64(a: i64, b: i64) -> i64 {
    if a <= b {
        a
    } else {
        b
    }
}

/// One round of the cross resolver: the smaller of the two top quantities is
/// taken off both top levels.
pub open spec fn cross_step(b: BookView) -> BookView {
    let q = min_i64(b.bids[0].quantity, b.asks[0].quantity);
    let b1 = apply_change_spec(b, Side::Bid, b.bids[0].price, 0i64.wrapping_sub(q));
    apply_change_spec(b1, Side::Ask, b1.asks[0].price, 0i64.wrapping_sub(q))
}

/// The cross resolver: rounds of `cross_step` while the book is crossed.
pub open spec fn resolve_cross(b: BookView) -> BookView
    decreases b.bids.len() + b.asks.len(),
{
    if crossed(b) {
        proof {
            lemma_cross_step_shrinks(b);
        }
        resolve_cross(cross_step(b))
    } else {
        b
    }
}

/// The order as the index of live orders keeps it.
pub open spec fn orders_after(b: BookView, o: Order) -> Map<i64, Order> {
    b.orders.insert(o.ApplSeqNum, o)
}

/// The book after an order event. An order older than the book is dropped;
/// one at the book's own clock is applied.
pub open spec fn order_step(b: BookView, o: Order) -> BookView {
    if o.clockAtArrival < b.timestamp {
        b
    } else {
        let b1 = BookView { timestamp: o.clockAtArrival, orders: orders_after(b, o), ..b };
        let b2 = match o.OrderType {
            OrderType::LimitOrder | OrderType::MarketOrder => apply_change_spec(
                b1,
                o.Side,
                o.Price,
                o.OrderQty,
            ),
            OrderType::BestOrder => match o.Side {
                Side::Bid => BookView { bid_best: b1.bid_best.wrapping_add(o.OrderQty), ..b1 },
                Side::Ask => BookView { ask_best: b1.ask_best.wrapping_add(o.OrderQty), ..b1 },
                Side::Unknown => b1,
            },
            OrderType::Unknown => b1,
        };
        if b2.timestamp >= CROSS_THRESHOLD && crossed(b2) {
            resolve_cross(b2)
        } else {
            b2
        }
    }
}

/// The sequence number a cancellation names.
pub open spec fn cancelled_seq(t: Trade) -> i64 {
    if t.BidApplSeqNum != 0 {
        t.BidApplSeqNum
    } else {
        t.OfferApplSeqNum
    }
}

/// The book after a cancellation of order `o` by trade record `t`.
pub open spec fn cancel_spec(b: BookView, o: Order, t: Trade) -> BookView {
    match o.OrderType {
        OrderType::LimitOrder | OrderType::MarketOrder => apply_change_spec(
            b,
            o.Side,
            o.Price,
            0i64.wrapping_sub(t.TradeQty),
        ),
        OrderType::BestOrder => match o.Side {
            Side::Bid => BookView { bid_best: b.bid_best.wrapping_sub(o.OrderQty), ..b },
            Side::Ask => BookView { ask_best: b.ask_best.wrapping_sub(o.OrderQty), ..b },
            Side::Unknown => b,
        },
        OrderType::Unknown => b,
    }
}

/// The book after a trade-stream event. A record older than the book is
/// dropped. A trade updates the statistics only (its level change came from
/// the cross resolver); a cancellation of an order the book never saw
/// changes nothing but the clock.
pub open spec fn trade_step(b: BookView, t: Trade) -> BookView {
    if t.clockAtArrival < b.timestamp {
        b
    } else {
        let b1 = BookView { timestamp: t.clockAtArrival, ..b };
        match t.ExecType {
            ExecuteType::Traded => BookView {
                num_trades: b1.num_trades.wrapping_add(1),
                cum_volume: b1.cum_volume.wrapping_add(t.TradeQty),
                cum_amount: b1.cum_amount.wrapping_add(t.TradeQty.wrapping_mul(t.TradePrice)),
                close: t.TradePrice,
                open_price: if b1.open_price == 0 {
                    t.TradePrice
                } else {
                    b1.open_price
                },
                ..b1
            },
            ExecuteType::Cancelled => {
                let seq = cancelled_seq(t);
                if b1.orders.contains_key(seq) {
                    cancel_spec(b1, b1.orders[seq], t)
                } else {
                    b1
                }
            },
            ExecuteType::Unknown => b1,
        }
    }
}

/// Price of level `i` of a side, 0 where the side is shorter.
pub open spec fn price_at(levels: Seq<Level>, i: int) -> i64 {
    if i < levels.len() {
        levels[i].price
    } else {
        0
    }
}

/// Quantity of level `i` of a side, 0 where the side is shorter.
pub open spec fn quantity_at(levels: Seq<Level>, i: int) -> i64 {
    if i < levels.len() {
        levels[i].quantity
    } else {
        0
    }
}

/// The snapshot of a book at its clock.
pub open spec fn snapshot_of(b: BookView) -> Snapshot {
    Snapshot {
        clock: b.timestamp,
        clockAtArrival: b.timestamp,
        StockID: b.inst_id,
        cum_volume: b.cum_volume,
        cum_amount: b.cum_amount,
        close: b.close,
        bid1p: price_at(b.bids, 0),
        bid2p: price_at(b.bids, 1),
        bid3p: price_at(b.bids, 2),
        bid4p: price_at(b.bids, 3),
        bid5p: price_at(b.bids, 4),
        bid1q: quantity_at(b.bids, 0),
        bid2q: quantity_at(b.bids, 1),
        bid3q: quantity_at(b.bids, 2),
        bid4q: quantity_at(b.bids, 3),
        bid5q: quantity_at(b.bids, 4),
        ask1p: price_at(b.asks, 0),
        ask2p: price_at(b.asks, 1),
        ask3p: price_at(b.asks, 2),
        ask4p: price_at(b.asks, 3),
        ask5p: price_at(b.asks, 4),
        ask1q: quantity_at(b.asks, 0),
        ask2q: quantity_at(b.asks, 1),
        ask3q: quantity_at(b.asks, 2),
        ask4q: quantity_at(b.asks, 3),
        ask5q: quantity_at(b.asks, 4),
        openPrice: b.open_price,
        numTrades: b.num_trades,
    }
}

/// The scan stops within the side, after levels more aggressive than the
/// price and at one that is not.
pub proof fn lemma_scan_bounds(levels: Seq<Level>, bid: bool, price: i64, i: int)
    requires
        0 <= i <= levels.len(),
    ensures
        i <= scan_from(levels, bid, price, i) <= levels.len(),
        forall|j: int|
            i <= j < scan_from(levels, bid, price, i) ==> more_aggressive(
                bid,
                #[trigger] levels[j].price,
                price,
            ),
        scan_from(levels, bid, price, i) < levels.len() ==> !more_aggressive(
            bid,
            levels[scan_from(levels, bid, price, i)].price,
            price,
        ),
    decreases levels.len() - i,
{
    if i < levels.len() && more_aggressive(bid, levels[i].price, price) {
        lemma_scan_bounds(levels, bid, price, i + 1);
    }
}

/// A price sits at index 0 of its own top level.
pub proof fn lemma_top_index(levels: Seq<Level>, bid: bool)
    requires
        levels.len() > 0,
    ensures
        level_index(levels, bid, levels[0].price) == 0,
        has_level(levels, bid, levels[0].price),
{
}

/// Each round of the cross resolver removes at least one level.
pub proof fn lemma_cross_step_shrinks(b: BookView)
    requires
        crossed(b),
    ensures
        cross_step(b).bids.len() + cross_step(b).asks.len() < b.bids.len() + b.asks.len(),
        cross_step(b).bids.len() <= b.bids.len(),
        cross_step(b).asks.len() <= b.asks.len(),
{
    let q = min_i64(b.bids[0].quantity, b.asks[0].quantity);
    let nq = 0i64.wrapping_sub(q);
    lemma_top_index(b.bids, true);
    lemma_top_index(b.asks, false);
    let b1 = apply_change_spec(b, Side::Bid, b.bids[0].price, nq);
    assert(b1.asks == b.asks);
    let bq = b.bids[0].quantity.wrapping_add(nq);
    let aq = b.asks[0].quantity.wrapping_add(nq);
    assert(q == b.bids[0].quantity ==> bq == 0);
    assert(q == b.asks[0].quantity ==> aq == 0);
}

/// The book of one instrument.
pub struct Book {
    pub inst_id: i32,
    /// Clock of the last event applied.
    pub timestamp: i64,
    /// Bid levels, best (highest) price first; best orders are not in here.
    pub bid_levels: Vec<Level>,
    pub bid_best_order_quantity: i64,
    /// Ask levels, best (lowest) price first; best orders are not in here.
    pub ask_levels: Vec<Level>,
    pub ask_best_order_quantity: i64,
    /// Every order applied, by its sequence number.
    pub orders_: HashMap<i64, Order>,
    pub cum_volume: i64,
    pub cum_amount: i64,
    pub num_trades: i64,
    /// Latest trade price.
    pub close: i64,
    /// First trade price.
    pub open_price: i64,
}

impl View for Book {
    type V = BookView;

    open spec fn view(&self) -> BookView {
        BookView {
            inst_id: self.inst_id,
            timestamp: self.timestamp,
            bids: self.bid_levels@,
            bid_best: self.bid_best_order_quantity,
            asks: self.ask_levels@,
            ask_best: self.ask_best_order_quantity,
            orders: self.orders_@,
            cum_volume: self.cum_volume,
            cum_amount: self.cum_amount,
            num_trades: self.num_trades,
            close: self.close,
            open_price: self.open_price,
        }
    }
}

fn is_more_aggressive(bid: bool, a: i64, b: i64) -> (r: bool)
    ensures
        r == more_aggressive(bid, a, b),
{
    if bid {
        a > b
    } else {
        a < b
    }
}

/// Adds `quantity` at `price` to one side (see `change_levels`).
fn change_side(levels: &mut Vec<Level>, bid: bool, price: i64, quantity: i64)
    ensures
        final(levels)@ == change_levels(old(levels)@, bid, price, quantity),
{
    let ghost start = levels@;
    let mut idx: usize = 0;
    while idx < levels.len() && is_more_aggressive(bid, levels[idx].price, price)
        invariant
            levels@ == start,
            0 <= idx <= levels.len(),
            scan_from(start, bid, price, idx as int) == level_index(start, bid, price),
        decreases levels.len() - idx,
    {
        idx += 1;
    }
    proof {
        lemma_scan_bounds(start, bid, price, 0);
    }
    if idx == levels.len() || levels[idx].price != price {
        levels.insert(idx, Level { price, quantity });
        return;
    }
    let q = levels[idx].quantity.wrapping_add(quantity);
    if q <= 0 {
        levels.remove(idx);
    } else {
        levels.set(idx, Level { price, quantity: q });
    }
}

impl Book {
    /// A fresh, empty book for an instrument.
    pub fn new(inst_id: i32) -> (r: Book)
        ensures
            r@ == empty_book(inst_id),
    {
        Book {
            inst_id,
            timestamp: 0,
            bid_levels: Vec::new(),
            bid_best_order_quantity: 0,
            ask_levels: Vec::new(),
            ask_best_order_quantity: 0,
            orders_: HashMap::new(),
            cum_volume: 0,
            cum_amount: 0,
            num_trades: 0,
            close: 0,
            open_price: 0,
        }
    }

    /// Inserts, adjusts or removes a level of the given side; an unknown
    /// side is ignored.
    pub fn apply_change(&mut self, side: Side, price: i64, quantity: i64)
        ensures
            final(self)@ == apply_change_spec(old(self)@, side, price, quantity),
            levels_sorted(old(self)@) ==> levels_sorted(final(self)@),
    {
        proof {
            lemma_apply_change_levels(self@, side, price, quantity);
        }
        match side {
            Side::Bid => change_side(&mut self.bid_levels, true, price, quantity),
            Side::Ask => change_side(&mut self.ask_levels, false, price, quantity),
            Side::Unknown => {},
        }
    }

    /// Both sides are non-empty and the best ask is at or below the best bid.
    pub fn crossed(&self) -> (r: bool)
        ensures
            r == crossed(self@),
    {
        if self.ask_levels.len() == 0 || self.bid_levels.len() == 0 {
            return false;
        }
        self.ask_levels[0].price <= self.bid_levels[0].price
    }

    /// Takes crossed liquidity off the top of both sides until the book is
    /// no longer crossed.
    fn handle_cross(&mut self)
        ensures
            final(self)@ == resolve_cross(old(self)@),
    {
        let ghost start = self@;
        while self.crossed()
            invariant
                resolve_cross(self@) == resolve_cross(start),
            decreases self.bid_levels.len() + self.ask_levels.len(),
        {
            proof {
                lemma_cross_step_shrinks(self@);
            }
            let ghost before = self@;
            let bq = self.bid_levels[0].quantity;
            let aq = self.ask_levels[0].quantity;
            let cross_quantity = if bq <= aq {
                bq
            } else {
                aq
            };
            // the price only locates the top level to drain, it is no trade price
            let bp = self.bid_levels[0].price;
            self.apply_change(Side::Bid, bp, 0i64.wrapping_sub(cross_quantity));
            let ap = self.ask_levels[0].price;
            self.apply_change(Side::Ask, ap, 0i64.wrapping_sub(cross_quantity));
            assert(self@ == cross_step(before));
        }
    }

    /// Applies an order event (see `order_step`).
    pub fn handle_order(&mut self, order: &Order)
        ensures
            final(self)@ == order_step(old(self)@, *order),
            final(self).timestamp >= old(self).timestamp,
            levels_sorted(old(self)@) ==> levels_sorted(final(self)@),
            final(self).timestamp >= CROSS_THRESHOLD && (order.clockAtArrival >= old(self).timestamp
                || !crossed(old(self)@)) ==> !crossed(final(self)@),
    {
        proof {
            lemma_event_step(self@, Event::OrderEvent(*order));
            if order_step(self@, *order).timestamp >= CROSS_THRESHOLD && (order.clockAtArrival
                >= self.timestamp || !crossed(self@)) {
                lemma_no_cross_after_threshold(self@, *order);
            }
        }
        if self.timestamp > order.clockAtArrival {
            // several messages of one packet may share a clock: those are kept
            return;
        }
        self.timestamp = order.clockAtArrival;
        self.orders_.insert(order.ApplSeqNum, *order);

        match order.OrderType {
            OrderType::LimitOrder | OrderType::MarketOrder => {
                self.apply_change(order.Side, order.Price, order.OrderQty);
            },
            OrderType::BestOrder => match order.Side {
                Side::Bid => {
                    self.bid_best_order_quantity = self.bid_best_order_quantity.wrapping_add(
                        order.OrderQty,
                    );
                },
                Side::Ask => {
                    self.ask_best_order_quantity = self.ask_best_order_quantity.wrapping_add(
                        order.OrderQty,
                    );
                },
                Side::Unknown => {},
            },
            OrderType::Unknown => {},
        }

        if self.timestamp >= CROSS_THRESHOLD && self.crossed() {
            self.handle_cross();
        }
    }

    /// Applies a trade-stream event (see `trade_step`).
    pub fn handle_trade(&mut self, trade: &Trade)
        ensures
            final(self)@ == trade_step(old(self)@, *trade),
            final(self).timestamp >= old(self).timestamp,
            levels_sorted(old(self)@) ==> levels_sorted(final(self)@),
    {
        proof {
            lemma_event_step(self@, Event::TradeEvent(*trade));
        }
        if self.timestamp > trade.clockAtArrival {
            return;
        }
        self.timestamp = trade.clockAtArrival;

        match trade.ExecType {
            ExecuteType::Traded => {
                self.num_trades = self.num_trades.wrapping_add(1);
                self.cum_volume = self.cum_volume.wrapping_add(trade.TradeQty);
                self.cum_amount = self.cum_amount.wrapping_add(
                    trade.TradeQty.wrapping_mul(trade.TradePrice),
                );
                self.close = trade.TradePrice;
                if self.open_price == 0 {
                    self.open_price = trade.TradePrice;
                }
                // the level change of a trade was made by the cross resolver
            },
            ExecuteType::Cancelled => {
                let seq = if trade.BidApplSeqNum != 0 {
                    trade.BidApplSeqNum
                } else {
                    trade.OfferApplSeqNum
                };
                let found = match self.orders_.get(&seq) {
                    Some(o) => Some(*o),
                    None => None,
                };
                match found {
                    Some(order) => match order.OrderType {
                        OrderType::MarketOrder | OrderType::LimitOrder => {
                            self.apply_change(
                                order.Side,
                                order.Price,
                                0i64.wrapping_sub(trade.TradeQty),
                            );
                        },
                        OrderType::BestOrder => match order.Side {
                            Side::Bid => {
                                self.bid_best_order_quantity =
                                self.bid_best_order_quantity.wrapping_sub(order.OrderQty);
                            },
                            Side::Ask => {
                                self.ask_best_order_quantity =
                                self.ask_best_order_quantity.wrapping_sub(order.OrderQty);
                            },
                            Side::Unknown => {},
                        },
                        OrderType::Unknown => {},
                    },
                    None => {},
                }
            },
            ExecuteType::Unknown => {},
        }
    }

    /// The snapshot of the book at its clock.
    pub fn to_snapshot(&self) -> (r: Snapshot)
        ensures
            r == snapshot_of(self@),
    {
        Snapshot {
            clock: self.timestamp,
            clockAtArrival: self.timestamp,
            StockID: self.inst_id,
            cum_volume: self.cum_volume,
            cum_amount: self.cum_amount,
            close: self.close,
            bid1p: level_price(&self.bid_levels, 0),
            bid2p: level_price(&self.bid_levels, 1),
            bid3p: level_price(&self.bid_levels, 2),
            bid4p: level_price(&self.bid_levels, 3),
            bid5p: level_price(&self.bid_levels, 4),
            bid1q: level_quantity(&self.bid_levels, 0),
            bid2q: level_quantity(&self.bid_levels, 1),
            bid3q: level_quantity(&self.bid_levels, 2),
            bid4q: level_quantity(&self.bid_levels, 3),
            bid5q: level_quantity(&self.bid_levels, 4),
            ask1p: level_price(&self.ask_levels, 0),
            ask2p: level_price(&self.ask_levels, 1),
            ask3p: level_price(&self.ask_levels, 2),
            ask4p: level_price(&self.ask_levels, 3),
            ask5p: level_price(&self.ask_levels, 4),
            ask1q: level_quantity(&self.ask_levels, 0),
            ask2q: level_quantity(&self.ask_levels, 1),
            ask3q: level_quantity(&self.ask_levels, 2),
            ask4q: level_quantity(&self.ask_levels, 3),
            ask5q: level_quantity(&self.ask_levels, 4),
            openPrice: self.open_price,
            numTrades: self.num_trades,
        }
    }
}

fn level_price(levels: &Vec<Level>, i: usize) -> (r: i64)
    ensures
        r == price_at(levels@, i as int),
{
    if i < levels.len() {
        levels[i].price
    } else {
        0
    }
}

fn level_quantity(levels: &Vec<Level>, i: usize) -> (r: i64)
    ensures
        r == quantity_at(levels@, i as int),
{
    if i < levels.len() {
        levels[i].quantity
    } else {
        0
    }
}

} // verus!
