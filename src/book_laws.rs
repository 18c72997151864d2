//! Laws of a book over sequences of events: sorted sides, positive levels,
//! a clock that never goes back, no cross once the opening threshold has
//! passed, and session statistics that add up the trades applied.
use vstd::prelude::*;
use vstd::arithmetic::div_mod::{
    lemma_add_mod_noop_right, lemma_mod_add_multiples_vanish, lemma_mod_sub_multiples_vanish,
    lemma_small_mod,
};
use crate::book::{
    apply_change_spec, cancel_spec, cancelled_seq, change_levels, cross_step, crossed, empty_book,
    has_level, lemma_cross_step_shrinks, lemma_scan_bounds, lemma_top_index, level_index,
    levels_positive, levels_sorted, more_aggressive, order_step, resolve_cross, side_positive,
    side_sorted, trade_step, BookView, Level, CROSS_THRESHOLD,
};
use crate::md::{ExecuteType, Order, OrderType, Side, Trade};

verus! {

/// An event of either stream, as a book sees it.
pub enum Event {
    OrderEvent(Order),
    TradeEvent(Trade),
}

/// The book after one event.
pub open spec fn event_step(b: BookView, e: Event) -> BookView {
    match e {
        Event::OrderEvent(o) => order_step(b, o),
        Event::TradeEvent(t) => trade_step(b, t),
    }
}

/// The book after the events in turn.
pub open spec fn apply_events(b: BookView, evs: Seq<Event>) -> BookView
    decreases evs.len(),
{
    if evs.len() == 0 {
        b
    } else {
        event_step(apply_events(b, evs.drop_last()), evs.last())
    }
}

/// A level change that inserts a new level whose quantity is zero or less.
pub open spec fn adds_nonpositive_level(b: BookView, side: Side, price: i64, quantity: i64) -> bool {
    match side {
        Side::Bid => quantity <= 0 && !has_level(b.bids, true, price),
        Side::Ask => quantity <= 0 && !has_level(b.asks, false, price),
        Side::Unknown => false,
    }
}

/// Orders of this type rest on the price levels.
pub open spec fn at_levels(t: OrderType) -> bool {
    t is LimitOrder || t is MarketOrder
}

/// The event, applied to `b`, inserts no level with a quantity of zero or less.
pub open spec fn keeps_levels_positive(b: BookView, e: Event) -> bool {
    match e {
        Event::OrderEvent(o) => o.clockAtArrival < b.timestamp || !at_levels(o.OrderType)
            || !adds_nonpositive_level(b, o.Side, o.Price, o.OrderQty),
        Event::TradeEvent(t) => t.clockAtArrival < b.timestamp || !(t.ExecType is Cancelled)
            || !b.orders.contains_key(cancelled_seq(t)) || !at_levels(
            b.orders[cancelled_seq(t)].OrderType,
        ) || !adds_nonpositive_level(
            b,
            b.orders[cancelled_seq(t)].Side,
            b.orders[cancelled_seq(t)].Price,
            0i64.wrapping_sub(t.TradeQty),
        ),
    }
}

/// A level change keeps a side sorted.
pub proof fn lemma_change_levels_sorted(levels: Seq<Level>, bid: bool, price: i64, quantity: i64)
    requires
        side_sorted(levels, bid),
    ensures
        side_sorted(change_levels(levels, bid, price, quantity), bid),
{
    lemma_scan_bounds(levels, bid, price, 0);
    let idx = level_index(levels, bid, price);
    let r = change_levels(levels, bid, price, quantity);
    if !has_level(levels, bid, price) {
        assert forall|j: int| idx <= j < levels.len() implies more_aggressive(
            bid,
            price,
            #[trigger] levels[j].price,
        ) by {
            assert(!more_aggressive(bid, levels[idx].price, price));
            if j > idx {
                assert(more_aggressive(bid, levels[idx].price, levels[j].price));
            }
        }
        assert forall|i: int, j: int| 0 <= i < j < r.len() implies more_aggressive(
            bid,
            #[trigger] r[i].price,
            #[trigger] r[j].price,
        ) by {
            if j < idx {
                assert(more_aggressive(bid, levels[i].price, levels[j].price));
            } else if j == idx {
                assert(more_aggressive(bid, levels[i].price, price));
            } else if i < idx {
                assert(more_aggressive(bid, levels[i].price, price));
                assert(more_aggressive(bid, price, levels[j - 1].price));
            } else if i == idx {
                assert(more_aggressive(bid, price, levels[j - 1].price));
            } else {
                assert(more_aggressive(bid, levels[i - 1].price, levels[j - 1].price));
            }
        }
    } else {
        let q = levels[idx].quantity.wrapping_add(quantity);
        if q <= 0 {
            assert forall|i: int, j: int| 0 <= i < j < r.len() implies more_aggressive(
                bid,
                #[trigger] r[i].price,
                #[trigger] r[j].price,
            ) by {
                let i0 = if i < idx { i } else { i + 1 };
                let j0 = if j < idx { j } else { j + 1 };
                assert(more_aggressive(bid, levels[i0].price, levels[j0].price));
            }
        } else {
            assert forall|i: int, j: int| 0 <= i < j < r.len() implies more_aggressive(
                bid,
                #[trigger] r[i].price,
                #[trigger] r[j].price,
            ) by {
                assert(more_aggressive(bid, levels[i].price, levels[j].price));
            }
        }
    }
}

/// A level change keeps every quantity positive unless it inserts a new
/// level with a quantity of zero or less.
pub proof fn lemma_change_levels_positive(levels: Seq<Level>, bid: bool, price: i64, quantity: i64)
    requires
        side_positive(levels),
        quantity > 0 || has_level(levels, bid, price),
    ensures
        side_positive(change_levels(levels, bid, price, quantity)),
{
    lemma_scan_bounds(levels, bid, price, 0);
    let idx = level_index(levels, bid, price);
    let r = change_levels(levels, bid, price, quantity);
    assert forall|i: int| 0 <= i < r.len() implies #[trigger] r[i].quantity > 0 by {
        if has_level(levels, bid, price) && levels[idx].quantity.wrapping_add(quantity) <= 0 {
            let i0 = if i < idx { i } else { i + 1 };
            assert(levels[i0].quantity > 0);
        } else if i != idx {
            if has_level(levels, bid, price) {
                assert(levels[i].quantity > 0);
            } else if i < idx {
                assert(levels[i].quantity > 0);
            } else {
                assert(levels[i - 1].quantity > 0);
            }
        }
    }
}

/// A level change of the book keeps its sides sorted, and keeps every
/// quantity positive unless it inserts a level at zero or less.
pub proof fn lemma_apply_change_levels(b: BookView, side: Side, price: i64, quantity: i64)
    ensures
        levels_sorted(b) ==> levels_sorted(apply_change_spec(b, side, price, quantity)),
        levels_positive(b) && !adds_nonpositive_level(b, side, price, quantity)
            ==> levels_positive(apply_change_spec(b, side, price, quantity)),
{
    match side {
        Side::Bid => {
            if levels_sorted(b) {
                lemma_change_levels_sorted(b.bids, true, price, quantity);
            }
            if levels_positive(b) && !adds_nonpositive_level(b, side, price, quantity) {
                lemma_change_levels_positive(b.bids, true, price, quantity);
            }
        },
        Side::Ask => {
            if levels_sorted(b) {
                lemma_change_levels_sorted(b.asks, false, price, quantity);
            }
            if levels_positive(b) && !adds_nonpositive_level(b, side, price, quantity) {
                lemma_change_levels_positive(b.asks, false, price, quantity);
            }
        },
        Side::Unknown => {},
    }
}

/// The cross resolver leaves the book uncrossed, changes nothing but the two
/// sides, and keeps them sorted and positive.
pub proof fn lemma_resolve_cross(b: BookView)
    ensures
        !crossed(resolve_cross(b)),
        resolve_cross(b) == (BookView {
            bids: resolve_cross(b).bids,
            asks: resolve_cross(b).asks,
            ..b
        }),
        levels_sorted(b) ==> levels_sorted(resolve_cross(b)),
        levels_positive(b) ==> levels_positive(resolve_cross(b)),
    decreases b.bids.len() + b.asks.len(),
{
    if crossed(b) {
        lemma_cross_step_shrinks(b);
        let q = 0i64.wrapping_sub(crate::book::min_i64(b.bids[0].quantity, b.asks[0].quantity));
        lemma_top_index(b.bids, true);
        lemma_top_index(b.asks, false);
        let b1 = apply_change_spec(b, Side::Bid, b.bids[0].price, q);
        lemma_apply_change_levels(b, Side::Bid, b.bids[0].price, q);
        assert(b1.asks == b.asks);
        lemma_apply_change_levels(b1, Side::Ask, b1.asks[0].price, q);
        assert(cross_step(b) == apply_change_spec(b1, Side::Ask, b1.asks[0].price, q));
        lemma_resolve_cross(cross_step(b));
    }
}

/// One event keeps both sides sorted, never moves the clock back, and keeps
/// every quantity positive when it inserts no level at zero or less.
pub proof fn lemma_event_step(b: BookView, e: Event)
    ensures
        event_step(b, e).timestamp >= b.timestamp,
        levels_sorted(b) ==> levels_sorted(event_step(b, e)),
        levels_positive(b) && keeps_levels_positive(b, e) ==> levels_positive(event_step(b, e)),
{
    match e {
        Event::OrderEvent(o) => {
            if o.clockAtArrival >= b.timestamp {
                let b1 = BookView {
                    timestamp: o.clockAtArrival,
                    orders: crate::book::orders_after(b, o),
                    ..b
                };
                lemma_apply_change_levels(b1, o.Side, o.Price, o.OrderQty);
                let b2 = match o.OrderType {
                    OrderType::LimitOrder | OrderType::MarketOrder => apply_change_spec(
                        b1,
                        o.Side,
                        o.Price,
                        o.OrderQty,
                    ),
                    OrderType::BestOrder => match o.Side {
                        Side::Bid => BookView {
                            bid_best: b1.bid_best.wrapping_add(o.OrderQty),
                            ..b1
                        },
                        Side::Ask => BookView {
                            ask_best: b1.ask_best.wrapping_add(o.OrderQty),
                            ..b1
                        },
                        Side::Unknown => b1,
                    },
                    OrderType::Unknown => b1,
                };
                lemma_resolve_cross(b2);
            }
        },
        Event::TradeEvent(t) => {
            if t.clockAtArrival >= b.timestamp {
                let b1 = BookView { timestamp: t.clockAtArrival, ..b };
                let seq = cancelled_seq(t);
                if t.ExecType is Cancelled && b1.orders.contains_key(seq) {
                    let o = b1.orders[seq];
                    lemma_apply_change_levels(b1, o.Side, o.Price, 0i64.wrapping_sub(t.TradeQty));
                }
            }
        },
    }
}

/// Once the book's clock has reached the opening threshold, an order never
/// leaves it crossed (unless the order is dropped as stale on a book that
/// was crossed already).
pub proof fn lemma_no_cross_after_threshold(b: BookView, o: Order)
    requires
        o.clockAtArrival >= b.timestamp || !crossed(b),
        order_step(b, o).timestamp >= CROSS_THRESHOLD,
    ensures
        !crossed(order_step(b, o)),
{
    if o.clockAtArrival >= b.timestamp {
        let b1 = BookView {
            timestamp: o.clockAtArrival,
            orders: crate::book::orders_after(b, o),
            ..b
        };
        let b2 = match o.OrderType {
            OrderType::LimitOrder | OrderType::MarketOrder => apply_change_spec(
                b1,
                o.Side,
                o.Price,
                o.OrderQty,
            ),
            OrderType::BestOrder => match o.Side {
                Side::Bid => BookView { bid_best: b1.bid_best.wrapping_add(o.OrderQty), ..b1 },
                Side::Ask => BookView { ask_best: b1.ask_best.wrapping_add(o.OrderQty), ..b1 },
                Side::Unknown => b1,
            },
            OrderType::Unknown => b1,
        };
        lemma_resolve_cross(b2);
    }
}

/// Starting from any book with sorted sides, both sides stay sorted after
/// every event; and all quantities stay positive as long as no event inserts
/// a level at zero or less.
pub proof fn lemma_events_keep_levels(b: BookView, evs: Seq<Event>)
    requires
        levels_sorted(b),
    ensures
        levels_sorted(apply_events(b, evs)),
        levels_positive(b) && (forall|k: int|
            0 <= k < evs.len() ==> keeps_levels_positive(
                #[trigger] apply_events(b, evs.take(k)),
                evs[k],
            )) ==> levels_positive(apply_events(b, evs)),
    decreases evs.len(),
{
    if evs.len() > 0 {
        let prev = evs.drop_last();
        lemma_events_keep_levels(b, prev);
        lemma_event_step(apply_events(b, prev), evs.last());
        if levels_positive(b) && (forall|k: int|
            0 <= k < evs.len() ==> keeps_levels_positive(
                #[trigger] apply_events(b, evs.take(k)),
                evs[k],
            )) {
            assert forall|k: int| 0 <= k < prev.len() implies keeps_levels_positive(
                #[trigger] apply_events(b, prev.take(k)),
                prev[k],
            ) by {
                assert(prev.take(k) =~= evs.take(k));
                assert(keeps_levels_positive(apply_events(b, evs.take(k)), evs[k]));
            }
            assert(evs.take(prev.len() as int) =~= prev);
            assert(keeps_levels_positive(
                apply_events(b, evs.take(prev.len() as int)),
                evs[prev.len() as int],
            ));
        }
    }
}

/// A fresh book has sorted sides, so every sequence of events keeps them sorted.
pub proof fn lemma_fresh_book_levels(inst_id: i32, evs: Seq<Event>)
    ensures
        levels_sorted(apply_events(empty_book(inst_id), evs)),
        (forall|k: int|
            0 <= k < evs.len() ==> keeps_levels_positive(
                #[trigger] apply_events(empty_book(inst_id), evs.take(k)),
                evs[k],
            )) ==> levels_positive(apply_events(empty_book(inst_id), evs)),
{
    lemma_events_keep_levels(empty_book(inst_id), evs);
}

/// The clock of a book never goes back over a sequence of events.
pub proof fn lemma_clock_monotone(b: BookView, evs: Seq<Event>, i: int, j: int)
    requires
        0 <= i <= j <= evs.len(),
    ensures
        apply_events(b, evs.take(i)).timestamp <= apply_events(b, evs.take(j)).timestamp,
    decreases j - i,
{
    if i < j {
        lemma_clock_monotone(b, evs, i, j - 1);
        assert(evs.take(j).drop_last() =~= evs.take(j - 1));
        lemma_event_step(apply_events(b, evs.take(j - 1)), evs[j - 1]);
    }
}

/// `x` reduced to a 64-bit two's-complement integer.
pub open spec fn wrap_i64(x: int) -> i64 {
    ((x - i64::MIN) % 0x1_0000_0000_0000_0000 + i64::MIN) as i64
}

/// The event is a trade (not a cancellation) that the book applies.
pub open spec fn applies_trade(b: BookView, e: Event) -> bool {
    match e {
        Event::TradeEvent(t) => t.ExecType is Traded && t.clockAtArrival >= b.timestamp,
        Event::OrderEvent(_) => false,
    }
}

/// Quantity of a trade-stream event (0 for an order).
pub open spec fn trade_qty(e: Event) -> int {
    match e {
        Event::TradeEvent(t) => t.TradeQty as int,
        Event::OrderEvent(_) => 0,
    }
}

/// Sum of the quantities of the trades among `evs` that the book applies.
pub open spec fn traded_volume(b: BookView, evs: Seq<Event>) -> int
    decreases evs.len(),
{
    if evs.len() == 0 {
        0
    } else {
        traded_volume(b, evs.drop_last()) + if applies_trade(
            apply_events(b, evs.drop_last()),
            evs.last(),
        ) {
            trade_qty(evs.last())
        } else {
            0
        }
    }
}

/// Number of the trades among `evs` that the book applies.
pub open spec fn traded_count(b: BookView, evs: Seq<Event>) -> int
    decreases evs.len(),
{
    if evs.len() == 0 {
        0
    } else {
        traded_count(b, evs.drop_last()) + if applies_trade(
            apply_events(b, evs.drop_last()),
            evs.last(),
        ) {
            1int
        } else {
            0
        }
    }
}

/// Adding with wrap-around to a reduced value reduces the exact sum.
pub proof fn lemma_wrap_add(x: int, q: i64)
    ensures
        wrap_i64(x).wrapping_add(q) == wrap_i64(x + q),
{
    let m: int = 0x1_0000_0000_0000_0000;
    let a = wrap_i64(x);
    let c = x - i64::MIN;
    lemma_add_mod_noop_right(q as int, c, m);
    assert(a + q - i64::MIN == q + c % m);
    let s = a + q;
    if s > i64::MAX {
        lemma_mod_add_multiples_vanish(s - i64::MIN - m, m);
        lemma_small_mod((s - i64::MIN - m) as nat, m as nat);
    } else if s < i64::MIN {
        lemma_mod_sub_multiples_vanish(s - i64::MIN + m, m);
        lemma_small_mod((s - i64::MIN + m) as nat, m as nat);
    } else {
        lemma_small_mod((s - i64::MIN) as nat, m as nat);
    }
}

/// A value that fits is its own reduction.
pub proof fn lemma_wrap_small(x: i64)
    ensures
        wrap_i64(x as int) == x,
{
    lemma_small_mod((x - i64::MIN) as nat, 0x1_0000_0000_0000_0000nat);
}

/// An event leaves the volume and the trade count alone unless it is a trade
/// the book applies, which adds its quantity and one.
pub proof fn lemma_event_statistics(b: BookView, e: Event)
    ensures
        applies_trade(b, e) ==> event_step(b, e).cum_volume == b.cum_volume.wrapping_add(
            trade_qty(e) as i64,
        ) && event_step(b, e).num_trades == b.num_trades.wrapping_add(1),
        !applies_trade(b, e) ==> event_step(b, e).cum_volume == b.cum_volume
            && event_step(b, e).num_trades == b.num_trades,
{
    match e {
        Event::OrderEvent(o) => {
            if o.clockAtArrival >= b.timestamp {
                let b1 = BookView {
                    timestamp: o.clockAtArrival,
                    orders: crate::book::orders_after(b, o),
                    ..b
                };
                let b2 = match o.OrderType {
                    OrderType::LimitOrder | OrderType::MarketOrder => apply_change_spec(
                        b1,
                        o.Side,
                        o.Price,
                        o.OrderQty,
                    ),
                    OrderType::BestOrder => match o.Side {
                        Side::Bid => BookView {
                            bid_best: b1.bid_best.wrapping_add(o.OrderQty),
                            ..b1
                        },
                        Side::Ask => BookView {
                            ask_best: b1.ask_best.wrapping_add(o.OrderQty),
                            ..b1
                        },
                        Side::Unknown => b1,
                    },
                    OrderType::Unknown => b1,
                };
                lemma_resolve_cross(b2);
            }
        },
        Event::TradeEvent(t) => {},
    }
}

/// The cumulative volume is the starting volume plus the quantities of the
/// trades applied, and the trade count the starting count plus their number,
/// both in 64-bit two's-complement arithmetic.
pub proof fn lemma_statistics_add_up(b: BookView, evs: Seq<Event>)
    ensures
        apply_events(b, evs).cum_volume == wrap_i64(b.cum_volume + traded_volume(b, evs)),
        apply_events(b, evs).num_trades == wrap_i64(b.num_trades + traded_count(b, evs)),
    decreases evs.len(),
{
    if evs.len() == 0 {
        lemma_wrap_small(b.cum_volume);
        lemma_wrap_small(b.num_trades);
    } else {
        let prev = evs.drop_last();
        lemma_statistics_add_up(b, prev);
        let p = apply_events(b, prev);
        lemma_event_statistics(p, evs.last());
        if applies_trade(p, evs.last()) {
            let q = trade_qty(evs.last());
            lemma_wrap_add(b.cum_volume + traded_volume(b, prev), q as i64);
            lemma_wrap_add(b.num_trades + traded_count(b, prev), 1);
        }
    }
}

/// Arrival clock of an event.
pub open spec fn event_clock(e: Event) -> i64 {
    match e {
        Event::OrderEvent(o) => o.clockAtArrival,
        Event::TradeEvent(t) => t.clockAtArrival,
    }
}

/// `evs` interleaves the order stream `os` and the trade stream `ts`,
/// keeping the order of each.
pub open spec fn interleaves(evs: Seq<Event>, os: Seq<Order>, ts: Seq<Trade>) -> bool
    decreases evs.len(),
{
    if evs.len() == 0 {
        os.len() == 0 && ts.len() == 0
    } else {
        match evs.last() {
            Event::OrderEvent(o) => os.len() > 0 && os.last() == o && interleaves(
                evs.drop_last(),
                os.drop_last(),
                ts,
            ),
            Event::TradeEvent(t) => ts.len() > 0 && ts.last() == t && interleaves(
                evs.drop_last(),
                os,
                ts.drop_last(),
            ),
        }
    }
}

/// Clocks never go back along `evs`, and at equal clocks orders come before trades.
pub open spec fn clock_ordered(evs: Seq<Event>) -> bool {
    forall|i: int, j: int|
        0 <= i < j < evs.len() ==> event_clock(#[trigger] evs[i]) <= event_clock(#[trigger] evs[j])
            && (event_clock(evs[i]) == event_clock(evs[j]) && evs[j] is OrderEvent
            ==> evs[i] is OrderEvent)
}

proof fn lemma_interleaves_has_last(evs: Seq<Event>, os: Seq<Order>, ts: Seq<Trade>)
    requires
        interleaves(evs, os, ts),
    ensures
        evs.len() == os.len() + ts.len(),
        os.len() > 0 ==> exists|i: int|
            0 <= i < evs.len() && #[trigger] evs[i] == Event::OrderEvent(os.last()),
        ts.len() > 0 ==> exists|i: int|
            0 <= i < evs.len() && #[trigger] evs[i] == Event::TradeEvent(ts.last()),
    decreases evs.len(),
{
    if evs.len() > 0 {
        let n = evs.len() - 1;
        match evs.last() {
            Event::OrderEvent(o) => {
                lemma_interleaves_has_last(evs.drop_last(), os.drop_last(), ts);
                assert(evs[n] == Event::OrderEvent(os.last()));
                if ts.len() > 0 {
                    let i = choose|i: int|
                        0 <= i < evs.drop_last().len() && #[trigger] evs.drop_last()[i]
                            == Event::TradeEvent(ts.last());
                    assert(evs[i] == Event::TradeEvent(ts.last()));
                }
            },
            Event::TradeEvent(t) => {
                lemma_interleaves_has_last(evs.drop_last(), os, ts.drop_last());
                assert(evs[n] == Event::TradeEvent(ts.last()));
                if os.len() > 0 {
                    let i = choose|i: int|
                        0 <= i < evs.drop_last().len() && #[trigger] evs.drop_last()[i]
                            == Event::OrderEvent(os.last());
                    assert(evs[i] == Event::OrderEvent(os.last()));
                }
            },
        }
    }
}

/// Replay order does not depend on how events of equal clocks are presented:
/// two interleavings of the same order and trade streams that both keep
/// clocks in order, with orders first at equal clocks, are the same sequence,
/// so a book replaying either ends in the same state.
pub proof fn lemma_replay_order_unique(
    os: Seq<Order>,
    ts: Seq<Trade>,
    e1: Seq<Event>,
    e2: Seq<Event>,
    b: BookView,
)
    requires
        interleaves(e1, os, ts),
        interleaves(e2, os, ts),
        clock_ordered(e1),
        clock_ordered(e2),
    ensures
        e1 == e2,
        apply_events(b, e1) == apply_events(b, e2),
    decreases e1.len(),
{
    lemma_interleaves_has_last(e1, os, ts);
    lemma_interleaves_has_last(e2, os, ts);
    if e1.len() > 0 {
        let n = e1.len() - 1;
        // the two sequences end with an event of the same stream
        match (e1.last(), e2.last()) {
            (Event::OrderEvent(o), Event::TradeEvent(t)) => {
                let i = choose|i: int| 0 <= i < e1.len() && #[trigger] e1[i] == Event::TradeEvent(ts.last());
                let j = choose|j: int| 0 <= j < e2.len() && #[trigger] e2[j] == Event::OrderEvent(os.last());
                assert(i != n);
                assert(j != n);
                assert(event_clock(e1[i]) <= event_clock(e1[n]));
                assert(event_clock(e2[j]) <= event_clock(e2[n]));
                assert(false);
            },
            (Event::TradeEvent(t), Event::OrderEvent(o)) => {
                let i = choose|i: int| 0 <= i < e1.len() && #[trigger] e1[i] == Event::OrderEvent(os.last());
                let j = choose|j: int| 0 <= j < e2.len() && #[trigger] e2[j] == Event::TradeEvent(ts.last());
                assert(i != n);
                assert(j != n);
                assert(event_clock(e1[i]) <= event_clock(e1[n]));
                assert(event_clock(e2[j]) <= event_clock(e2[n]));
                assert(false);
            },
            _ => {},
        }
        let pre1 = e1.drop_last();
        let pre2 = e2.drop_last();
        assert(clock_ordered(pre1)) by {
            assert forall|i: int, j: int| 0 <= i < j < pre1.len() implies event_clock(#[trigger] pre1[i])
                <= event_clock(#[trigger] pre1[j]) && (event_clock(pre1[i]) == event_clock(pre1[j])
                && pre1[j] is OrderEvent ==> pre1[i] is OrderEvent) by {
                assert(pre1[i] == e1[i] && pre1[j] == e1[j]);
            }
        }
        assert(clock_ordered(pre2)) by {
            assert forall|i: int, j: int| 0 <= i < j < pre2.len() implies event_clock(#[trigger] pre2[i])
                <= event_clock(#[trigger] pre2[j]) && (event_clock(pre2[i]) == event_clock(pre2[j])
                && pre2[j] is OrderEvent ==> pre2[i] is OrderEvent) by {
                assert(pre2[i] == e2[i] && pre2[j] == e2[j]);
            }
        }
        match e1.last() {
            Event::OrderEvent(o) => {
                lemma_replay_order_unique(os.drop_last(), ts, pre1, pre2, b);
            },
            Event::TradeEvent(t) => {
                lemma_replay_order_unique(os, ts.drop_last(), pre1, pre2, b);
            },
        }
        assert(e1 =~= pre1.push(e1.last()));
        assert(e2 =~= pre2.push(e2.last()));
    } else {
        assert(e1 =~= e2);
    }
}

} // verus!
